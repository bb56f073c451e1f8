//! Decimal numerals: parsing unsigned integers, printing sequence ids, and
//! deciding whether a plain decimal argument denotes one or zero (the full
//! opacity and the zero amount of the rendering rules).

use vstd::prelude::*;

use crate::text::push_char;

verus! {

pub open spec fn is_digit(c: char) -> bool {
    '0' <= c && c <= '9'
}

pub open spec fn all_digits(s: Seq<char>) -> bool {
    forall|i: int| 0 <= i < s.len() ==> is_digit(s[i])
}

/// The value of a digit string read as a base-ten numeral.
pub open spec fn digits_val(s: Seq<char>) -> int
    decreases s.len(),
{
    if s.len() == 0 {
        0
    } else {
        digits_val(s.drop_last()) * 10 + (s.last() as int - '0' as int)
    }
}

pub proof fn lemma_digits_val_nonneg(s: Seq<char>)
    requires
        all_digits(s),
    ensures
        digits_val(s) >= 0,
    decreases s.len(),
{
    if s.len() > 0 {
        assert(all_digits(s.drop_last()));
        lemma_digits_val_nonneg(s.drop_last());
    }
}

/// A digit string denotes zero exactly when every digit is `0`.
pub proof fn lemma_digits_val_zero(s: Seq<char>)
    requires
        all_digits(s),
    ensures
        (digits_val(s) == 0) <==> (forall|i: int| 0 <= i < s.len() ==> s[i] == '0'),
    decreases s.len(),
{
    if s.len() > 0 {
        assert(all_digits(s.drop_last()));
        lemma_digits_val_zero(s.drop_last());
        lemma_digits_val_nonneg(s.drop_last());
        if digits_val(s) == 0 {
            assert(forall|i: int| 0 <= i < s.len() - 1 ==> s.drop_last()[i] == '0');
            assert(forall|i: int|
                0 <= i < s.len() ==> (if i < s.len() - 1 {
                    s[i] == s.drop_last()[i]
                } else {
                    s[i] == s.last()
                }));
        } else {
            if forall|i: int| 0 <= i < s.len() ==> s[i] == '0' {
                assert(forall|i: int| 0 <= i < s.len() - 1 ==> s.drop_last()[i] == '0');
                assert(s.last() == '0');
            }
        }
    }
}

/// A digit string denotes one exactly when its last digit is `1` and every
/// other digit is `0`.
pub proof fn lemma_digits_val_one(s: Seq<char>)
    requires
        all_digits(s),
    ensures
        (digits_val(s) == 1) <==> (s.len() > 0 && s.last() == '1' && (forall|i: int|
            0 <= i < s.len() - 1 ==> s[i] == '0')),
    decreases s.len(),
{
    if s.len() > 0 {
        assert(all_digits(s.drop_last()));
        lemma_digits_val_nonneg(s.drop_last());
        lemma_digits_val_zero(s.drop_last());
        if digits_val(s) == 1 {
            assert(digits_val(s.drop_last()) == 0);
            assert(forall|i: int| 0 <= i < s.len() - 1 ==> s[i] == s.drop_last()[i]);
        } else {
            if s.last() == '1' && (forall|i: int| 0 <= i < s.len() - 1 ==> s[i] == '0') {
                assert(forall|i: int| 0 <= i < s.len() - 1 ==> s.drop_last()[i] == '0');
                assert(digits_val(s.drop_last()) == 0);
            }
        }
    }
}

// ----- parsing unsigned integers -----

pub open spec fn u32_from_digits(s: Seq<char>) -> Option<u32> {
    if s.len() > 0 && all_digits(s) && digits_val(s) <= u32::MAX {
        Some(digits_val(s) as u32)
    } else {
        None
    }
}

/// The value `u32::from_str` reads: an optional leading `+`, then at least
/// one digit, rejected when the value overflows.
pub open spec fn parse_u32_of(s: Seq<char>) -> Option<u32> {
    if s.len() > 0 && s[0] == '+' {
        u32_from_digits(s.skip(1))
    } else {
        u32_from_digits(s)
    }
}

proof fn lemma_digits_val_prefix_grows(s: Seq<char>, i: int)
    requires
        all_digits(s),
        0 <= i <= s.len(),
    ensures
        digits_val(s.take(i)) <= digits_val(s),
    decreases s.len() - i,
{
    if i < s.len() {
        lemma_digits_val_prefix_grows(s, i + 1);
        assert(s.take(i + 1).drop_last() =~= s.take(i));
        assert(digits_val(s.take(i + 1)) == digits_val(s.take(i)) * 10 + (s[i] as int
            - '0' as int));
        assert(all_digits(s.take(i)));
        lemma_digits_val_nonneg(s.take(i));
    } else {
        assert(s.take(i) =~= s);
    }
}

/// Parses the digit part of an unsigned numeral starting at `from`.
fn parse_digits(v: &Vec<char>, from: usize) -> (r: Option<u32>)
    requires
        from <= v@.len(),
    ensures
        r == u32_from_digits(v@.skip(from as int)),
{
    let ghost s = v@.skip(from as int);
    if from == v.len() {
        return None;
    }
    let mut acc: u32 = 0;
    let mut i: usize = from;
    while i < v.len()
        invariant
            from <= i <= v@.len(),
            s == v@.skip(from as int),
            all_digits(s.take(i - from)),
            acc == digits_val(s.take(i - from)),
        decreases v@.len() - i,
    {
        let c = v[i];
        if !('0' <= c && c <= '9') {
            proof {
                assert(s[i - from] == v@[i as int]);
                assert(!is_digit(s[i - from]));
                assert(!all_digits(s));
            }
            return None;
        }
        let d: u32 = (c as u32) - ('0' as u32);
        proof {
            assert(s.take(i - from + 1).drop_last() =~= s.take(i - from));
            assert(s.take(i - from + 1).last() == v@[i as int]);
        }
        if acc > (u32::MAX - d) / 10 {
            proof {
                assert(all_digits(s.take(i - from + 1)));
                assert(digits_val(s.take(i - from + 1)) == acc * 10 + d);
                assert(digits_val(s.take(i - from + 1)) > u32::MAX);
                if all_digits(s) {
                    lemma_digits_val_prefix_grows(s, i - from + 1);
                    assert(digits_val(s) > u32::MAX);
                }
            }
            return None;
        }
        acc = acc * 10 + d;
        i = i + 1;
    }
    proof {
        assert(s.take(v@.len() - from) =~= s);
    }
    Some(acc)
}

/// Parses an unsigned integer as `u32::from_str` does.
pub fn parse_u32_chars(v: &Vec<char>) -> (r: Option<u32>)
    ensures
        r == parse_u32_of(v@),
{
    if v.len() > 0 && v[0] == '+' {
        parse_digits(v, 1)
    } else {
        proof {
            assert(v@.skip(0) =~= v@);
        }
        parse_digits(v, 0)
    }
}

// ----- printing sequence ids -----

pub open spec fn digit_char(d: int) -> char {
    if d == 0 {
        '0'
    } else if d == 1 {
        '1'
    } else if d == 2 {
        '2'
    } else if d == 3 {
        '3'
    } else if d == 4 {
        '4'
    } else if d == 5 {
        '5'
    } else if d == 6 {
        '6'
    } else if d == 7 {
        '7'
    } else if d == 8 {
        '8'
    } else {
        '9'
    }
}

/// The base-ten numeral of a non-negative integer, without sign or padding.
pub open spec fn dec_of(n: int) -> Seq<char>
    decreases n,
{
    if n < 10 {
        seq![digit_char(n)]
    } else {
        dec_of(n / 10).push(digit_char(n % 10))
    }
}

fn digit_char_exec(d: usize) -> (c: char)
    requires
        d <= 9,
    ensures
        c == digit_char(d as int),
{
    if d == 0 {
        '0'
    } else if d == 1 {
        '1'
    } else if d == 2 {
        '2'
    } else if d == 3 {
        '3'
    } else if d == 4 {
        '4'
    } else if d == 5 {
        '5'
    } else if d == 6 {
        '6'
    } else if d == 7 {
        '7'
    } else if d == 8 {
        '8'
    } else {
        '9'
    }
}

/// Appends the base-ten numeral of `n` to a string.
pub fn push_dec(s: &mut String, n: usize)
    ensures
        final(s)@ == old(s)@ + dec_of(n as int),
    decreases n,
{
    if n < 10 {
        push_char(s, digit_char_exec(n));
        proof {
            assert(old(s)@.push(digit_char(n as int)) =~= old(s)@ + dec_of(n as int));
        }
    } else {
        push_dec(s, n / 10);
        push_char(s, digit_char_exec(n % 10));
        proof {
            assert((old(s)@ + dec_of(n as int / 10)).push(digit_char(n as int % 10)) =~= old(s)@
                + dec_of(n as int));
        }
    }
}

/// A printed numeral reads back as the number it was printed from.
pub proof fn lemma_dec_of_digits(n: int)
    requires
        n >= 0,
    ensures
        all_digits(dec_of(n)),
        digits_val(dec_of(n)) == n,
        dec_of(n).len() >= 1,
        dec_of(n)[0] != '+',
    decreases n,
{
    assert forall|d: int| 0 <= d <= 9 implies digit_char(d) as int - '0' as int == d by {
        if d == 0 {
        } else if d == 1 {
        } else if d == 2 {
        } else if d == 3 {
        } else if d == 4 {
        } else if d == 5 {
        } else if d == 6 {
        } else if d == 7 {
        } else if d == 8 {
        } else {
        }
    }
    if n < 10 {
        assert(dec_of(n) =~= seq![digit_char(n)]);
        assert(dec_of(n).drop_last() =~= Seq::<char>::empty());
        assert(dec_of(n).last() == digit_char(n));
        assert(digits_val(Seq::<char>::empty()) == 0);
        assert(is_digit(digit_char(n)));
    } else {
        lemma_dec_of_digits(n / 10);
        assert(dec_of(n).drop_last() =~= dec_of(n / 10));
        assert(dec_of(n).last() == digit_char(n % 10));
        assert(is_digit(digit_char(n % 10)));
        assert(dec_of(n)[0] == dec_of(n / 10)[0]);
    }
}

pub proof fn lemma_parse_dec(n: u32)
    ensures
        parse_u32_of(dec_of(n as int)) == Some(n),
{
    lemma_dec_of_digits(n as int);
}

// ----- plain decimal arguments: full opacity and zero amount -----

/// The index of the first occurrence of a character, if any.
pub open spec fn find_char(s: Seq<char>, c: char) -> Option<int>
    decreases s.len(),
{
    if s.len() == 0 {
        None
    } else if s[0] == c {
        Some(0)
    } else {
        match find_char(s.skip(1), c) {
            None => None,
            Some(j) => Some(j + 1),
        }
    }
}

pub proof fn lemma_find_char_is(s: Seq<char>, c: char, j: int)
    requires
        0 <= j < s.len(),
        s[j] == c,
        forall|k: int| 0 <= k < j ==> s[k] != c,
    ensures
        find_char(s, c) == Some(j),
    decreases j,
{
    if j > 0 {
        lemma_find_char_is(s.skip(1), c, j - 1);
    }
}

pub proof fn lemma_find_char_none(s: Seq<char>, c: char)
    requires
        forall|k: int| 0 <= k < s.len() ==> s[k] != c,
    ensures
        find_char(s, c) is None,
    decreases s.len(),
{
    if s.len() > 0 {
        lemma_find_char_none(s.skip(1), c);
    }
}

/// What a found index means: the first occurrence, or none anywhere.
pub proof fn lemma_find_char(s: Seq<char>, c: char)
    ensures
        match find_char(s, c) {
            None => forall|k: int| 0 <= k < s.len() ==> s[k] != c,
            Some(j) => 0 <= j < s.len() && s[j] == c && forall|k: int| 0 <= k < j ==> s[k] != c,
        },
    decreases s.len(),
{
    if s.len() > 0 && s[0] != c {
        lemma_find_char(s.skip(1), c);
        match find_char(s.skip(1), c) {
            None => {
                assert forall|k: int| 0 <= k < s.len() implies s[k] != c by {
                    if k > 0 {
                        assert(s.skip(1)[k - 1] == s[k]);
                    }
                }
            },
            Some(j) => {
                assert(s.skip(1)[j] == s[j + 1]);
                assert forall|k: int| 0 <= k < j + 1 implies s[k] != c by {
                    if k > 0 {
                        assert(s.skip(1)[k - 1] == s[k]);
                    }
                }
            },
        }
    }
}

/// Splits a numeral body at its decimal point: `None` when the body is not
/// a plain decimal (digit runs around at most one point, with at least one
/// digit in all).
pub open spec fn decimal_parts(b: Seq<char>) -> Option<(Seq<char>, Seq<char>)> {
    match find_char(b, '.') {
        None => if b.len() >= 1 && all_digits(b) {
            Some((b, Seq::empty()))
        } else {
            None
        },
        Some(j) => {
            let ip = b.take(j);
            let fp = b.skip(j + 1);
            if find_char(fp, '.') is None && all_digits(ip) && all_digits(fp) && ip.len()
                + fp.len() >= 1 {
                Some((ip, fp))
            } else {
                None
            }
        },
    }
}

pub open spec fn strip_sign(s: Seq<char>) -> Seq<char> {
    if s.len() > 0 && (s[0] == '+' || s[0] == '-') {
        s.skip(1)
    } else {
        s
    }
}

pub open spec fn is_neg(s: Seq<char>) -> bool {
    s.len() > 0 && s[0] == '-'
}

/// Whether the argument text denotes exactly one: a non-negative plain
/// decimal of value one, the full opacity of a blocker.
pub open spec fn denotes_one(s: Seq<char>) -> bool {
    match decimal_parts(strip_sign(s)) {
        Some(p) => !is_neg(s) && digits_val(p.0) == 1 && digits_val(p.1) == 0,
        None => false,
    }
}

/// Whether the camera-effect amount resolves to zero: an absent value is
/// zero by default, a malformed one falls back to zero, a plain decimal
/// counts as zero when its digits all are.
pub open spec fn denotes_zero_or_invalid(s: Seq<char>) -> bool {
    match decimal_parts(strip_sign(s)) {
        Some(p) => digits_val(p.0) == 0 && digits_val(p.1) == 0,
        None => true,
    }
}

/// Reads the split of a numeral body at its decimal point, checking that
/// every other character is a digit.
fn decimal_parts_exec(v: &Vec<char>, from: usize) -> (r: Option<(Vec<char>, Vec<char>)>)
    requires
        from <= v@.len(),
    ensures
        match r {
            Some(p) => decimal_parts(v@.skip(from as int)) == Some((p.0@, p.1@)),
            None => decimal_parts(v@.skip(from as int)) is None,
        },
{
    let ghost b = v@.skip(from as int);
    let mut int_part: Vec<char> = Vec::new();
    let mut frac_part: Vec<char> = Vec::new();
    let mut dot: Option<usize> = None;
    let mut i: usize = from;
    while i < v.len()
        invariant
            from <= i <= v@.len(),
            b == v@.skip(from as int),
            match dot {
                None => {
                    &&& int_part@ =~= b.take(i - from)
                    &&& frac_part@.len() == 0
                    &&& forall|k: int| 0 <= k < i - from ==> b[k] != '.'
                },
                Some(j) => {
                    &&& from <= j < i
                    &&& b[j - from] == '.'
                    &&& (forall|k: int| 0 <= k < j - from ==> b[k] != '.')
                    &&& int_part@ =~= b.take(j - from)
                    &&& frac_part@ =~= b.subrange(j - from + 1, i - from)
                    &&& forall|k: int| j - from < k < i - from ==> b[k] != '.'
                },
            },
            all_digits(int_part@),
            all_digits(frac_part@),
        decreases v@.len() - i,
    {
        let c = v[i];
        proof {
            assert(b[i - from] == v@[i as int]);
        }
        if c == '.' {
            match dot {
                Some(j) => {
                    proof {
                        lemma_find_char_is(b, '.', j - from);
                        let fp = b.skip(j - from + 1);
                        assert(fp[i - from - (j - from) - 1] == '.');
                        lemma_find_char(fp, '.');
                    }
                    return None;
                },
                None => {
                    dot = Some(i);
                    proof {
                        assert(b.subrange(i - from + 1, i - from + 1) =~= Seq::<char>::empty());
                    }
                },
            }
        } else if '0' <= c && c <= '9' {
            match dot {
                None => {
                    int_part.push(c);
                    proof {
                        assert(b.take(i - from).push(b[i - from]) =~= b.take(i - from + 1));
                    }
                },
                Some(j) => {
                    frac_part.push(c);
                    proof {
                        assert(b.subrange(j - from + 1, i - from).push(b[i - from]) =~= b.subrange(
                            j - from + 1,
                            i - from + 1,
                        ));
                    }
                },
            }
        } else {
            proof {
                assert(!is_digit(b[i - from]));
                match dot {
                    None => {
                        match find_char(b, '.') {
                            None => {
                                assert(!all_digits(b));
                            },
                            Some(j2) => {
                                lemma_find_char(b, '.');
                                assert(j2 > i - from);
                                assert(b.take(j2)[i - from] == b[i - from]);
                                assert(!all_digits(b.take(j2)));
                            },
                        }
                    },
                    Some(j) => {
                        lemma_find_char_is(b, '.', j - from);
                        assert(b.skip(j - from + 1)[i - from - (j - from) - 1] == b[i - from]);
                        assert(!all_digits(b.skip(j - from + 1)));
                    },
                }
            }
            return None;
        }
        i = i + 1;
    }
    match dot {
        None => {
            proof {
                lemma_find_char_none(b, '.');
                assert(int_part@ =~= b);
            }
            if int_part.len() == 0 {
                return None;
            }
            Some((int_part, frac_part))
        },
        Some(j) => {
            proof {
                lemma_find_char_is(b, '.', j - from);
                assert(frac_part@ =~= b.skip(j - from + 1));
                let fp = b.skip(j - from + 1);
                lemma_find_char_none(fp, '.');
            }
            if int_part.len() + frac_part.len() == 0 {
                return None;
            }
            Some((int_part, frac_part))
        },
    }
}

/// Whether the argument denotes the full opacity, exactly one.
pub fn denotes_one_chars(v: &Vec<char>) -> (r: bool)
    ensures
        r == denotes_one(v@),
{
    let neg = v.len() > 0 && v[0] == '-';
    let from: usize = if v.len() > 0 && (v[0] == '+' || v[0] == '-') {
        1
    } else {
        proof {
            assert(v@.skip(0) =~= v@);
        }
        0
    };
    match decimal_parts_exec(v, from) {
        None => false,
        Some((ip, fp)) => {
            if neg {
                return false;
            }
            let iv = digits_value_is(&ip);
            let fv = digits_value_is(&fp);
            iv == 1 && fv == 0
        },
    }
}

/// Whether the argument denotes zero, or is malformed and falls back to it.
pub fn denotes_zero_or_invalid_chars(v: &Vec<char>) -> (r: bool)
    ensures
        r == denotes_zero_or_invalid(v@),
{
    let from: usize = if v.len() > 0 && (v[0] == '+' || v[0] == '-') {
        1
    } else {
        proof {
            assert(v@.skip(0) =~= v@);
        }
        0
    };
    match decimal_parts_exec(v, from) {
        None => true,
        Some((ip, fp)) => {
            let iv = digits_value_is(&ip);
            let fv = digits_value_is(&fp);
            iv == 0 && fv == 0
        },
    }
}

/// Classifies an all-digit string as denoting zero, one, or something else
/// (returned as two).
fn digits_value_is(v: &Vec<char>) -> (r: u32)
    requires
        all_digits(v@),
    ensures
        (r == 0) == (digits_val(v@) == 0),
        (r == 1) == (digits_val(v@) == 1),
{
    let mut all_zero = true;
    let mut is_one = false;
    let mut i: usize = 0;
    while i < v.len()
        invariant
            i <= v@.len(),
            all_digits(v@),
            all_zero == forall|k: int| 0 <= k < i ==> v@[k] == '0',
            is_one == (i > 0 && v@[i - 1] == '1' && forall|k: int|
                0 <= k < i - 1 ==> v@[k] == '0'),
        decreases v@.len() - i,
    {
        let c = v[i];
        is_one = c == '1' && all_zero;
        if c != '0' {
            all_zero = false;
        }
        i = i + 1;
    }
    proof {
        lemma_digits_val_zero(v@);
        lemma_digits_val_one(v@);
    }
    if all_zero {
        0
    } else if is_one {
        1
    } else {
        2
    }
}

} // verus!
