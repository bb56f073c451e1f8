//! Pattern operations on character sequences: removing every occurrence of
//! a marker, splitting on a separator, joining fragments, and reversing a
//! fragment list.  Matches are found scanning left to right, without
//! overlap, as `str::replace` and `str::split` find them.

use vstd::prelude::*;

use crate::text::push_char;
use crate::text::string_from_chars;

verus! {

pub open spec fn starts_with(s: Seq<char>, p: Seq<char>) -> bool {
    s.len() >= p.len() && s.take(p.len() as int) == p
}

/// The sequence with every occurrence of `p` removed.
pub open spec fn remove_pat(s: Seq<char>, p: Seq<char>) -> Seq<char>
    decreases s.len(),
{
    if p.len() == 0 {
        s
    } else if starts_with(s, p) {
        remove_pat(s.skip(p.len() as int), p)
    } else if s.len() > 0 {
        seq![s[0]] + remove_pat(s.skip(1), p)
    } else {
        Seq::empty()
    }
}

/// The fragments of `s` between occurrences of `p`: always at least one
/// fragment, one more than there are occurrences.
pub open spec fn split_pat(s: Seq<char>, p: Seq<char>) -> Seq<Seq<char>>
    decreases s.len(),
{
    if p.len() == 0 {
        seq![s]
    } else if starts_with(s, p) {
        seq![Seq::<char>::empty()] + split_pat(s.skip(p.len() as int), p)
    } else if s.len() > 0 {
        let r = split_pat(s.skip(1), p);
        seq![seq![s[0]] + r[0]] + r.skip(1)
    } else {
        seq![Seq::<char>::empty()]
    }
}

pub proof fn lemma_split_pat_len(s: Seq<char>, p: Seq<char>)
    ensures
        split_pat(s, p).len() >= 1,
    decreases s.len(),
{
    if p.len() > 0 && !starts_with(s, p) && s.len() > 0 {
        lemma_split_pat_len(s.skip(1), p);
    }
}

/// Fragments joined with a separator between each two.
pub open spec fn join_with(fr: Seq<Seq<char>>, sep: Seq<char>) -> Seq<char>
    decreases fr.len(),
{
    if fr.len() == 0 {
        Seq::empty()
    } else if fr.len() == 1 {
        fr[0]
    } else {
        fr[0] + sep + join_with(fr.skip(1), sep)
    }
}

proof fn lemma_join_push(fr: Seq<Seq<char>>, sep: Seq<char>, f: Seq<char>)
    requires
        fr.len() >= 1,
    ensures
        join_with(fr.push(f), sep) == join_with(fr, sep) + sep + f,
    decreases fr.len(),
{
    if fr.len() == 1 {
        assert(fr.push(f)[0] == fr[0]);
        assert(fr.push(f).skip(1) =~= seq![f]);
        assert(join_with(seq![f], sep) == f);
    } else {
        assert(fr.push(f).skip(1) =~= fr.skip(1).push(f));
        lemma_join_push(fr.skip(1), sep, f);
        assert(fr.push(f)[0] == fr[0]);
        assert(join_with(fr.push(f), sep) == fr[0] + sep + join_with(fr.skip(1).push(f), sep));
        assert(fr[0] + sep + (join_with(fr.skip(1), sep) + sep + f) =~= (fr[0] + sep + join_with(
            fr.skip(1),
            sep,
        )) + sep + f);
    }
}

/// Whether the pattern occurs at position `i`.
fn has_pat_at(v: &Vec<char>, i: usize, p: &Vec<char>) -> (r: bool)
    requires
        i <= v@.len(),
    ensures
        r == starts_with(v@.skip(i as int), p@),
{
    if p.len() > v.len() - i {
        return false;
    }
    let n = v.len();
    let mut k: usize = 0;
    while k < p.len()
        invariant
            0 <= k <= p@.len(),
            n == v@.len(),
            i + p@.len() <= n,
            forall|j: int| 0 <= j < k ==> v@[i + j] == p@[j],
        decreases p@.len() - k,
    {
        if v[i + k] != p[k] {
            proof {
                assert(v@.skip(i as int).take(p@.len() as int)[k as int] == v@[i + k]);
            }
            return false;
        }
        k = k + 1;
    }
    proof {
        assert(v@.skip(i as int).take(p@.len() as int) =~= p@);
    }
    true
}

/// Removes every occurrence of the marker `p` from `v`.
pub fn remove_pat_chars(v: &Vec<char>, p: &Vec<char>) -> (r: Vec<char>)
    requires
        p@.len() > 0,
    ensures
        r@ == remove_pat(v@, p@),
{
    let mut r: Vec<char> = Vec::new();
    let mut i: usize = 0;
    proof {
        assert(v@.skip(0) =~= v@);
        assert(Seq::<char>::empty() + remove_pat(v@, p@) =~= remove_pat(v@, p@));
    }
    while i < v.len()
        invariant
            i <= v@.len(),
            p@.len() > 0,
            remove_pat(v@, p@) == r@ + remove_pat(v@.skip(i as int), p@),
        decreases v@.len() - i,
    {
        if has_pat_at(v, i, p) {
            proof {
                assert(v@.skip(i as int).skip(p@.len() as int) =~= v@.skip(i + p@.len()));
            }
            i = i + p.len();
        } else {
            proof {
                assert(v@.skip(i as int).skip(1) =~= v@.skip(i + 1));
                assert(v@.skip(i as int)[0] == v@[i as int]);
            }
            let ghost r0 = r@;
            r.push(v[i]);
            proof {
                assert(r@ + remove_pat(v@.skip(i + 1), p@) =~= r0 + remove_pat(
                    v@.skip(i as int),
                    p@,
                ));
            }
            i = i + 1;
        }
    }
    proof {
        assert(v@.skip(v@.len() as int) =~= Seq::<char>::empty());
        assert(r@ + Seq::<char>::empty() =~= r@);
    }
    r
}

pub open spec fn views_of(v: Seq<String>) -> Seq<Seq<char>> {
    v.map_values(|s: String| s@)
}

/// Splits `v` on the separator `p` into fragments.
pub fn split_pat_chars(v: &Vec<char>, p: &Vec<char>) -> (r: Vec<String>)
    requires
        p@.len() > 0,
    ensures
        views_of(r@) == split_pat(v@, p@),
{
    let mut frags: Vec<String> = Vec::new();
    let mut cur: Vec<char> = Vec::new();
    let mut i: usize = 0;
    proof {
        lemma_split_pat_len(v@, p@);
        assert(v@.skip(0) =~= v@);
        let sp = split_pat(v@, p@);
        assert(seq![Seq::<char>::empty() + sp[0]] + sp.skip(1) =~~= sp);
    }
    while i < v.len()
        invariant
            i <= v@.len(),
            p@.len() > 0,
            split_pat(v@.skip(i as int), p@).len() >= 1,
            split_pat(v@, p@) =~~= views_of(frags@) + seq![
                cur@ + split_pat(v@.skip(i as int), p@)[0],
            ] + split_pat(v@.skip(i as int), p@).skip(1),
        decreases v@.len() - i,
    {
        let ghost rest = split_pat(v@.skip(i as int), p@);
        if has_pat_at(v, i, p) {
            proof {
                assert(v@.skip(i as int).skip(p@.len() as int) =~= v@.skip(i + p@.len()));
                lemma_split_pat_len(v@.skip(i + p@.len()), p@);
            }
            let done = string_from_chars(&cur);
            frags.push(done);
            cur = Vec::new();
            i = i + p.len();
            proof {
                let rest2 = split_pat(v@.skip(i as int), p@);
                assert(rest == seq![Seq::<char>::empty()] + rest2);
                assert(rest[0] =~= Seq::<char>::empty());
                assert(rest.skip(1) =~= rest2);
                assert(views_of(frags@) =~= views_of(frags@.drop_last()).push(
                    frags@.last()@,
                ));
            }
        } else {
            proof {
                assert(v@.skip(i as int).skip(1) =~= v@.skip(i + 1));
                assert(v@.skip(i as int)[0] == v@[i as int]);
                lemma_split_pat_len(v@.skip(i + 1), p@);
            }
            let ghost cur0 = cur@;
            cur.push(v[i]);
            i = i + 1;
            proof {
                let rest2 = split_pat(v@.skip(i as int), p@);
                assert(rest == seq![seq![v@[i - 1]] + rest2[0]] + rest2.skip(1));
                assert(rest[0] == seq![v@[i - 1]] + rest2[0]);
                assert(rest.skip(1) =~= rest2.skip(1));
                assert(cur@ + rest2[0] =~= cur0 + rest[0]);
            }
        }
    }
    proof {
        assert(v@.skip(v@.len() as int) =~= Seq::<char>::empty());
        let spe = split_pat(Seq::<char>::empty(), p@);
        assert(spe =~~= seq![Seq::<char>::empty()]);
        assert(cur@ + spe[0] =~= cur@);
    }
    let done = string_from_chars(&cur);
    frags.push(done);
    proof {
        assert(views_of(frags@) =~= views_of(frags@.drop_last()).push(frags@.last()@));
        assert(views_of(frags@) =~~= views_of(frags@.drop_last()) + seq![cur@] + Seq::<
            Seq<char>,
        >::empty());
        assert(views_of(frags@) =~~= split_pat(v@, p@));
    }
    frags
}

/// Reverses a fragment list.
pub fn reverse_strings(v: Vec<String>) -> (r: Vec<String>)
    ensures
        views_of(r@) == views_of(v@).reverse(),
{
    let mut r: Vec<String> = Vec::new();
    let mut i: usize = v.len();
    while i > 0
        invariant
            i <= v@.len(),
            r@.len() == v@.len() - i,
            forall|k: int| 0 <= k < r@.len() ==> r@[k]@ == v@[v@.len() - 1 - k]@,
        decreases i,
    {
        i = i - 1;
        let s = v[i].clone();
        r.push(s);
    }
    proof {
        assert(views_of(r@) =~= views_of(v@).reverse());
    }
    r
}

/// Joins fragments with the separator between each two.
pub fn join_strings(v: &Vec<String>, sep: &Vec<char>) -> (r: String)
    ensures
        r@ == join_with(views_of(v@), sep@),
{
    let mut r = String::new();
    if v.len() == 0 {
        return r;
    }
    let mut i: usize = 0;
    while i < v.len()
        invariant
            i <= v@.len(),
            v@.len() >= 1,
            i == 0 ==> r@ == Seq::<char>::empty(),
            i > 0 ==> r@ == join_with(views_of(v@.take(i as int)), sep@),
        decreases v@.len() - i,
    {
        let ghost r0 = r@;
        if i > 0 {
            let mut k: usize = 0;
            while k < sep.len()
                invariant
                    k <= sep@.len(),
                    r@ == r0 + sep@.take(k as int),
                decreases sep@.len() - k,
            {
                push_char(&mut r, sep[k]);
                proof {
                    assert(r0 + sep@.take(k as int).push(sep@[k as int]) =~= r0 + sep@.take(k + 1));
                    assert(sep@.take(k as int).push(sep@[k as int]) =~= sep@.take(k + 1));
                }
                k = k + 1;
            }
            proof {
                assert(sep@.take(sep@.len() as int) =~= sep@);
            }
        }
        let ghost r1 = r@;
        let mut k: usize = 0;
        let fi: &String = &v[i];
        while k < fi.as_str().unicode_len()
            invariant
                k <= fi@.len(),
                fi@ == v@[i as int]@,
                r@ == r1 + fi@.take(k as int),
            decreases fi@.len() - k,
        {
            push_char(&mut r, fi.as_str().get_char(k));
            proof {
                assert(r1 + fi@.take(k as int).push(fi@[k as int]) =~= r1 + fi@.take(k + 1));
            }
            k = k + 1;
        }
        proof {
            assert(fi@.take(fi@.len() as int) =~= fi@);
        }
        i = i + 1;
        proof {
            let vs = views_of(v@.take(i as int));
            if i == 1 {
                assert(vs =~= seq![v@[0]@]);
                assert(r@ =~= v@[0]@);
                assert(join_with(vs, sep@) == vs[0]);
            } else {
                assert(views_of(v@.take(i - 1)) =~= vs.drop_last());
                assert(vs.drop_last().push(v@[i - 1]@) =~= vs);
                lemma_join_push(vs.drop_last(), sep@, v@[i - 1]@);
                assert(r@ =~= (join_with(vs.drop_last(), sep@) + sep@) + v@[i - 1]@);
                assert(join_with(vs.drop_last(), sep@) + sep@ + v@[i - 1]@ =~= (join_with(
                    vs.drop_last(),
                    sep@,
                ) + sep@) + v@[i - 1]@);
            }
        }
    }
    proof {
        assert(views_of(v@.take(v@.len() as int)) =~= views_of(v@));
    }
    r
}

} // verus!
