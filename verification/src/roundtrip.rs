//! The re-serialization round trip: a well-formed typed command, written
//! back as one script line from its explicit fields, tokenizes and types
//! to exactly itself.

use vstd::prelude::*;

use crate::args::args_get;
use crate::args::args_insert;
use crate::args::lemma_args_no_match;
use crate::args::lemma_args_remove_absent;
use crate::command::LineV;
use crate::command::StoryError;
use crate::command::parse_line_spec;
use crate::command::type_spec;
use crate::text::is_alpha;
use crate::text::lower_seq;
use crate::tokenize::TokSt;
use crate::tokenize::tok_init;
use crate::tokenize::tok_run;
use crate::tokenize::tok_step;
use crate::tokenize::tokenize_spec;

verus! {

// ----- the serialized form -----

/// One argument, value quoted.
pub open spec fn quote_pair(p: (Seq<char>, Seq<char>)) -> Seq<char> {
    p.0 + seq!['='] + seq!['"'] + p.1 + seq!['"']
}

/// The arguments, comma-separated.
pub open spec fn ser_args(args: Seq<(Seq<char>, Seq<char>)>) -> Seq<char>
    decreases args.len(),
{
    if args.len() == 0 {
        Seq::empty()
    } else if args.len() == 1 {
        quote_pair(args[0])
    } else {
        quote_pair(args[0]) + seq![','] + ser_args(args.skip(1))
    }
}

/// One bracketed line out of its tokens.
pub open spec fn ser_triple(
    tag: Seq<char>,
    args: Seq<(Seq<char>, Seq<char>)>,
    content: Seq<char>,
) -> Seq<char> {
    if args.len() == 0 {
        seq!['['] + tag + seq![']'] + content
    } else {
        seq!['['] + tag + seq![' '] + ser_args(args) + seq![']'] + content
    }
}

/// A serialized argument name survives the scan unchanged.
pub open spec fn key_char_ok(c: char) -> bool {
    c != '"' && c != '=' && c != ',' && c != ']' && c != ' ' && c != ')'
}

pub open spec fn wf_key(k: Seq<char>) -> bool {
    forall|i: int| 0 <= i < k.len() ==> key_char_ok(k[i])
}

/// A quoted value survives the scan unchanged.
pub open spec fn wf_val(v: Seq<char>) -> bool {
    forall|i: int| 0 <= i < v.len() ==> v[i] != '"'
}

pub open spec fn wf_args(args: Seq<(Seq<char>, Seq<char>)>) -> bool {
    &&& forall|i: int| 0 <= i < args.len() ==> wf_key(#[trigger] args[i].0) && wf_val(args[i].1)
    &&& forall|i: int, j: int| 0 <= i < j < args.len() ==> args[i].0 != args[j].0
}

// ----- running the scanner over the serialized form -----

pub proof fn lemma_tok_run_app(st: TokSt, a: Seq<char>, b: Seq<char>)
    ensures
        tok_run(st, a + b) == tok_run(tok_run(st, a), b),
    decreases a.len(),
{
    if a.len() == 0 {
        assert(a + b =~= b);
    } else {
        assert((a + b)[0] == a[0]);
        assert((a + b).skip(1) =~= a.skip(1) + b);
        lemma_tok_run_app(tok_step(st, a[0]), a.skip(1), b);
    }
}

proof fn lemma_run_one(st: TokSt, c: char)
    ensures
        tok_run(st, seq![c]) == tok_step(st, c),
{
    assert(seq![c].skip(1) =~= Seq::<char>::empty());
    assert(tok_run(tok_step(st, c), Seq::<char>::empty()) == tok_step(st, c));
}

/// The argument scanner between two pairs: inside the header, past the
/// tag, at the start of a name, outside quotes, buffers empty.
pub open spec fn arg_state(st: TokSt) -> bool {
    &&& st.header
    &&& !st.in_type
    &&& st.in_name
    &&& !st.quoted
    &&& st.key_buf.len() == 0
    &&& st.val_buf.len() == 0
}

proof fn lemma_consume_key(st: TokSt, k: Seq<char>)
    requires
        st.header,
        !st.in_type,
        st.in_name,
        !st.quoted,
        wf_key(k),
    ensures
        tok_run(st, k) == (TokSt { key_buf: st.key_buf + k, ..st }),
    decreases k.len(),
{
    if k.len() == 0 {
        assert(st.key_buf + k =~= st.key_buf);
    } else {
        let st2 = tok_step(st, k[0]);
        assert(key_char_ok(k[0]));
        assert(st2 == (TokSt { key_buf: st.key_buf.push(k[0]), ..st }));
        assert(wf_key(k.skip(1)));
        lemma_consume_key(st2, k.skip(1));
        assert(st.key_buf.push(k[0]) + k.skip(1) =~= st.key_buf + k);
    }
}

proof fn lemma_consume_val(st: TokSt, v: Seq<char>)
    requires
        st.header,
        !st.in_type,
        !st.in_name,
        st.quoted,
        wf_val(v),
    ensures
        tok_run(st, v) == (TokSt { val_buf: st.val_buf + v, ..st }),
    decreases v.len(),
{
    if v.len() == 0 {
        assert(st.val_buf + v =~= st.val_buf);
    } else {
        let st2 = tok_step(st, v[0]);
        assert(st2 == (TokSt { val_buf: st.val_buf.push(v[0]), ..st }));
        assert(wf_val(v.skip(1)));
        lemma_consume_val(st2, v.skip(1));
        assert(st.val_buf.push(v[0]) + v.skip(1) =~= st.val_buf + v);
    }
}

/// One serialized pair and its terminator: the pair lands in the mapping,
/// and `]` closes the header where `,` leaves it open.
proof fn lemma_consume_pair(st: TokSt, k: Seq<char>, v: Seq<char>, term: char)
    requires
        arg_state(st),
        wf_key(k),
        wf_val(v),
        term == ',' || term == ']',
    ensures
        tok_run(st, quote_pair((k, v)).push(term)) == (TokSt {
            header: term != ']',
            args: args_insert(st.args, k, v),
            ..st
        }),
{
    let p = quote_pair((k, v));
    assert(p =~= k + (seq!['='] + (seq!['"'] + (v + seq!['"']))));
    lemma_consume_key(st, k);
    let s1 = TokSt { key_buf: st.key_buf + k, ..st };
    assert(s1.key_buf =~= k);
    lemma_run_one(s1, '=');
    let s2 = tok_step(s1, '=');
    assert(s2 == (TokSt { in_name: false, ..s1 }));
    lemma_run_one(s2, '"');
    let s3 = tok_step(s2, '"');
    assert(s3 == (TokSt { quoted: true, ..s2 }));
    lemma_consume_val(s3, v);
    let s4 = TokSt { val_buf: s3.val_buf + v, ..s3 };
    assert(s4.val_buf =~= v);
    lemma_run_one(s4, '"');
    let s5 = tok_step(s4, '"');
    assert(s5 == (TokSt { quoted: false, ..s4 }));
    lemma_run_one(s5, term);
    let s6 = tok_step(s5, term);
    assert(s6 == (TokSt {
        header: term != ']',
        args: args_insert(st.args, k, v),
        key_buf: Seq::empty(),
        val_buf: Seq::empty(),
        in_name: true,
        ..s5
    }));
    lemma_tok_run_app(st, k, seq!['='] + (seq!['"'] + (v + seq!['"'])));
    lemma_tok_run_app(s1, seq!['='], seq!['"'] + (v + seq!['"']));
    lemma_tok_run_app(s2, seq!['"'], v + seq!['"']);
    lemma_tok_run_app(s3, v, seq!['"']);
    assert(tok_run(st, p) == s5);
    assert(p.push(term) =~= p + seq![term]);
    lemma_tok_run_app(st, p, seq![term]);
    lemma_run_one(s5, term);
    assert(st.key_buf =~= Seq::<char>::empty());
    assert(st.val_buf =~= Seq::<char>::empty());
    assert(s6 == (TokSt { header: term != ']', args: args_insert(st.args, k, v), ..st }));
}

/// Inserting pairs in order, each name overwriting an earlier binding.
pub open spec fn insert_all(
    a: Seq<(Seq<char>, Seq<char>)>,
    l: Seq<(Seq<char>, Seq<char>)>,
) -> Seq<(Seq<char>, Seq<char>)>
    decreases l.len(),
{
    if l.len() == 0 {
        a
    } else {
        insert_all(args_insert(a, l[0].0, l[0].1), l.skip(1))
    }
}

/// The serialized arguments and the closing bracket: every pair lands in
/// the mapping and the header closes.
proof fn lemma_consume_args(st: TokSt, l: Seq<(Seq<char>, Seq<char>)>)
    requires
        arg_state(st),
        wf_args(l),
        l.len() >= 1,
    ensures
        tok_run(st, ser_args(l) + seq![']']) == (TokSt {
            header: false,
            args: insert_all(st.args, l),
            ..st
        }),
    decreases l.len(),
{
    if l.len() == 1 {
        assert(ser_args(l) + seq![']'] =~= quote_pair(l[0]).push(']'));
        lemma_consume_pair(st, l[0].0, l[0].1, ']');
        assert(insert_all(st.args, l) == insert_all(
            args_insert(st.args, l[0].0, l[0].1),
            l.skip(1),
        ));
        assert(l.skip(1).len() == 0);
    } else {
        assert(ser_args(l) == quote_pair(l[0]) + seq![','] + ser_args(l.skip(1)));
        assert(ser_args(l) + seq![']'] =~= quote_pair(l[0]).push(',') + (ser_args(l.skip(1))
            + seq![']']));
        lemma_consume_pair(st, l[0].0, l[0].1, ',');
        let s1 = TokSt { header: true, args: args_insert(st.args, l[0].0, l[0].1), ..st };
        assert(tok_run(st, quote_pair(l[0]).push(',')) == s1);
        assert(wf_args(l.skip(1))) by {
            assert(forall|i: int|
                0 <= i < l.skip(1).len() ==> #[trigger] l.skip(1)[i] == l[i + 1]);
        }
        lemma_consume_args(s1, l.skip(1));
        lemma_tok_run_app(st, quote_pair(l[0]).push(','), ser_args(l.skip(1)) + seq![']']);
    }
}

/// The tag letters accumulate unchanged.
proof fn lemma_consume_tag(st: TokSt, t: Seq<char>)
    requires
        st.header,
        st.in_type,
        forall|i: int| 0 <= i < t.len() ==> is_alpha(#[trigger] t[i]),
    ensures
        tok_run(st, t) == (TokSt { tag: st.tag + t, ..st }),
    decreases t.len(),
{
    if t.len() == 0 {
        assert(st.tag + t =~= st.tag);
    } else {
        let st2 = tok_step(st, t[0]);
        assert(st2 == (TokSt { tag: st.tag.push(t[0]), ..st }));
        lemma_consume_tag(st2, t.skip(1));
        assert(st.tag.push(t[0]) + t.skip(1) =~= st.tag + t);
    }
}

/// Past the header everything is trailing text.
proof fn lemma_consume_content(st: TokSt, s: Seq<char>)
    requires
        !st.header,
    ensures
        tok_run(st, s) == (TokSt { content: st.content + s, ..st }),
    decreases s.len(),
{
    if s.len() == 0 {
        assert(st.content + s =~= st.content);
    } else {
        let st2 = tok_step(st, s[0]);
        assert(st2 == (TokSt { content: st.content.push(s[0]), ..st }));
        lemma_consume_content(st2, s.skip(1));
        assert(st.content.push(s[0]) + s.skip(1) =~= st.content + s);
    }
}

/// A serialized line tokenizes back to its tokens: the lowered tag, the
/// arguments as written (names distinct), and the trailing text.
pub proof fn lemma_tokenize_ser(
    tag: Seq<char>,
    args: Seq<(Seq<char>, Seq<char>)>,
    content: Seq<char>,
)
    requires
        tag.len() >= 1,
        forall|i: int| 0 <= i < tag.len() ==> is_alpha(#[trigger] tag[i]),
        tag != "name"@,
        wf_args(args),
        args.len() == 0 ==> content.len() == 0,
    ensures
        tokenize_spec(ser_triple(tag, args, content)) == Some(
            (lower_seq(tag), insert_all(Seq::empty(), args), content),
        ),
{
    reveal_strlit("name");
    let line = ser_triple(tag, args, content);
    assert(line[0] == '[');
    assert(line.len() > 0);
    let st0 = tok_init();
    if args.len() == 0 {
        assert(line.skip(1) =~= tag + seq![']']);
        lemma_consume_tag(st0, tag);
        let s1 = TokSt { tag: tag, ..st0 };
        assert(tok_run(st0, tag) == s1) by {
            assert(st0.tag + tag =~= tag);
        }
        assert(!is_alpha(']'));
        lemma_run_one(s1, ']');
        let s2 = tok_step(s1, ']');
        assert(s2 == (TokSt { in_type: false, ..s1 }));
        lemma_tok_run_app(st0, tag, seq![']']);
        assert(tok_run(st0, line.skip(1)) == s2);
        assert(s2.args =~= insert_all(Seq::empty(), args));
        assert(s2.content =~= content);
    } else {
        assert(line.skip(1) =~= tag + (seq![' '] + ((ser_args(args) + seq![']']) + content)));
        lemma_consume_tag(st0, tag);
        let s1 = TokSt { tag: tag, ..st0 };
        assert(tok_run(st0, tag) == s1) by {
            assert(st0.tag + tag =~= tag);
        }
        assert(!is_alpha(' '));
        lemma_run_one(s1, ' ');
        let s2 = tok_step(s1, ' ');
        assert(s2 == (TokSt { in_type: false, ..s1 }));
        assert(arg_state(s2));
        lemma_consume_args(s2, args);
        let s3 = TokSt { header: false, args: insert_all(s2.args, args), ..s2 };
        assert(tok_run(s2, ser_args(args) + seq![']']) == s3);
        lemma_consume_content(s3, content);
        let s4 = TokSt { content: s3.content + content, ..s3 };
        assert(s4.content =~= content);
        lemma_tok_run_app(st0, tag, seq![' '] + ((ser_args(args) + seq![']']) + content));
        lemma_tok_run_app(s1, seq![' '], (ser_args(args) + seq![']']) + content);
        lemma_tok_run_app(s2, ser_args(args) + seq![']'], content);
        assert(tok_run(st0, line.skip(1)) == s4);
        assert(s2.args =~= Seq::<(Seq<char>, Seq<char>)>::empty());
        assert(insert_all(s2.args, args) == insert_all(Seq::empty(), args));
    }
}

// ----- the serialized command -----

pub open spec fn opt_arg(name: Seq<char>, o: Option<Seq<char>>) -> Seq<(Seq<char>, Seq<char>)> {
    match o {
        None => Seq::empty(),
        Some(v) => seq![(name, v)],
    }
}

pub open spec fn bool_lit(b: bool) -> Seq<char> {
    if b {
        "true"@
    } else {
        "false"@
    }
}

pub open spec fn keys_of(opts: Seq<(Seq<char>, Seq<char>)>) -> Seq<Seq<char>> {
    opts.map_values(|p: (Seq<char>, Seq<char>)| p.0)
}

pub open spec fn texts_of(opts: Seq<(Seq<char>, Seq<char>)>) -> Seq<Seq<char>> {
    opts.map_values(|p: (Seq<char>, Seq<char>)| p.1)
}

/// A typed command written back as one script line, every present field
/// explicit.
pub open spec fn ser_line(l: LineV) -> Seq<char> {
    match l {
        LineV::Background { image, screen_adapt, block } => ser_triple(
            "background"@,
            opt_arg("image"@, image) + opt_arg("screenadapt"@, screen_adapt) + seq![
                ("block"@, bool_lit(block)),
            ],
            Seq::empty(),
        ),
        LineV::Multiline { name, text } => ser_triple("multiline"@, seq![("name"@, name)], text),
        LineV::Line { name, text } => ser_triple("line"@, seq![("name"@, name)], text),
        LineV::Narration { text } => text,
        LineV::Sticker { text } => ser_triple("sticker"@, opt_arg("text"@, text), Seq::empty()),
        LineV::Subtitle { text } => ser_triple("subtitle"@, opt_arg("text"@, text), Seq::empty()),
        LineV::Decision { options } => ser_triple(
            "decision"@,
            seq![
                ("values"@, crate::patt::join_with(keys_of(options), seq![';'])),
                ("options"@, crate::patt::join_with(texts_of(options), seq![';'])),
            ],
            Seq::empty(),
        ),
        LineV::Predicate { references } => ser_triple(
            "predicate"@,
            if references.len() == 0 {
                Seq::empty()
            } else {
                seq![("references"@, crate::patt::join_with(references, seq![';']))]
            },
            Seq::empty(),
        ),
        LineV::Blocker { fade_time, block, full_alpha } => ser_triple(
            "blocker"@,
            opt_arg(
                "fadetime"@,
                match fade_time {
                    Some(n) => Some(crate::num::dec_of(n as int)),
                    None => None,
                },
            ) + seq![("block"@, bool_lit(block))] + (if full_alpha {
                seq![("a"@, seq!['1'])]
            } else {
                Seq::empty()
            }),
            Seq::empty(),
        ),
        LineV::Image { image } => ser_triple("image"@, opt_arg("image"@, image), Seq::empty()),
        LineV::CameraEffect { effect, zero_amount } => ser_triple(
            "cameraeffect"@,
            opt_arg("effect"@, effect) + (if zero_amount {
                Seq::empty()
            } else {
                seq![("amount"@, seq!['1'])]
            }),
            Seq::empty(),
        ),
        LineV::Other { line_type, arguments } => ser_triple(line_type, arguments, Seq::empty()),
    }
}

pub open spec fn no_semi(s: Seq<char>) -> bool {
    forall|i: int| 0 <= i < s.len() ==> s[i] != ';'
}

pub open spec fn known_tag(t: Seq<char>) -> bool {
    ||| t == "background"@
    ||| t == "multiline"@
    ||| t == "line"@
    ||| t == "narration"@
    ||| t == "sticker"@
    ||| t == "subtitle"@
    ||| t == "decision"@
    ||| t == "predicate"@
    ||| t == "blocker"@
    ||| t == "animtext"@
    ||| t == "image"@
    ||| t == "cameraeffect"@
}

pub open spec fn wf_opt_val(o: Option<Seq<char>>) -> bool {
    match o {
        None => true,
        Some(v) => wf_val(v),
    }
}

/// What well-formed means of each variant: text that survives quoting and
/// splitting, distinct decision keys, a lowered camera effect, and for the
/// unrecognized tag an alphabetic lower-case name of its own.
pub open spec fn wf_line(l: LineV) -> bool {
    match l {
        LineV::Background { image, screen_adapt, block } => wf_opt_val(image) && wf_opt_val(
            screen_adapt,
        ),
        LineV::Multiline { name, text } => wf_val(name),
        LineV::Line { name, text } => wf_val(name),
        LineV::Narration { text } => text.len() > 0 && text[0] != '[',
        LineV::Sticker { text } => wf_opt_val(text),
        LineV::Subtitle { text } => wf_opt_val(text),
        LineV::Decision { options } => {
            &&& options.len() >= 1
            &&& forall|i: int|
                0 <= i < options.len() ==> wf_val(#[trigger] options[i].0) && wf_val(options[i].1)
                    && no_semi(options[i].0) && no_semi(options[i].1)
            &&& forall|i: int, j: int| 0 <= i < j < options.len() ==> options[i].0 != options[j].0
        },
        LineV::Predicate { references } => forall|i: int|
            0 <= i < references.len() ==> wf_val(#[trigger] references[i]) && no_semi(
                references[i],
            ),
        LineV::Blocker { fade_time, block, full_alpha } => true,
        LineV::Image { image } => wf_opt_val(image),
        LineV::CameraEffect { effect, zero_amount } => match effect {
            None => true,
            Some(e) => wf_val(e) && e == lower_seq(e),
        },
        LineV::Other { line_type, arguments } => {
            &&& line_type.len() >= 1
            &&& forall|i: int| 0 <= i < line_type.len() ==> is_alpha(#[trigger] line_type[i])
            &&& line_type == lower_seq(line_type)
            &&& !known_tag(line_type)
            &&& line_type != "name"@
            &&& wf_args(arguments)
        },
    }
}

/// With distinct names, the mapping read back is the list as written.
pub proof fn lemma_insert_all_id(l: Seq<(Seq<char>, Seq<char>)>)
    requires
        wf_args(l),
    ensures
        insert_all(Seq::empty(), l) == l,
{
    lemma_insert_all_from(Seq::empty(), l);
    assert(Seq::<(Seq<char>, Seq<char>)>::empty() + l =~= l);
}

proof fn lemma_insert_all_from(a: Seq<(Seq<char>, Seq<char>)>, l: Seq<(Seq<char>, Seq<char>)>)
    requires
        forall|i: int, j: int| 0 <= i < j < l.len() ==> l[i].0 != l[j].0,
        forall|i: int, j: int|
            0 <= i < a.len() && 0 <= j < l.len() ==> #[trigger] a[i].0 != #[trigger] l[j].0,
    ensures
        insert_all(a, l) == a + l,
    decreases l.len(),
{
    if l.len() == 0 {
        assert(a + l =~= a);
    } else {
        assert(forall|i: int| 0 <= i < a.len() ==> #[trigger] a[i].0 != l[0].0);
        lemma_args_no_match(a, l[0].0);
        assert(args_insert(a, l[0].0, l[0].1) =~= a.push(l[0]));
        let a2 = a.push(l[0]);
        assert(forall|i: int, j: int|
            0 <= i < a2.len() && 0 <= j < l.skip(1).len() ==> #[trigger] a2[i].0
                != #[trigger] l.skip(1)[j].0) by {
            assert(forall|j: int| 0 <= j < l.skip(1).len() ==> #[trigger] l.skip(1)[j] == l[j + 1]);
        }
        assert(forall|i: int, j: int|
            0 <= i < j < l.skip(1).len() ==> l.skip(1)[i].0 != l.skip(1)[j].0) by {
            assert(forall|j: int| 0 <= j < l.skip(1).len() ==> #[trigger] l.skip(1)[j] == l[j + 1]);
        }
        lemma_insert_all_from(a2, l.skip(1));
        assert(a.push(l[0]) + l.skip(1) =~= a + l);
    }
}

/// A word of lower-case letters: alphabetic, fixed under lowering, and a
/// serialization-safe argument name.
proof fn lemma_lc_word(t: Seq<char>)
    requires
        forall|i: int| 0 <= i < t.len() ==> 'a' <= #[trigger] t[i] && t[i] <= 'z',
    ensures
        forall|i: int| 0 <= i < t.len() ==> is_alpha(#[trigger] t[i]),
        lower_seq(t) == t,
        wf_key(t),
        wf_val(t),
{
    assert forall|i: int| 0 <= i < t.len() implies lower_seq(t)[i] == t[i] by {
        assert('a' <= t[i] && t[i] <= 'z');
    }
    assert(lower_seq(t) =~= t);
}

proof fn lemma_rt_dialogue(name: Seq<char>, text: Seq<char>, multi: bool)
    requires
        wf_val(name),
    ensures
        !multi ==> parse_line_spec(ser_line(LineV::Line { name, text })) == Ok::<
            LineV,
            StoryError,
        >(LineV::Line { name, text }),
        multi ==> parse_line_spec(ser_line(LineV::Multiline { name, text })) == Ok::<
            LineV,
            StoryError,
        >(LineV::Multiline { name, text }),
{
    broadcast use vstd::string::group_string_axioms;

    lemma_word_facts();

    reveal_strlit("line");
    reveal_strlit("name");
    reveal_strlit("background");
    reveal_strlit("multiline");
    let tag = if multi {
        "multiline"@
    } else {
        "line"@
    };
    let args = seq![("name"@, name)];
    assert(forall|i: int| 0 <= i < tag.len() ==> 'a' <= #[trigger] tag[i] && tag[i] <= 'z');
    lemma_lc_word(tag);
    assert(forall|i: int| 0 <= i < "name"@.len() ==> 'a' <= #[trigger] "name"@[i] && "name"@[i]
        <= 'z');
    lemma_lc_word("name"@);
    assert(tag != "name"@);
    assert(wf_args(args));
    lemma_tokenize_ser(tag, args, text);
    lemma_insert_all_id(args);
    assert(tag != "background"@);
    assert(args_get(args, "name"@) == Some(name));
    if multi {
        assert(type_spec(tag, args, text) == Ok::<LineV, StoryError>(
            LineV::Multiline { name, text },
        ));
    } else {
        assert(tag != "multiline"@);
        assert(type_spec(tag, args, text) == Ok::<LineV, StoryError>(
            LineV::Line { name, text },
        ));
    }
}

// ----- helpers about joining and splitting lists -----

pub open spec fn no_char(s: Seq<char>, c: char) -> bool {
    forall|i: int| 0 <= i < s.len() ==> s[i] != c
}

proof fn lemma_split_nosep(s: Seq<char>, c: char)
    requires
        no_char(s, c),
    ensures
        crate::patt::split_pat(s, seq![c]) == seq![s],
    decreases s.len(),
{
    let p = seq![c];
    if s.len() == 0 {
        assert(s =~= Seq::<char>::empty());
        assert(crate::patt::split_pat(s, p) =~~= seq![s]);
    } else {
        assert(!crate::patt::starts_with(s, p)) by {
            assert(s.take(1)[0] == s[0]);
        }
        assert(forall|i: int| 0 <= i < s.skip(1).len() ==> s.skip(1)[i] != c) by {
            assert(forall|i: int| 0 <= i < s.skip(1).len() ==> #[trigger] s.skip(1)[i] == s[i
                + 1]);
        }
        lemma_split_nosep(s.skip(1), c);
        let r = crate::patt::split_pat(s.skip(1), p);
        assert(seq![s[0]] + r[0] =~= s);
        assert(r.skip(1) =~= Seq::<Seq<char>>::empty());
        assert(crate::patt::split_pat(s, p) =~~= seq![s]);
    }
}

proof fn lemma_split_prepend(a: Seq<char>, b: Seq<char>, c: char)
    requires
        no_char(a, c),
    ensures
        ({
            let sb = crate::patt::split_pat(b, seq![c]);
            crate::patt::split_pat(a + b, seq![c]) == seq![a + sb[0]] + sb.skip(1)
        }),
    decreases a.len(),
{
    let p = seq![c];
    let sb = crate::patt::split_pat(b, p);
    crate::patt::lemma_split_pat_len(b, p);
    if a.len() == 0 {
        assert(a + b =~= b);
        assert(a + sb[0] =~= sb[0]);
        assert(seq![a + sb[0]] + sb.skip(1) =~~= sb);
    } else {
        assert(!crate::patt::starts_with(a + b, p)) by {
            assert((a + b).take(1)[0] == (a + b)[0]);
            assert((a + b)[0] == a[0]);
        }
        assert((a + b).skip(1) =~= a.skip(1) + b);
        assert(forall|i: int| 0 <= i < a.skip(1).len() ==> a.skip(1)[i] != c) by {
            assert(forall|i: int| 0 <= i < a.skip(1).len() ==> #[trigger] a.skip(1)[i] == a[i
                + 1]);
        }
        lemma_split_prepend(a.skip(1), b, c);
        let r = crate::patt::split_pat(a.skip(1) + b, p);
        assert(r == seq![a.skip(1) + sb[0]] + sb.skip(1));
        assert((a + b)[0] == a[0]);
        assert(r[0] == a.skip(1) + sb[0]);
        assert(seq![a[0]] + (a.skip(1) + sb[0]) =~= a + sb[0]);
        assert(r.skip(1) =~= sb.skip(1));
        assert(crate::patt::split_pat(a + b, p) =~~= seq![a + sb[0]] + sb.skip(1));
    }
}

/// Splitting undoes joining when no fragment holds the separator.
proof fn lemma_split_join(fr: Seq<Seq<char>>, c: char)
    requires
        fr.len() >= 1,
        forall|i: int| 0 <= i < fr.len() ==> no_char(#[trigger] fr[i], c),
    ensures
        crate::patt::split_pat(crate::patt::join_with(fr, seq![c]), seq![c]) == fr,
    decreases fr.len(),
{
    let p = seq![c];
    if fr.len() == 1 {
        assert(crate::patt::join_with(fr, p) == fr[0]);
        lemma_split_nosep(fr[0], c);
        assert(seq![fr[0]] =~~= fr);
    } else {
        let rest = fr.skip(1);
        let jr = crate::patt::join_with(rest, p);
        assert(crate::patt::join_with(fr, p) == fr[0] + p + jr);
        let tailseq = p + jr;
        assert(fr[0] + p + jr =~= fr[0] + tailseq);
        lemma_split_prepend(fr[0], tailseq, c);
        assert(crate::patt::starts_with(tailseq, p)) by {
            assert(tailseq.take(1) =~= p);
        }
        assert(tailseq.skip(1) =~= jr);
        assert(forall|i: int| 0 <= i < rest.len() ==> no_char(#[trigger] rest[i], c)) by {
            assert(forall|i: int| 0 <= i < rest.len() ==> #[trigger] rest[i] == fr[i + 1]);
        }
        lemma_split_join(rest, c);
        let st = crate::patt::split_pat(tailseq, p);
        assert(st == seq![Seq::<char>::empty()] + rest);
        assert(st[0] =~= Seq::<char>::empty());
        assert(fr[0] + st[0] =~= fr[0]);
        assert(st.skip(1) =~= rest);
        assert(crate::patt::split_pat(fr[0] + tailseq, p) == seq![fr[0] + st[0]] + st.skip(1));
        assert(seq![fr[0] + st[0]] + st.skip(1) =~~= fr);
    }
}

/// Joining keeps a character out when the fragments and the separator
/// leave it out.
proof fn lemma_join_no_bad(fr: Seq<Seq<char>>, c: char, bad: char)
    requires
        bad != c,
        forall|i: int| 0 <= i < fr.len() ==> no_char(#[trigger] fr[i], bad),
    ensures
        no_char(crate::patt::join_with(fr, seq![c]), bad),
    decreases fr.len(),
{
    let p = seq![c];
    if fr.len() == 0 {
    } else if fr.len() == 1 {
        assert(crate::patt::join_with(fr, p) == fr[0]);
    } else {
        let rest = fr.skip(1);
        assert(forall|i: int| 0 <= i < rest.len() ==> no_char(#[trigger] rest[i], bad)) by {
            assert(forall|i: int| 0 <= i < rest.len() ==> #[trigger] rest[i] == fr[i + 1]);
        }
        lemma_join_no_bad(rest, c, bad);
        let jr = crate::patt::join_with(rest, p);
        let w = fr[0] + p + jr;
        assert forall|k: int| 0 <= k < w.len() implies w[k] != bad by {
            if k < fr[0].len() {
                assert(w[k] == fr[0][k]);
            } else if k < fr[0].len() + 1 {
                assert(w[k] == c);
            } else {
                assert(w[k] == jr[k - fr[0].len() - 1]);
            }
        }
    }
}

/// Pairing the written key and text lists back up gives the options as
/// stored, names being distinct.
proof fn lemma_zip_id(opts: Seq<(Seq<char>, Seq<char>)>)
    requires
        forall|i: int, j: int| 0 <= i < j < opts.len() ==> opts[i].0 != opts[j].0,
    ensures
        crate::command::zip_options(keys_of(opts), texts_of(opts)) == opts,
    decreases opts.len(),
{
    let ks = keys_of(opts);
    let ts = texts_of(opts);
    if opts.len() == 0 {
        assert(ks.len() == 0);
        assert(crate::command::zip_options(ks, ts) =~= opts);
    } else {
        let pre = opts.drop_last();
        assert(forall|i: int, j: int| 0 <= i < j < pre.len() ==> pre[i].0 != pre[j].0) by {
            assert(forall|i: int| 0 <= i < pre.len() ==> #[trigger] pre[i] == opts[i]);
        }
        lemma_zip_id(pre);
        assert(ks.drop_last() =~= keys_of(pre));
        assert(ts.drop_last() =~= texts_of(pre));
        assert(ks.last() == opts.last().0);
        assert(ts.last() == opts.last().1);
        assert(forall|i: int| 0 <= i < pre.len() ==> #[trigger] pre[i].0 != opts.last().0) by {
            assert(forall|i: int| 0 <= i < pre.len() ==> #[trigger] pre[i] == opts[i]);
        }
        lemma_args_no_match(pre, opts.last().0);
        lemma_args_remove_absent(pre, opts.last().0);
        assert(args_insert(pre, opts.last().0, opts.last().1) =~= opts);
        assert(crate::command::zip_options(ks, ts) == args_insert(
            crate::command::zip_options(ks.drop_last(), ts.drop_last()),
            ks.last(),
            ts.last(),
        ));
    }
}

/// The numeral one: full opacity, and not zero.
proof fn lemma_one_lit()
    ensures
        crate::num::denotes_one(seq!['1']),
        !crate::num::denotes_zero_or_invalid(seq!['1']),
        wf_val(seq!['1']),
        no_char(seq!['1'], ';'),
{
    let s = seq!['1'];
    assert(crate::num::strip_sign(s) == s);
    crate::num::lemma_find_char_none(s, '.');
    assert(crate::num::all_digits(s));
    assert(s.drop_last() =~= Seq::<char>::empty());
    assert(crate::num::digits_val(Seq::<char>::empty()) == 0);
    assert(crate::num::digits_val(s) == 1);
}

proof fn lemma_rt_background(image: Option<Seq<char>>, screen_adapt: Option<Seq<char>>, block: bool)
    requires
        wf_opt_val(image),
        wf_opt_val(screen_adapt),
    ensures
        parse_line_spec(ser_line(LineV::Background { image, screen_adapt, block })) == Ok::<
            LineV,
            StoryError,
        >(LineV::Background { image, screen_adapt, block }),
{
    broadcast use vstd::string::group_string_axioms;

    lemma_word_facts();

    reveal_strlit("background");
    reveal_strlit("name");
    reveal_strlit("image");
    reveal_strlit("screenadapt");
    reveal_strlit("block");
    reveal_strlit("true");
    reveal_strlit("false");
    let tag = "background"@;
    assert(forall|i: int| 0 <= i < tag.len() ==> 'a' <= #[trigger] tag[i] && tag[i] <= 'z');
    lemma_lc_word(tag);
    assert(forall|i: int| 0 <= i < "image"@.len() ==> 'a' <= #[trigger] "image"@[i] && "image"@[i]
        <= 'z');
    lemma_lc_word("image"@);
    assert(forall|i: int|
        0 <= i < "screenadapt"@.len() ==> 'a' <= #[trigger] "screenadapt"@[i]
            && "screenadapt"@[i] <= 'z');
    lemma_lc_word("screenadapt"@);
    assert(forall|i: int| 0 <= i < "block"@.len() ==> 'a' <= #[trigger] "block"@[i] && "block"@[i]
        <= 'z');
    lemma_lc_word("block"@);
    assert(forall|i: int| 0 <= i < "true"@.len() ==> 'a' <= #[trigger] "true"@[i] && "true"@[i]
        <= 'z');
    lemma_lc_word("true"@);
    assert(forall|i: int| 0 <= i < "false"@.len() ==> 'a' <= #[trigger] "false"@[i] && "false"@[i]
        <= 'z');
    lemma_lc_word("false"@);
    let bp = ("block"@, bool_lit(block));
    let args = opt_arg("image"@, image) + opt_arg("screenadapt"@, screen_adapt) + seq![bp];
    assert(wf_val(bool_lit(block)));
    match (image, screen_adapt) {
        (None, None) => {
            assert(args =~= seq![bp]);
            assert(args.skip(1) =~= Seq::<(Seq<char>, Seq<char>)>::empty());
            assert(wf_args(args));
            assert(args_get(args.skip(1), "image"@) is None);
            assert(args_get(args, "image"@) is None);
            assert(args_get(args.skip(1), "screenadapt"@) is None);
            assert(args_get(args, "screenadapt"@) is None);
            assert(args_get(args, "block"@) == Some(bool_lit(block)));
        },
        (Some(iv), None) => {
            assert(args =~= seq![("image"@, iv), bp]);
            assert(args.skip(1) =~= seq![bp]);
            assert(args.skip(1).skip(1) =~= Seq::<(Seq<char>, Seq<char>)>::empty());
            assert(wf_args(args));
            assert(args_get(args, "image"@) == Some(iv));
            assert(args_get(args.skip(1).skip(1), "screenadapt"@) is None);
            assert(args_get(args.skip(1), "screenadapt"@) is None);
            assert(args_get(args, "screenadapt"@) is None);
            assert(args_get(args.skip(1), "block"@) == Some(bool_lit(block)));
            assert(args_get(args, "block"@) == Some(bool_lit(block)));
        },
        (None, Some(sv)) => {
            assert(args =~= seq![("screenadapt"@, sv), bp]);
            assert(args.skip(1) =~= seq![bp]);
            assert(args.skip(1).skip(1) =~= Seq::<(Seq<char>, Seq<char>)>::empty());
            assert(wf_args(args));
            assert(args_get(args.skip(1).skip(1), "image"@) is None);
            assert(args_get(args.skip(1), "image"@) is None);
            assert(args_get(args, "image"@) is None);
            assert(args_get(args, "screenadapt"@) == Some(sv));
            assert(args_get(args.skip(1), "block"@) == Some(bool_lit(block)));
            assert(args_get(args, "block"@) == Some(bool_lit(block)));
        },
        (Some(iv), Some(sv)) => {
            assert(args =~= seq![("image"@, iv), ("screenadapt"@, sv), bp]);
            assert(args.skip(1) =~= seq![("screenadapt"@, sv), bp]);
            assert(args.skip(1).skip(1) =~= seq![bp]);
            assert(wf_args(args));
            assert(args_get(args, "image"@) == Some(iv));
            assert(args_get(args.skip(1), "screenadapt"@) == Some(sv));
            assert(args_get(args, "screenadapt"@) == Some(sv));
            assert(args_get(args.skip(1).skip(1), "block"@) == Some(bool_lit(block)));
            assert(args_get(args.skip(1), "block"@) == Some(bool_lit(block)));
            assert(args_get(args, "block"@) == Some(bool_lit(block)));
        },
    }
    lemma_tokenize_ser(tag, args, Seq::empty());
    lemma_insert_all_id(args);
    assert(args_get(args, "image"@) == image);
    assert(args_get(args, "screenadapt"@) == screen_adapt);
    assert(args_get(args, "block"@) == Some(bool_lit(block)));
    if !block {
        assert("false"@ != "true"@);
    }
    assert(crate::command::parse_bool_field(Some(bool_lit(block))) == Some(block));
    assert(type_spec(tag, args, Seq::empty()) == Ok::<LineV, StoryError>(
        LineV::Background { image, screen_adapt, block },
    ));
}

proof fn lemma_rt_narration(text: Seq<char>)
    requires
        text.len() > 0,
        text[0] != '[',
    ensures
        parse_line_spec(text) == Ok::<LineV, StoryError>(LineV::Narration { text }),
{
    broadcast use vstd::string::group_string_axioms;

    lemma_word_facts();

    reveal_strlit("narration");
    reveal_strlit("background");
    reveal_strlit("multiline");
    reveal_strlit("line");
    assert(tokenize_spec(text) == Some(("narration"@, Seq::<(Seq<char>, Seq<char>)>::empty(), text)));
    assert("narration"@ != "background"@);
    assert("narration"@ != "multiline"@);
    assert("narration"@ != "line"@);
    assert(type_spec("narration"@, Seq::empty(), text) == Ok::<LineV, StoryError>(
        LineV::Narration { text },
    ));
}

proof fn lemma_rt_texty(text: Option<Seq<char>>, subtitle: bool)
    requires
        wf_opt_val(text),
    ensures
        !subtitle ==> parse_line_spec(ser_line(LineV::Sticker { text })) == Ok::<
            LineV,
            StoryError,
        >(LineV::Sticker { text }),
        subtitle ==> parse_line_spec(ser_line(LineV::Subtitle { text })) == Ok::<
            LineV,
            StoryError,
        >(LineV::Subtitle { text }),
{
    broadcast use vstd::string::group_string_axioms;

    lemma_word_facts();

    reveal_strlit("sticker");
    reveal_strlit("subtitle");
    reveal_strlit("background");
    reveal_strlit("multiline");
    reveal_strlit("line");
    reveal_strlit("narration");
    reveal_strlit("name");
    reveal_strlit("text");
    let tag = if subtitle {
        "subtitle"@
    } else {
        "sticker"@
    };
    assert(forall|i: int| 0 <= i < tag.len() ==> 'a' <= #[trigger] tag[i] && tag[i] <= 'z');
    lemma_lc_word(tag);
    assert(forall|i: int| 0 <= i < "text"@.len() ==> 'a' <= #[trigger] "text"@[i] && "text"@[i]
        <= 'z');
    lemma_lc_word("text"@);
    let args = opt_arg("text"@, text);
    match text {
        None => {
            assert(args =~= Seq::<(Seq<char>, Seq<char>)>::empty());
        },
        Some(tv) => {
            assert(args =~= seq![("text"@, tv)]);
        },
    }
    assert(wf_args(args));
    assert(tag != "name"@);
    lemma_tokenize_ser(tag, args, Seq::empty());
    lemma_insert_all_id(args);
    assert(args_get(args, "text"@) == text);
    if subtitle {
        assert(type_spec(tag, args, Seq::empty()) == Ok::<LineV, StoryError>(
            LineV::Subtitle { text },
        ));
    } else {
        assert(type_spec(tag, args, Seq::empty()) == Ok::<LineV, StoryError>(
            LineV::Sticker { text },
        ));
    }
}

proof fn lemma_rt_decision(options: Seq<(Seq<char>, Seq<char>)>)
    requires
        options.len() >= 1,
        forall|i: int|
            0 <= i < options.len() ==> wf_val(#[trigger] options[i].0) && wf_val(options[i].1)
                && no_semi(options[i].0) && no_semi(options[i].1),
        forall|i: int, j: int| 0 <= i < j < options.len() ==> options[i].0 != options[j].0,
    ensures
        parse_line_spec(ser_line(LineV::Decision { options })) == Ok::<LineV, StoryError>(
            LineV::Decision { options },
        ),
{
    broadcast use vstd::string::group_string_axioms;

    lemma_word_facts();

    reveal_strlit("decision");
    reveal_strlit("background");
    reveal_strlit("multiline");
    reveal_strlit("line");
    reveal_strlit("narration");
    reveal_strlit("sticker");
    reveal_strlit("subtitle");
    reveal_strlit("name");
    reveal_strlit("values");
    reveal_strlit("options");
    let tag = "decision"@;
    assert(forall|i: int| 0 <= i < tag.len() ==> 'a' <= #[trigger] tag[i] && tag[i] <= 'z');
    lemma_lc_word(tag);
    assert(forall|i: int| 0 <= i < "values"@.len() ==> 'a' <= #[trigger] "values"@[i]
        && "values"@[i] <= 'z');
    lemma_lc_word("values"@);
    assert(forall|i: int| 0 <= i < "options"@.len() ==> 'a' <= #[trigger] "options"@[i]
        && "options"@[i] <= 'z');
    lemma_lc_word("options"@);
    let ks = keys_of(options);
    let ts = texts_of(options);
    let vs = crate::patt::join_with(ks, seq![';']);
    let os = crate::patt::join_with(ts, seq![';']);
    assert(forall|i: int| 0 <= i < ks.len() ==> no_char(#[trigger] ks[i], ';') && no_char(
        ks[i],
        '"',
    ));
    assert(forall|i: int| 0 <= i < ts.len() ==> no_char(#[trigger] ts[i], ';') && no_char(
        ts[i],
        '"',
    ));
    lemma_join_no_bad(ks, ';', '"');
    lemma_join_no_bad(ts, ';', '"');
    assert(wf_val(vs));
    assert(wf_val(os));
    let args = seq![("values"@, vs), ("options"@, os)];
    assert(args.skip(1) =~= seq![("options"@, os)]);
    assert(wf_args(args));
    lemma_tokenize_ser(tag, args, Seq::empty());
    lemma_insert_all_id(args);
    assert(args_get(args, "values"@) == Some(vs));
    assert(args_get(args.skip(1), "options"@) == Some(os));
    assert(args_get(args, "options"@) == Some(os));
    lemma_split_join(ks, ';');
    lemma_split_join(ts, ';');
    assert(crate::command::split_semi(vs) == ks);
    assert(crate::command::split_semi(os) == ts);
    assert(ks.len() == ts.len());
    lemma_zip_id(options);
    assert(type_spec(tag, args, Seq::empty()) == Ok::<LineV, StoryError>(
        LineV::Decision { options },
    ));
}

proof fn lemma_rt_predicate(references: Seq<Seq<char>>)
    requires
        forall|i: int|
            0 <= i < references.len() ==> wf_val(#[trigger] references[i]) && no_semi(
                references[i],
            ),
    ensures
        parse_line_spec(ser_line(LineV::Predicate { references })) == Ok::<LineV, StoryError>(
            LineV::Predicate { references },
        ),
{
    broadcast use vstd::string::group_string_axioms;

    lemma_word_facts();

    reveal_strlit("predicate");
    reveal_strlit("background");
    reveal_strlit("multiline");
    reveal_strlit("line");
    reveal_strlit("narration");
    reveal_strlit("sticker");
    reveal_strlit("subtitle");
    reveal_strlit("decision");
    reveal_strlit("name");
    reveal_strlit("references");
    let tag = "predicate"@;
    assert(forall|i: int| 0 <= i < tag.len() ==> 'a' <= #[trigger] tag[i] && tag[i] <= 'z');
    lemma_lc_word(tag);
    assert(forall|i: int|
        0 <= i < "references"@.len() ==> 'a' <= #[trigger] "references"@[i] && "references"@[i]
            <= 'z');
    lemma_lc_word("references"@);
    if references.len() == 0 {
        let args = Seq::<(Seq<char>, Seq<char>)>::empty();
        assert(wf_args(args));
        lemma_tokenize_ser(tag, args, Seq::empty());
        lemma_insert_all_id(args);
        assert(args_get(args, "references"@) is None);
        assert(references =~= Seq::<Seq<char>>::empty());
        assert(type_spec(tag, args, Seq::empty()) == Ok::<LineV, StoryError>(
            LineV::Predicate { references },
        ));
    } else {
        assert(forall|i: int| 0 <= i < references.len() ==> no_char(#[trigger] references[i], '"'));
        lemma_join_no_bad(references, ';', '"');
        let rv = crate::patt::join_with(references, seq![';']);
        let args = seq![("references"@, rv)];
        assert(wf_args(args));
        lemma_tokenize_ser(tag, args, Seq::empty());
        lemma_insert_all_id(args);
        assert(args_get(args, "references"@) == Some(rv));
        lemma_split_join(references, ';');
        assert(type_spec(tag, args, Seq::empty()) == Ok::<LineV, StoryError>(
            LineV::Predicate { references },
        ));
    }
}

proof fn lemma_rt_blocker(fade_time: Option<u32>, block: bool, full_alpha: bool)
    ensures
        parse_line_spec(ser_line(LineV::Blocker { fade_time, block, full_alpha })) == Ok::<
            LineV,
            StoryError,
        >(LineV::Blocker { fade_time, block, full_alpha }),
{
    broadcast use vstd::string::group_string_axioms;

    lemma_word_facts();

    reveal_strlit("blocker");
    reveal_strlit("background");
    reveal_strlit("multiline");
    reveal_strlit("line");
    reveal_strlit("narration");
    reveal_strlit("sticker");
    reveal_strlit("subtitle");
    reveal_strlit("decision");
    reveal_strlit("predicate");
    reveal_strlit("name");
    reveal_strlit("fadetime");
    reveal_strlit("block");
    reveal_strlit("a");
    reveal_strlit("true");
    reveal_strlit("false");
    let tag = "blocker"@;
    assert(forall|i: int| 0 <= i < tag.len() ==> 'a' <= #[trigger] tag[i] && tag[i] <= 'z');
    lemma_lc_word(tag);
    assert(forall|i: int|
        0 <= i < "fadetime"@.len() ==> 'a' <= #[trigger] "fadetime"@[i] && "fadetime"@[i] <= 'z');
    lemma_lc_word("fadetime"@);
    assert(forall|i: int| 0 <= i < "block"@.len() ==> 'a' <= #[trigger] "block"@[i] && "block"@[i]
        <= 'z');
    lemma_lc_word("block"@);
    assert(forall|i: int| 0 <= i < "a"@.len() ==> 'a' <= #[trigger] "a"@[i] && "a"@[i] <= 'z');
    lemma_lc_word("a"@);
    assert(forall|i: int| 0 <= i < "true"@.len() ==> 'a' <= #[trigger] "true"@[i] && "true"@[i]
        <= 'z');
    lemma_lc_word("true"@);
    assert(forall|i: int| 0 <= i < "false"@.len() ==> 'a' <= #[trigger] "false"@[i] && "false"@[i]
        <= 'z');
    lemma_lc_word("false"@);
    lemma_one_lit();
    let bp = ("block"@, bool_lit(block));
    let ft = match fade_time {
        Some(n) => Some(crate::num::dec_of(n as int)),
        None => None::<Seq<char>>,
    };
    let ap: Seq<(Seq<char>, Seq<char>)> = if full_alpha {
        seq![("a"@, seq!['1'])]
    } else {
        Seq::empty()
    };
    let args = opt_arg("fadetime"@, ft) + seq![bp] + ap;
    assert(wf_val(bool_lit(block)));
    if fade_time is Some {
        let n = fade_time->0;
        crate::num::lemma_dec_of_digits(n as int);
        assert(wf_val(crate::num::dec_of(n as int))) by {
            assert(forall|i: int|
                0 <= i < crate::num::dec_of(n as int).len() ==> crate::num::is_digit(
                    #[trigger] crate::num::dec_of(n as int)[i],
                ));
        }
        crate::num::lemma_parse_dec(n);
    }
    let one = seq!['1'];
    match (ft, full_alpha) {
        (None, false) => {
            assert(args =~= seq![bp]);
            assert(args.skip(1) =~= Seq::<(Seq<char>, Seq<char>)>::empty());
            assert(wf_args(args));
            assert(args_get(args.skip(1), "fadetime"@) is None);
            assert(args_get(args, "fadetime"@) is None);
            assert(args_get(args, "block"@) == Some(bool_lit(block)));
            assert(args_get(args.skip(1), "a"@) is None);
            assert(args_get(args, "a"@) is None);
        },
        (None, true) => {
            assert(args =~= seq![bp, ("a"@, one)]);
            assert(args.skip(1) =~= seq![("a"@, one)]);
            assert(args.skip(1).skip(1) =~= Seq::<(Seq<char>, Seq<char>)>::empty());
            assert(wf_args(args));
            assert(args_get(args.skip(1).skip(1), "fadetime"@) is None);
            assert(args_get(args.skip(1), "fadetime"@) is None);
            assert(args_get(args, "fadetime"@) is None);
            assert(args_get(args, "block"@) == Some(bool_lit(block)));
            assert(args_get(args.skip(1), "a"@) == Some(one));
            assert(args_get(args, "a"@) == Some(one));
        },
        (Some(fv), false) => {
            assert(args =~= seq![("fadetime"@, fv), bp]);
            assert(args.skip(1) =~= seq![bp]);
            assert(args.skip(1).skip(1) =~= Seq::<(Seq<char>, Seq<char>)>::empty());
            assert(wf_args(args));
            assert(args_get(args, "fadetime"@) == Some(fv));
            assert(args_get(args.skip(1), "block"@) == Some(bool_lit(block)));
            assert(args_get(args, "block"@) == Some(bool_lit(block)));
            assert(args_get(args.skip(1).skip(1), "a"@) is None);
            assert(args_get(args.skip(1), "a"@) is None);
            assert(args_get(args, "a"@) is None);
        },
        (Some(fv), true) => {
            assert(args =~= seq![("fadetime"@, fv), bp, ("a"@, one)]);
            assert(args.skip(1) =~= seq![bp, ("a"@, one)]);
            assert(args.skip(1).skip(1) =~= seq![("a"@, one)]);
            assert(wf_args(args));
            assert(args_get(args, "fadetime"@) == Some(fv));
            assert(args_get(args.skip(1), "block"@) == Some(bool_lit(block)));
            assert(args_get(args, "block"@) == Some(bool_lit(block)));
            assert(args_get(args.skip(1).skip(1), "a"@) == Some(one));
            assert(args_get(args.skip(1), "a"@) == Some(one));
            assert(args_get(args, "a"@) == Some(one));
        },
    }
    lemma_tokenize_ser(tag, args, Seq::empty());
    lemma_insert_all_id(args);
    assert(args_get(args, "fadetime"@) == ft);
    assert(args_get(args, "block"@) == Some(bool_lit(block)));
    if full_alpha {
        assert(args_get(args, "a"@) == Some(seq!['1']));
    } else {
        assert(args_get(args, "a"@) is None);
    }
    if !block {
        assert("false"@ != "true"@);
    }
    assert(crate::command::parse_bool_field(Some(bool_lit(block))) == Some(block));
    assert(type_spec(tag, args, Seq::empty()) == Ok::<LineV, StoryError>(
        LineV::Blocker { fade_time, block, full_alpha },
    ));
}

proof fn lemma_rt_image(image: Option<Seq<char>>)
    requires
        wf_opt_val(image),
    ensures
        parse_line_spec(ser_line(LineV::Image { image })) == Ok::<LineV, StoryError>(
            LineV::Image { image },
        ),
{
    broadcast use vstd::string::group_string_axioms;

    lemma_word_facts();

    reveal_strlit("image");
    reveal_strlit("background");
    reveal_strlit("multiline");
    reveal_strlit("line");
    reveal_strlit("narration");
    reveal_strlit("sticker");
    reveal_strlit("subtitle");
    reveal_strlit("decision");
    reveal_strlit("predicate");
    reveal_strlit("blocker");
    reveal_strlit("animtext");
    reveal_strlit("name");
    let tag = "image"@;
    assert(forall|i: int| 0 <= i < tag.len() ==> 'a' <= #[trigger] tag[i] && tag[i] <= 'z');
    lemma_lc_word(tag);
    let args = opt_arg("image"@, image);
    match image {
        None => {
            assert(args =~= Seq::<(Seq<char>, Seq<char>)>::empty());
        },
        Some(iv) => {
            assert(args =~= seq![("image"@, iv)]);
        },
    }
    assert(wf_args(args));
    lemma_tokenize_ser(tag, args, Seq::empty());
    lemma_insert_all_id(args);
    assert(args_get(args, "image"@) == image);
    assert(type_spec(tag, args, Seq::empty()) == Ok::<LineV, StoryError>(LineV::Image { image }));
}

proof fn lemma_rt_camera(effect: Option<Seq<char>>, zero_amount: bool)
    requires
        match effect {
            None => true,
            Some(e) => wf_val(e) && e == lower_seq(e),
        },
    ensures
        parse_line_spec(ser_line(LineV::CameraEffect { effect, zero_amount })) == Ok::<
            LineV,
            StoryError,
        >(LineV::CameraEffect { effect, zero_amount }),
{
    broadcast use vstd::string::group_string_axioms;

    lemma_word_facts();

    reveal_strlit("cameraeffect");
    reveal_strlit("background");
    reveal_strlit("multiline");
    reveal_strlit("line");
    reveal_strlit("narration");
    reveal_strlit("sticker");
    reveal_strlit("subtitle");
    reveal_strlit("decision");
    reveal_strlit("predicate");
    reveal_strlit("blocker");
    reveal_strlit("animtext");
    reveal_strlit("image");
    reveal_strlit("name");
    reveal_strlit("effect");
    reveal_strlit("amount");
    let tag = "cameraeffect"@;
    assert(forall|i: int| 0 <= i < tag.len() ==> 'a' <= #[trigger] tag[i] && tag[i] <= 'z');
    lemma_lc_word(tag);
    assert(forall|i: int| 0 <= i < "effect"@.len() ==> 'a' <= #[trigger] "effect"@[i]
        && "effect"@[i] <= 'z');
    lemma_lc_word("effect"@);
    assert(forall|i: int| 0 <= i < "amount"@.len() ==> 'a' <= #[trigger] "amount"@[i]
        && "amount"@[i] <= 'z');
    lemma_lc_word("amount"@);
    lemma_one_lit();
    let ap: Seq<(Seq<char>, Seq<char>)> = if zero_amount {
        Seq::empty()
    } else {
        seq![("amount"@, seq!['1'])]
    };
    let args = opt_arg("effect"@, effect) + ap;
    let one = seq!['1'];
    match (effect, zero_amount) {
        (None, true) => {
            assert(args =~= Seq::<(Seq<char>, Seq<char>)>::empty());
            assert(wf_args(args));
            assert(args_get(args, "effect"@) is None);
            assert(args_get(args, "amount"@) is None);
        },
        (None, false) => {
            assert(args =~= seq![("amount"@, one)]);
            assert(args.skip(1) =~= Seq::<(Seq<char>, Seq<char>)>::empty());
            assert(wf_args(args));
            assert(args_get(args.skip(1), "effect"@) is None);
            assert(args_get(args, "effect"@) is None);
            assert(args_get(args, "amount"@) == Some(one));
        },
        (Some(ev), true) => {
            assert(args =~= seq![("effect"@, ev)]);
            assert(args.skip(1) =~= Seq::<(Seq<char>, Seq<char>)>::empty());
            assert(wf_args(args));
            assert(args_get(args, "effect"@) == Some(ev));
            assert(args_get(args.skip(1), "amount"@) is None);
            assert(args_get(args, "amount"@) is None);
        },
        (Some(ev), false) => {
            assert(args =~= seq![("effect"@, ev), ("amount"@, one)]);
            assert(args.skip(1) =~= seq![("amount"@, one)]);
            assert(wf_args(args));
            assert(args_get(args, "effect"@) == Some(ev));
            assert(args_get(args.skip(1), "amount"@) == Some(one));
            assert(args_get(args, "amount"@) == Some(one));
        },
    }
    lemma_tokenize_ser(tag, args, Seq::empty());
    lemma_insert_all_id(args);
    assert(args_get(args, "effect"@) == effect);
    if zero_amount {
        assert(args_get(args, "amount"@) is None);
    } else {
        assert(args_get(args, "amount"@) == Some(seq!['1']));
    }
    assert(type_spec(tag, args, Seq::empty()) == Ok::<LineV, StoryError>(
        LineV::CameraEffect { effect, zero_amount },
    ));
}

proof fn lemma_rt_other(line_type: Seq<char>, arguments: Seq<(Seq<char>, Seq<char>)>)
    requires
        line_type.len() >= 1,
        forall|i: int| 0 <= i < line_type.len() ==> is_alpha(#[trigger] line_type[i]),
        line_type == lower_seq(line_type),
        !known_tag(line_type),
        line_type != "name"@,
        wf_args(arguments),
    ensures
        parse_line_spec(ser_line(LineV::Other { line_type, arguments })) == Ok::<
            LineV,
            StoryError,
        >(LineV::Other { line_type, arguments }),
{
    broadcast use vstd::string::group_string_axioms;

    lemma_tokenize_ser(line_type, arguments, Seq::empty());
    lemma_insert_all_id(arguments);
    assert(type_spec(line_type, arguments, Seq::empty()) == Ok::<LineV, StoryError>(
        LineV::Other { line_type, arguments },
    ));
}

/// Tokenizing then typing is the identity on the re-serialization of a
/// well-formed command's explicit fields.
pub proof fn lemma_round_trip(l: LineV)
    requires
        wf_line(l),
    ensures
        parse_line_spec(ser_line(l)) == Ok::<LineV, StoryError>(l),
{
    match l {
        LineV::Background { image, screen_adapt, block } => {
            lemma_rt_background(image, screen_adapt, block);
        },
        LineV::Multiline { name, text } => {
            lemma_rt_dialogue(name, text, true);
        },
        LineV::Line { name, text } => {
            lemma_rt_dialogue(name, text, false);
        },
        LineV::Narration { text } => {
            lemma_rt_narration(text);
        },
        LineV::Sticker { text } => {
            lemma_rt_texty(text, false);
        },
        LineV::Subtitle { text } => {
            lemma_rt_texty(text, true);
        },
        LineV::Decision { options } => {
            lemma_rt_decision(options);
        },
        LineV::Predicate { references } => {
            lemma_rt_predicate(references);
        },
        LineV::Blocker { fade_time, block, full_alpha } => {
            lemma_rt_blocker(fade_time, block, full_alpha);
        },
        LineV::Image { image } => {
            lemma_rt_image(image);
        },
        LineV::CameraEffect { effect, zero_amount } => {
            lemma_rt_camera(effect, zero_amount);
        },
        LineV::Other { line_type, arguments } => {
            lemma_rt_other(line_type, arguments);
        },
    }
}



/// The lengths and leading letters of the words of the grammar, so that
/// two distinct words are never confused.
proof fn lemma_word_facts()
    ensures
        "background"@.len() == 10,
        "multiline"@.len() == 9,
        "line"@.len() == 4,
        "narration"@.len() == 9,
        "sticker"@.len() == 7,
        "subtitle"@.len() == 8,
        "decision"@.len() == 8,
        "predicate"@.len() == 9,
        "blocker"@.len() == 7,
        "animtext"@.len() == 8,
        "image"@.len() == 5,
        "cameraeffect"@.len() == 12,
        "name"@.len() == 4,
        "screenadapt"@.len() == 11,
        "block"@.len() == 5,
        "text"@.len() == 4,
        "values"@.len() == 6,
        "options"@.len() == 7,
        "references"@.len() == 10,
        "fadetime"@.len() == 8,
        "a"@.len() == 1,
        "effect"@.len() == 6,
        "amount"@.len() == 6,
        "true"@.len() == 4,
        "false"@.len() == 5,
        "multiline"@[0] == 'm',
        "narration"@[0] == 'n',
        "predicate"@[0] == 'p',
        "subtitle"@[0] == 's',
        "decision"@[0] == 'd',
        "animtext"@[0] == 'a',
        "sticker"@[0] == 's',
        "blocker"@[0] == 'b',
        "line"@[0] == 'l',
        "name"@[0] == 'n',
        "image"@[0] == 'i',
        "block"@[0] == 'b',
        "effect"@[0] == 'e',
        "amount"@[0] == 'a',
{
    broadcast use vstd::string::group_string_axioms;

    reveal_strlit("background");
    reveal_strlit("multiline");
    reveal_strlit("line");
    reveal_strlit("narration");
    reveal_strlit("sticker");
    reveal_strlit("subtitle");
    reveal_strlit("decision");
    reveal_strlit("predicate");
    reveal_strlit("blocker");
    reveal_strlit("animtext");
    reveal_strlit("image");
    reveal_strlit("cameraeffect");
    reveal_strlit("name");
    reveal_strlit("screenadapt");
    reveal_strlit("block");
    reveal_strlit("text");
    reveal_strlit("values");
    reveal_strlit("options");
    reveal_strlit("references");
    reveal_strlit("fadetime");
    reveal_strlit("a");
    reveal_strlit("effect");
    reveal_strlit("amount");
    reveal_strlit("true");
    reveal_strlit("false");
}

} // verus!
