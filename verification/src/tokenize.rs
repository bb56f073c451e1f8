//! The line tokenizer: a character-level state machine that turns one raw
//! line into a tag name, an argument mapping, and trailing free text.
//!
//! A line that does not open with `[` is narration in full.  Otherwise the
//! scanner accumulates letters into the tag name, then reads
//! comma-separated `name=value` pairs up to the closing `]`; double quotes
//! make `,`, `]`, spaces and `)` literal, and unquoted spaces and `)` are
//! skipped.  Everything after the closing bracket is trailing text.  A
//! header that starts directly with `name=` is dialogue shorthand: the line
//! is reinterpreted as a `line` tag whose first argument is `name`.

use vstd::prelude::*;
use vstd::string::StringExecFns;

use crate::args::Args;
use crate::args::args_insert;
use crate::text::is_alpha;
use crate::text::is_alpha_char;
use crate::text::lower_seq;
use crate::text::lower_string;
use crate::text::str_chars_vec;
use crate::text::str_eq;
use crate::text::string_from_chars;

verus! {

/// The scanner's state: phase flags and the buffers they fill.
pub ghost struct TokSt {
    /// still inside the bracketed header
    pub header: bool,
    /// still accumulating the tag name
    pub in_type: bool,
    /// accumulating an argument name rather than a value
    pub in_name: bool,
    /// inside a double-quoted span
    pub quoted: bool,
    pub tag: Seq<char>,
    pub key_buf: Seq<char>,
    pub val_buf: Seq<char>,
    pub args: Seq<(Seq<char>, Seq<char>)>,
    pub content: Seq<char>,
}

pub open spec fn tok_init() -> TokSt {
    TokSt {
        header: true,
        in_type: true,
        in_name: true,
        quoted: false,
        tag: Seq::empty(),
        key_buf: Seq::empty(),
        val_buf: Seq::empty(),
        args: Seq::empty(),
        content: Seq::empty(),
    }
}

/// One character of the scan.
pub open spec fn tok_step(st: TokSt, c: char) -> TokSt {
    if !st.header {
        TokSt { content: st.content.push(c), ..st }
    } else if !st.in_type {
        if c == '"' {
            TokSt { quoted: !st.quoted, ..st }
        } else if (c == ')' || c == ' ') && !st.quoted {
            st
        } else if (c == ',' || c == ']') && !st.quoted {
            TokSt {
                header: c != ']',
                args: args_insert(st.args, st.key_buf, st.val_buf),
                key_buf: Seq::empty(),
                val_buf: Seq::empty(),
                in_name: true,
                ..st
            }
        } else if !st.in_name {
            TokSt { val_buf: st.val_buf.push(c), ..st }
        } else if c == '=' {
            TokSt { in_name: false, ..st }
        } else {
            TokSt { key_buf: st.key_buf.push(c), ..st }
        }
    } else {
        if !is_alpha(c) {
            if st.tag == "name"@ {
                TokSt {
                    in_type: false,
                    tag: "line"@,
                    key_buf: "name"@,
                    in_name: false,
                    ..st
                }
            } else {
                TokSt { in_type: false, ..st }
            }
        } else {
            TokSt { tag: st.tag.push(c), ..st }
        }
    }
}

pub open spec fn tok_run(st: TokSt, s: Seq<char>) -> TokSt
    decreases s.len(),
{
    if s.len() == 0 {
        st
    } else {
        tok_run(tok_step(st, s[0]), s.skip(1))
    }
}

pub proof fn lemma_tok_run_snoc(st: TokSt, s: Seq<char>, c: char)
    ensures
        tok_run(st, s.push(c)) == tok_step(tok_run(st, s), c),
    decreases s.len(),
{
    if s.len() == 0 {
        assert(s.push(c)[0] == c);
        assert(s.push(c).skip(1) =~= Seq::<char>::empty());
        assert(tok_run(tok_step(st, c), Seq::<char>::empty()) == tok_step(st, c));
        assert(tok_run(st, s) == st);
    } else {
        assert(s.push(c)[0] == s[0]);
        assert(s.push(c).skip(1) =~= s.skip(1).push(c));
        lemma_tok_run_snoc(tok_step(st, s[0]), s.skip(1), c);
    }
}

/// One line's tokens: the lowered tag name, the arguments, the trailing
/// text.  `None` only for an empty line.
pub open spec fn tokenize_spec(line: Seq<char>) -> Option<
    (Seq<char>, Seq<(Seq<char>, Seq<char>)>, Seq<char>),
> {
    if line.len() == 0 {
        None
    } else if line[0] != '[' {
        Some(("narration"@, Seq::empty(), line))
    } else {
        let fin = tok_run(tok_init(), line.skip(1));
        Some((lower_seq(fin.tag), fin.args, fin.content))
    }
}

/// Runs the scanner over one line, given as its characters.
pub fn tokenize_chars(v: &Vec<char>) -> (r: (String, Args, String))
    requires
        v@.len() > 0,
    ensures
        tokenize_spec(v@) == Some((r.0@, r.1@, r.2@)),
{
    if v[0] != '[' {
        let tag = String::from_str("narration");
        let content = string_from_chars(v);
        return (tag, Args::new(), content);
    }
    let mut header = true;
    let mut in_type = true;
    let mut in_name = true;
    let mut quoted = false;
    let mut tag_buf: Vec<char> = Vec::new();
    let mut key_buf: Vec<char> = Vec::new();
    let mut val_buf: Vec<char> = Vec::new();
    let mut args = Args::new();
    let mut content_buf: Vec<char> = Vec::new();
    let mut i: usize = 1;
    proof {
        assert(v@.subrange(1, 1) =~= Seq::<char>::empty());
    }
    while i < v.len()
        invariant
            1 <= i <= v@.len(),
            ({
                let st = tok_run(tok_init(), v@.subrange(1, i as int));
                &&& header == st.header
                &&& in_type == st.in_type
                &&& in_name == st.in_name
                &&& quoted == st.quoted
                &&& tag_buf@ == st.tag
                &&& key_buf@ == st.key_buf
                &&& val_buf@ == st.val_buf
                &&& args@ == st.args
                &&& content_buf@ == st.content
            }),
        decreases v@.len() - i,
    {
        let c = v[i];
        proof {
            assert(v@.subrange(1, i + 1) =~= v@.subrange(1, i as int).push(v@[i as int]));
            lemma_tok_run_snoc(tok_init(), v@.subrange(1, i as int), c);
        }
        if !header {
            content_buf.push(c);
        } else if !in_type {
            if c == '"' {
                quoted = !quoted;
            } else if (c == ')' || c == ' ') && !quoted {
            } else if (c == ',' || c == ']') && !quoted {
                if c == ']' {
                    header = false;
                }
                let ks = string_from_chars(&key_buf);
                let vs = string_from_chars(&val_buf);
                args.insert(ks, vs);
                key_buf.clear();
                val_buf.clear();
                in_name = true;
            } else if !in_name {
                val_buf.push(c);
            } else if c == '=' {
                in_name = false;
            } else {
                key_buf.push(c);
            }
        } else {
            if !is_alpha_char(c) {
                in_type = false;
                let tag_s = string_from_chars(&tag_buf);
                if str_eq(tag_s.as_str(), "name") {
                    tag_buf = str_chars_vec("line");
                    key_buf = str_chars_vec("name");
                    in_name = false;
                }
            } else {
                tag_buf.push(c);
            }
        }
        i = i + 1;
    }
    proof {
        assert(v@.subrange(1, v@.len() as int) =~= v@.skip(1));
    }
    let tag_raw = string_from_chars(&tag_buf);
    let tag = lower_string(tag_raw.as_str());
    let content = string_from_chars(&content_buf);
    (tag, args, content)
}

} // verus!
