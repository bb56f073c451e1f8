//! The typed command: one variant per recognized tag, an `Other` variant
//! for everything else, and the typer that maps one tokenized line into
//! exactly one command or a parse failure.

use vstd::prelude::*;
use vstd::string::StringExecFns;

use crate::args::Args;
use crate::args::args_get;
use crate::args::args_insert;
use crate::num::denotes_one;
use crate::num::denotes_zero_or_invalid;
use crate::num::denotes_one_chars;
use crate::num::denotes_zero_or_invalid_chars;
use crate::num::parse_u32_of;
use crate::num::parse_u32_chars;
use crate::patt::join_with;
use crate::patt::remove_pat;
use crate::patt::remove_pat_chars;
use crate::patt::split_pat;
use crate::patt::split_pat_chars;
use crate::patt::join_strings;
use crate::patt::reverse_strings;
use crate::patt::views_of;
use crate::text::lower_seq;
use crate::text::lower_string;
use crate::text::str_chars_vec;
use crate::text::str_eq;
use crate::tokenize::tokenize_chars;
use crate::tokenize::tokenize_spec;

verus! {

/// The one failure a conversion can report, at the first line it arises on.
#[derive(Clone, Copy, Debug, PartialEq, Eq, Structural)]
pub enum StoryError {
    /// a line with no characters at all
    EmptyLine,
    /// a dialogue tag without its required `name` argument
    MissingName,
    /// a decision without its required `values` argument
    MissingValues,
    /// a decision without its required `options` argument
    MissingOptions,
    /// a decision whose `values` and `options` lists differ in length
    OptionCountMismatch,
    /// a required boolean argument that is neither `true` nor `false`
    BadBool,
    /// a decision option key that is not a decimal number, found when the
    /// branches are joined
    BadDecisionKey,
}

/// The mathematical shadow of a typed command.
pub ghost enum LineV {
    Background { image: Option<Seq<char>>, screen_adapt: Option<Seq<char>>, block: bool },
    Multiline { name: Seq<char>, text: Seq<char> },
    Line { name: Seq<char>, text: Seq<char> },
    Narration { text: Seq<char> },
    Sticker { text: Option<Seq<char>> },
    Subtitle { text: Option<Seq<char>> },
    Decision { options: Seq<(Seq<char>, Seq<char>)> },
    Predicate { references: Seq<Seq<char>> },
    Blocker { fade_time: Option<u32>, block: bool, full_alpha: bool },
    Image { image: Option<Seq<char>> },
    CameraEffect { effect: Option<Seq<char>>, zero_amount: bool },
    Other { line_type: Seq<char>, arguments: Seq<(Seq<char>, Seq<char>)> },
}

/// One typed script line.  Argument text is kept as read; a blocker's
/// opacity and a camera effect's amount are kept as the two tests the
/// renderer makes of them, whether the text denotes exactly one and
/// whether it resolves to zero.
#[allow(inconsistent_fields)]
pub enum Line {
    Background { image: Option<String>, screen_adapt: Option<String>, block: bool },
    Multiline { name: String, text: String },
    Line { name: String, text: String },
    Narration { text: String },
    Sticker { text: Option<String> },
    Subtitle { text: Option<String> },
    Decision { options: Args },
    Predicate { references: Vec<String> },
    Blocker { fade_time: Option<u32>, block: bool, full_alpha: bool },
    Image { image: Option<String> },
    CameraEffect { effect: Option<String>, zero_amount: bool },
    Other { line_type: String, arguments: Args },
}

pub open spec fn opt_view(o: Option<String>) -> Option<Seq<char>> {
    match o {
        Some(s) => Some(s@),
        None => None,
    }
}

impl View for Line {
    type V = LineV;

    open spec fn view(&self) -> LineV {
        match self {
            Line::Background { image, screen_adapt, block } => LineV::Background {
                image: opt_view(*image),
                screen_adapt: opt_view(*screen_adapt),
                block: *block,
            },
            Line::Multiline { name, text } => LineV::Multiline { name: name@, text: text@ },
            Line::Line { name, text } => LineV::Line { name: name@, text: text@ },
            Line::Narration { text } => LineV::Narration { text: text@ },
            Line::Sticker { text } => LineV::Sticker { text: opt_view(*text) },
            Line::Subtitle { text } => LineV::Subtitle { text: opt_view(*text) },
            Line::Decision { options } => LineV::Decision { options: options@ },
            Line::Predicate { references } => LineV::Predicate {
                references: views_of(references@),
            },
            Line::Blocker { fade_time, block, full_alpha } => LineV::Blocker {
                fade_time: *fade_time,
                block: *block,
                full_alpha: *full_alpha,
            },
            Line::Image { image } => LineV::Image { image: opt_view(*image) },
            Line::CameraEffect { effect, zero_amount } => LineV::CameraEffect {
                effect: opt_view(*effect),
                zero_amount: *zero_amount,
            },
            Line::Other { line_type, arguments } => LineV::Other {
                line_type: line_type@,
                arguments: arguments@,
            },
        }
    }
}

// ----- the typing rules -----

/// How a boolean argument reads: absent means false, only the two literals
/// are accepted otherwise.
pub open spec fn parse_bool_field(o: Option<Seq<char>>) -> Option<bool> {
    match o {
        None => Some(false),
        Some(s) => if s == "true"@ {
            Some(true)
        } else if s == "false"@ {
            Some(false)
        } else {
            None
        },
    }
}

pub open spec fn split_semi(s: Seq<char>) -> Seq<Seq<char>> {
    split_pat(s, seq![';'])
}

/// Decision options from the two lists, pairing positionally; a repeated
/// key keeps the later pairing.
pub open spec fn zip_options(ks: Seq<Seq<char>>, vs: Seq<Seq<char>>) -> Seq<
    (Seq<char>, Seq<char>),
>
    recommends
        ks.len() == vs.len(),
    decreases ks.len(),
{
    if ks.len() == 0 || vs.len() == 0 {
        Seq::empty()
    } else {
        args_insert(zip_options(ks.drop_last(), vs.drop_last()), ks.last(), vs.last())
    }
}

/// The `animtext` transform: strip the bare markers, split on the pause
/// marker, reverse the fragments, and join them with a line break.
pub open spec fn animtext_of(content: Seq<char>) -> Seq<char> {
    join_with(
        split_pat(remove_pat(remove_pat(content, "</>"@), "<p=1>"@), "<p=2>"@).reverse(),
        "<br/>"@,
    )
}

/// What one tokenized line types to.
pub open spec fn type_spec(
    tag: Seq<char>,
    args: Seq<(Seq<char>, Seq<char>)>,
    content: Seq<char>,
) -> Result<LineV, StoryError> {
    if tag == "background"@ {
        match parse_bool_field(args_get(args, "block"@)) {
            None => Err(StoryError::BadBool),
            Some(b) => Ok(
                LineV::Background {
                    image: args_get(args, "image"@),
                    screen_adapt: args_get(args, "screenadapt"@),
                    block: b,
                },
            ),
        }
    } else if tag == "multiline"@ {
        match args_get(args, "name"@) {
            None => Err(StoryError::MissingName),
            Some(n) => Ok(LineV::Multiline { name: n, text: content }),
        }
    } else if tag == "line"@ {
        match args_get(args, "name"@) {
            None => Err(StoryError::MissingName),
            Some(n) => Ok(LineV::Line { name: n, text: content }),
        }
    } else if tag == "narration"@ {
        Ok(LineV::Narration { text: content })
    } else if tag == "sticker"@ {
        Ok(LineV::Sticker { text: args_get(args, "text"@) })
    } else if tag == "subtitle"@ {
        Ok(LineV::Subtitle { text: args_get(args, "text"@) })
    } else if tag == "decision"@ {
        match args_get(args, "values"@) {
            None => Err(StoryError::MissingValues),
            Some(vs) => match args_get(args, "options"@) {
                None => Err(StoryError::MissingOptions),
                Some(os) => {
                    let ks = split_semi(vs);
                    let ts = split_semi(os);
                    if ks.len() != ts.len() {
                        Err(StoryError::OptionCountMismatch)
                    } else {
                        Ok(LineV::Decision { options: zip_options(ks, ts) })
                    }
                },
            },
        }
    } else if tag == "predicate"@ {
        Ok(
            LineV::Predicate {
                references: match args_get(args, "references"@) {
                    None => Seq::empty(),
                    Some(s) => split_semi(s),
                },
            },
        )
    } else if tag == "blocker"@ {
        match parse_bool_field(args_get(args, "block"@)) {
            None => Err(StoryError::BadBool),
            Some(b) => Ok(
                LineV::Blocker {
                    fade_time: match args_get(args, "fadetime"@) {
                        None => None,
                        Some(s) => parse_u32_of(s),
                    },
                    block: b,
                    full_alpha: match args_get(args, "a"@) {
                        None => false,
                        Some(s) => denotes_one(s),
                    },
                },
            ),
        }
    } else if tag == "animtext"@ {
        Ok(LineV::Subtitle { text: Some(animtext_of(content)) })
    } else if tag == "image"@ {
        Ok(LineV::Image { image: args_get(args, "image"@) })
    } else if tag == "cameraeffect"@ {
        Ok(
            LineV::CameraEffect {
                effect: match args_get(args, "effect"@) {
                    None => None,
                    Some(s) => Some(lower_seq(s)),
                },
                zero_amount: match args_get(args, "amount"@) {
                    None => true,
                    Some(s) => denotes_zero_or_invalid(s),
                },
            },
        )
    } else {
        Ok(LineV::Other { line_type: tag, arguments: args })
    }
}

/// What one raw line parses to.
pub open spec fn parse_line_spec(line: Seq<char>) -> Result<LineV, StoryError> {
    match tokenize_spec(line) {
        None => Err(StoryError::EmptyLine),
        Some(t) => type_spec(t.0, t.1, t.2),
    }
}

fn clone_opt(o: Option<&String>) -> (r: Option<String>)
    ensures
        opt_view(r) == match o {
            Some(s) => Some(s@),
            None => None::<Seq<char>>,
        },
{
    match o {
        Some(s) => Some(s.clone()),
        None => None,
    }
}

fn bool_field(o: Option<&String>) -> (r: Option<bool>)
    ensures
        r == parse_bool_field(
            match o {
                Some(s) => Some(s@),
                None => None::<Seq<char>>,
            },
        ),
{
    match o {
        None => Some(false),
        Some(s) => {
            if str_eq(s.as_str(), "true") {
                Some(true)
            } else if str_eq(s.as_str(), "false") {
                Some(false)
            } else {
                None
            }
        },
    }
}

/// Splits a semicolon-delimited list argument.
fn split_semi_str(s: &str) -> (r: Vec<String>)
    ensures
        views_of(r@) == split_semi(s@),
{
    let v = str_chars_vec(s);
    let mut p: Vec<char> = Vec::new();
    p.push(';');
    proof {
        assert(p@ =~= seq![';']);
    }
    split_pat_chars(&v, &p)
}

/// Pairs the two option lists positionally.
fn zip_options_exec(ks: &Vec<String>, ts: &Vec<String>) -> (r: Args)
    requires
        ks@.len() == ts@.len(),
    ensures
        r@ == zip_options(views_of(ks@), views_of(ts@)),
{
    let mut r = Args::new();
    let mut i: usize = 0;
    proof {
        assert(views_of(ks@).take(0) =~= Seq::<Seq<char>>::empty());
        assert(views_of(ts@).take(0) =~= Seq::<Seq<char>>::empty());
    }
    while i < ks.len()
        invariant
            i <= ks@.len(),
            ks@.len() == ts@.len(),
            r@ == zip_options(views_of(ks@).take(i as int), views_of(ts@).take(i as int)),
        decreases ks@.len() - i,
    {
        let k = ks[i].clone();
        let t = ts[i].clone();
        r.insert(k, t);
        proof {
            let kv = views_of(ks@);
            let tv = views_of(ts@);
            assert(kv.take(i + 1).drop_last() =~= kv.take(i as int));
            assert(tv.take(i + 1).drop_last() =~= tv.take(i as int));
            assert(kv.take(i + 1).last() == kv[i as int]);
            assert(tv.take(i + 1).last() == tv[i as int]);
        }
        i = i + 1;
    }
    proof {
        assert(views_of(ks@).take(ks@.len() as int) =~= views_of(ks@));
        assert(views_of(ts@).take(ts@.len() as int) =~= views_of(ts@));
    }
    r
}

/// The `animtext` transform on the trailing text.
fn animtext_exec(content: &str) -> (r: String)
    ensures
        r@ == animtext_of(content@),
{
    let v = str_chars_vec(content);
    let close_pat = str_chars_vec("</>");
    let p1_pat = str_chars_vec("<p=1>");
    let p2_pat = str_chars_vec("<p=2>");
    let br_pat = str_chars_vec("<br/>");
    proof {
        reveal_strlit("</>");
        reveal_strlit("<p=1>");
        reveal_strlit("<p=2>");
        reveal_strlit("<br/>");
    }
    let a = remove_pat_chars(&v, &close_pat);
    let b = remove_pat_chars(&a, &p1_pat);
    let frags = split_pat_chars(&b, &p2_pat);
    let rev = reverse_strings(frags);
    join_strings(&rev, &br_pat)
}

/// Types one tokenized line: the lowered tag, its arguments, and the
/// trailing text give exactly one command.
pub fn type_line(tag: &str, args: Args, content: String) -> (r: Result<Line, StoryError>)
    ensures
        match r {
            Ok(l) => type_spec(tag@, args@, content@) == Ok::<LineV, StoryError>(l@),
            Err(e) => type_spec(tag@, args@, content@) == Err::<LineV, StoryError>(e),
        },
{
    if str_eq(tag, "background") {
        match bool_field(args.get("block")) {
            None => Err(StoryError::BadBool),
            Some(b) => Ok(
                Line::Background {
                    image: clone_opt(args.get("image")),
                    screen_adapt: clone_opt(args.get("screenadapt")),
                    block: b,
                },
            ),
        }
    } else if str_eq(tag, "multiline") {
        match args.get("name") {
            None => Err(StoryError::MissingName),
            Some(n) => Ok(Line::Multiline { name: n.clone(), text: content }),
        }
    } else if str_eq(tag, "line") {
        match args.get("name") {
            None => Err(StoryError::MissingName),
            Some(n) => Ok(Line::Line { name: n.clone(), text: content }),
        }
    } else if str_eq(tag, "narration") {
        Ok(Line::Narration { text: content })
    } else if str_eq(tag, "sticker") {
        Ok(Line::Sticker { text: clone_opt(args.get("text")) })
    } else if str_eq(tag, "subtitle") {
        Ok(Line::Subtitle { text: clone_opt(args.get("text")) })
    } else if str_eq(tag, "decision") {
        let vs = match args.get("values") {
            None => {
                return Err(StoryError::MissingValues);
            },
            Some(vs) => vs.clone(),
        };
        let os = match args.get("options") {
            None => {
                return Err(StoryError::MissingOptions);
            },
            Some(os) => os.clone(),
        };
        let ks = split_semi_str(vs.as_str());
        let ts = split_semi_str(os.as_str());
        if ks.len() != ts.len() {
            Err(StoryError::OptionCountMismatch)
        } else {
            Ok(Line::Decision { options: zip_options_exec(&ks, &ts) })
        }
    } else if str_eq(tag, "predicate") {
        let references = match args.get("references") {
            None => Vec::new(),
            Some(s) => split_semi_str(s.as_str()),
        };
        proof {
            if args_get(args@, "references"@) is None {
                assert(views_of(Seq::<String>::empty()) =~= Seq::<Seq<char>>::empty());
            }
        }
        Ok(Line::Predicate { references })
    } else if str_eq(tag, "blocker") {
        match bool_field(args.get("block")) {
            None => Err(StoryError::BadBool),
            Some(b) => {
                let fade_time = match args.get("fadetime") {
                    None => None,
                    Some(s) => parse_u32_chars(&str_chars_vec(s.as_str())),
                };
                let full_alpha = match args.get("a") {
                    None => false,
                    Some(s) => denotes_one_chars(&str_chars_vec(s.as_str())),
                };
                Ok(Line::Blocker { fade_time, block: b, full_alpha })
            },
        }
    } else if str_eq(tag, "animtext") {
        Ok(Line::Subtitle { text: Some(animtext_exec(content.as_str())) })
    } else if str_eq(tag, "image") {
        Ok(Line::Image { image: clone_opt(args.get("image")) })
    } else if str_eq(tag, "cameraeffect") {
        let effect = match args.get("effect") {
            None => None,
            Some(s) => Some(lower_string(s.as_str())),
        };
        let zero_amount = match args.get("amount") {
            None => true,
            Some(s) => denotes_zero_or_invalid_chars(&str_chars_vec(s.as_str())),
        };
        Ok(Line::CameraEffect { effect, zero_amount })
    } else {
        Ok(Line::Other { line_type: String::from_str(tag), arguments: args })
    }
}

/// Parses one raw script line into its typed command.
pub fn parse_line(line: &str) -> (r: Result<Line, StoryError>)
    ensures
        match r {
            Ok(l) => parse_line_spec(line@) == Ok::<LineV, StoryError>(l@),
            Err(e) => parse_line_spec(line@) == Err::<LineV, StoryError>(e),
        },
{
    let v = str_chars_vec(line);
    if v.len() == 0 {
        return Err(StoryError::EmptyLine);
    }
    let (tag, args, content) = tokenize_chars(&v);
    type_line(tag.as_str(), args, content)
}

} // verus!
