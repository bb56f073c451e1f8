//! The whole conversion: split the script into lines, parse every line,
//! run the rendering state machine, and prefix the assembled header.

use vstd::prelude::*;
use vstd::string::StringExecFns;

use crate::command::Line;
use crate::command::LineV;
use crate::command::StoryError;
use crate::command::parse_line;
use crate::command::parse_line_spec;
use crate::num::dec_of;
use crate::num::push_dec;
use crate::patt::views_of;
use crate::render::Keep;
use crate::render::RenderState;
use crate::render::StateV;
use crate::render::cleanup_spec;
use crate::render::init_spec;
use crate::render::step_spec;
use crate::text::str_chars_vec;
use crate::text::string_from_chars;
use crate::text::trim_of;
use crate::text::trim_chars;

verus! {

// ----- splitting the script into lines -----

/// The lines of the text, terminators `\n` and `\r\n` both recognized, a
/// final terminator optional, as `str::lines` yields them.
pub open spec fn lines_spec(s: Seq<char>) -> Seq<Seq<char>>
    decreases s.len(),
{
    if s.len() == 0 {
        Seq::empty()
    } else if s.len() >= 2 && s[0] == '\r' && s[1] == '\n' {
        seq![Seq::<char>::empty()] + lines_spec(s.skip(2))
    } else if s[0] == '\n' {
        seq![Seq::<char>::empty()] + lines_spec(s.skip(1))
    } else {
        let r = lines_spec(s.skip(1));
        if r.len() == 0 {
            seq![seq![s[0]]]
        } else {
            seq![seq![s[0]] + r[0]] + r.skip(1)
        }
    }
}

/// The line being accumulated, put before the lines still to come.
pub open spec fn prepend_cur(c: Seq<char>, r: Seq<Seq<char>>) -> Seq<Seq<char>> {
    if r.len() == 0 {
        if c.len() == 0 {
            Seq::empty()
        } else {
            seq![c]
        }
    } else {
        seq![c + r[0]] + r.skip(1)
    }
}

/// Splits the script text into its lines.
pub fn split_lines(s: &str) -> (r: Vec<String>)
    ensures
        views_of(r@) == lines_spec(s@),
{
    let v = str_chars_vec(s);
    let mut done: Vec<String> = Vec::new();
    let mut cur: Vec<char> = Vec::new();
    let mut i: usize = 0;
    proof {
        assert(v@.skip(0) =~= v@);
        assert(lines_spec(v@) =~~= views_of(done@) + prepend_cur(cur@, lines_spec(v@)));
    }
    while i < v.len()
        invariant
            i <= v@.len(),
            v@ == s@,
            lines_spec(v@) =~~= views_of(done@) + prepend_cur(cur@, lines_spec(v@.skip(i as int))),
        decreases v@.len() - i,
    {
        let ghost rest = lines_spec(v@.skip(i as int));
        let c = v[i];
        if c == '\r' && i + 1 < v.len() && v[i + 1] == '\n' {
            proof {
                assert(v@.skip(i as int)[0] == '\r');
                assert(v@.skip(i as int)[1] == '\n');
                assert(v@.skip(i as int).skip(2) =~= v@.skip(i + 2));
            }
            let line = string_from_chars(&cur);
            done.push(line);
            cur = Vec::new();
            i = i + 2;
            proof {
                assert(views_of(done@) =~= views_of(done@.drop_last()).push(done@.last()@));
            }
        } else if c == '\n' {
            proof {
                assert(v@.skip(i as int)[0] == '\n');
                assert(v@.skip(i as int).skip(1) =~= v@.skip(i + 1));
            }
            let line = string_from_chars(&cur);
            done.push(line);
            cur = Vec::new();
            i = i + 1;
            proof {
                assert(views_of(done@) =~= views_of(done@.drop_last()).push(done@.last()@));
            }
        } else {
            proof {
                assert(v@.skip(i as int)[0] == v@[i as int]);
                assert(v@.skip(i as int).skip(1) =~= v@.skip(i + 1));
            }
            cur.push(c);
            i = i + 1;
        }
    }
    proof {
        assert(v@.skip(v@.len() as int) =~= Seq::<char>::empty());
    }
    if cur.len() > 0 {
        let line = string_from_chars(&cur);
        done.push(line);
        proof {
            assert(views_of(done@) =~= views_of(done@.drop_last()).push(done@.last()@));
        }
    }
    proof {
        assert(views_of(done@) =~~= lines_spec(s@));
    }
    done
}

// ----- parsing and rendering every line -----

/// All lines parsed in order, stopped at the first invalid one.
pub open spec fn parse_all(ls: Seq<Seq<char>>) -> Result<Seq<LineV>, StoryError>
    decreases ls.len(),
{
    if ls.len() == 0 {
        Ok(Seq::empty())
    } else {
        match parse_line_spec(ls[0]) {
            Err(e) => Err(e),
            Ok(c) => match parse_all(ls.skip(1)) {
                Err(e) => Err(e),
                Ok(r) => Ok(seq![c] + r),
            },
        }
    }
}

proof fn lemma_parse_all_prefix(ls: Seq<Seq<char>>, i: int, cs: Seq<LineV>)
    requires
        0 <= i <= ls.len(),
        parse_all(ls.take(i)) == Ok::<Seq<LineV>, StoryError>(cs),
    ensures
        parse_all(ls) == match parse_all(ls.skip(i)) {
            Err(e) => Err::<Seq<LineV>, StoryError>(e),
            Ok(r) => Ok::<Seq<LineV>, StoryError>(cs + r),
        },
    decreases i,
{
    if i == 0 {
        assert(ls.take(0) =~= Seq::<Seq<char>>::empty());
        assert(cs =~= Seq::<LineV>::empty());
        assert(ls.skip(0) =~= ls);
        match parse_all(ls) {
            Err(e) => {},
            Ok(r) => {
                assert(cs + r =~= r);
            },
        }
    } else {
        assert(ls.take(i)[0] == ls[0]);
        assert(ls.take(i).skip(1) =~= ls.skip(1).take(i - 1));
        assert(parse_line_spec(ls[0]) is Ok);
        let c0 = parse_line_spec(ls[0])->Ok_0;
        let cs1 = parse_all(ls.skip(1).take(i - 1))->Ok_0;
        assert(cs == seq![c0] + cs1);
        lemma_parse_all_prefix(ls.skip(1), i - 1, cs1);
        assert(ls.skip(1).skip(i - 1) =~= ls.skip(i));
        match parse_all(ls.skip(i)) {
            Err(e) => {},
            Ok(r) => {
                assert(seq![c0] + (cs1 + r) =~= cs + r);
            },
        }
    }
}

/// The state machine run over all commands, stopped at the first failure.
pub open spec fn run_spec(st: StateV, cs: Seq<LineV>) -> Result<StateV, StoryError>
    decreases cs.len(),
{
    if cs.len() == 0 {
        Ok(st)
    } else {
        match step_spec(st, cs[0]) {
            Err(e) => Err(e),
            Ok(st2) => run_spec(st2, cs.skip(1)),
        }
    }
}

proof fn lemma_run_prefix(st: StateV, cs: Seq<LineV>, i: int, mid: StateV)
    requires
        0 <= i <= cs.len(),
        run_spec(st, cs.take(i)) == Ok::<StateV, StoryError>(mid),
    ensures
        run_spec(st, cs) == run_spec(mid, cs.skip(i)),
    decreases i,
{
    if i == 0 {
        assert(cs.take(0) =~= Seq::<LineV>::empty());
        assert(cs.skip(0) =~= cs);
    } else {
        assert(cs.take(i)[0] == cs[0]);
        assert(cs.take(i).skip(1) =~= cs.skip(1).take(i - 1));
        assert(step_spec(st, cs[0]) is Ok);
        let st2 = step_spec(st, cs[0])->Ok_0;
        lemma_run_prefix(st2, cs.skip(1), i - 1, mid);
        assert(cs.skip(1).skip(i - 1) =~= cs.skip(i));
    }
}

// ----- the header and the final document -----

pub open spec fn chars_markers(cs: Seq<Seq<char>>) -> Seq<char>
    decreases cs.len(),
{
    if cs.len() == 0 {
        Seq::empty()
    } else {
        chars_markers(cs.drop_last()) + "{{si|mode=char|"@ + cs.last() + "}}"@
    }
}

pub open spec fn bg_markers(bgs: Seq<Seq<char>>) -> Seq<char>
    decreases bgs.len(),
{
    if bgs.len() == 0 {
        Seq::empty()
    } else {
        bg_markers(bgs.drop_last()) + "{{si|mode=bg|"@ + bgs.last() + "|"@ + dec_of(
            bgs.len() as int,
        ) + "}}"@
    }
}

pub open spec fn concat_segs(segs: Seq<Seq<char>>) -> Seq<char>
    decreases segs.len(),
{
    if segs.len() == 0 {
        Seq::empty()
    } else {
        concat_segs(segs.drop_last()) + segs.last()
    }
}

/// The assembled document: the trimmed characters line, the backgrounds
/// line in ascending id order, two blank lines, the trimmed transcript.
pub open spec fn assemble_spec(st: StateV) -> Seq<char> {
    trim_of("|chars = "@ + chars_markers(st.characters)) + "\n|bgs = "@ + bg_markers(
        st.backgrounds,
    ) + "\n\n\n"@ + trim_of(concat_segs(st.segs))
}

/// Builds the final document out of the finished render state.
fn assemble(st: &RenderState) -> (r: String)
    ensures
        r@ == assemble_spec(st@),
{
    let mut h = String::from_str("|chars = ");
    let mut i: usize = 0;
    proof {
        assert(views_of(st.characters@).take(0) =~= Seq::<Seq<char>>::empty());
    }
    while i < st.characters.len()
        invariant
            i <= st.characters@.len(),
            h@ == "|chars = "@ + chars_markers(views_of(st.characters@).take(i as int)),
        decreases st.characters@.len() - i,
    {
        h.append("{{si|mode=char|");
        h.append(st.characters[i].as_str());
        h.append("}}");
        proof {
            let cv = views_of(st.characters@);
            assert(cv.take(i + 1).drop_last() =~= cv.take(i as int));
            assert(cv.take(i + 1).last() == cv[i as int]);
        }
        i = i + 1;
    }
    proof {
        assert(views_of(st.characters@).take(st.characters@.len() as int) =~= views_of(
            st.characters@,
        ));
    }
    let trimmed = trim_chars(&str_chars_vec(h.as_str()));
    let mut out = trimmed;
    out.append("\n|bgs = ");
    let mut i: usize = 0;
    let ghost out_base = out@;
    proof {
        assert(views_of(st.backgrounds@).take(0) =~= Seq::<Seq<char>>::empty());
    }
    while i < st.backgrounds.len()
        invariant
            i <= st.backgrounds@.len(),
            out@ == out_base + bg_markers(views_of(st.backgrounds@).take(i as int)),
        decreases st.backgrounds@.len() - i,
    {
        out.append("{{si|mode=bg|");
        out.append(st.backgrounds[i].as_str());
        out.append("|");
        push_dec(&mut out, i + 1);
        out.append("}}");
        proof {
            let bv = views_of(st.backgrounds@);
            assert(bv.take(i + 1).drop_last() =~= bv.take(i as int));
            assert(bv.take(i + 1).last() == bv[i as int]);
            assert(bv.take(i + 1).len() == i + 1);
        }
        i = i + 1;
    }
    proof {
        assert(views_of(st.backgrounds@).take(st.backgrounds@.len() as int) =~= views_of(
            st.backgrounds@,
        ));
    }
    let mut body = String::new();
    let mut i: usize = 0;
    proof {
        assert(views_of(st.segs@).take(0) =~= Seq::<Seq<char>>::empty());
    }
    while i < st.segs.len()
        invariant
            i <= st.segs@.len(),
            body@ == concat_segs(views_of(st.segs@).take(i as int)),
        decreases st.segs@.len() - i,
    {
        body.append(st.segs[i].as_str());
        proof {
            let sv = views_of(st.segs@);
            assert(sv.take(i + 1).drop_last() =~= sv.take(i as int));
            assert(sv.take(i + 1).last() == sv[i as int]);
        }
        i = i + 1;
    }
    proof {
        assert(views_of(st.segs@).take(st.segs@.len() as int) =~= views_of(st.segs@));
    }
    let body_trimmed = trim_chars(&str_chars_vec(body.as_str()));
    out.append("\n\n\n");
    out.append(body_trimmed.as_str());
    out
}

// ----- the whole conversion -----

/// What the conversion returns: the assembled document, or the one failure
/// met first.
pub open spec fn story_spec(s: Seq<char>) -> Result<Seq<char>, StoryError> {
    match parse_all(lines_spec(s)) {
        Err(e) => Err(e),
        Ok(cs) => match run_spec(init_spec(), cs) {
            Err(e) => Err(e),
            Ok(st) => Ok(assemble_spec(cleanup_spec(st, Keep::KeepNothing))),
        },
    }
}

pub open spec fn cmds_views(cs: Seq<Line>) -> Seq<LineV> {
    cs.map_values(|l: Line| l@)
}

/// Converts a whole script into its wiki transcript, or reports the first
/// invalid line.
pub fn story_to_wiki(content: String) -> (r: Result<String, StoryError>)
    ensures
        match r {
            Ok(out) => story_spec(content@) == Ok::<Seq<char>, StoryError>(out@),
            Err(e) => story_spec(content@) == Err::<Seq<char>, StoryError>(e),
        },
{
    let lines = split_lines(content.as_str());
    let ghost lv = views_of(lines@);
    let mut cmds: Vec<Line> = Vec::new();
    let mut i: usize = 0;
    proof {
        assert(lv.take(0) =~= Seq::<Seq<char>>::empty());
        assert(cmds_views(cmds@) =~= Seq::<LineV>::empty());
    }
    while i < lines.len()
        invariant
            i <= lines@.len(),
            lv == views_of(lines@),
            lv == lines_spec(content@),
            parse_all(lv.take(i as int)) == Ok::<Seq<LineV>, StoryError>(cmds_views(cmds@)),
        decreases lines@.len() - i,
    {
        let ghost cs0 = cmds_views(cmds@);
        proof {
            assert(lv[i as int] == lines@[i as int]@);
        }
        match parse_line(lines[i].as_str()) {
            Ok(c) => {
                cmds.push(c);
                proof {
                    assert(lv.take(i + 1).take(i as int) =~= lv.take(i as int));
                    assert(lv.take(i + 1).skip(i as int) =~= seq![lv[i as int]]);
                    assert(seq![lv[i as int]][0] == lv[i as int]);
                    assert(seq![lv[i as int]].skip(1) =~= Seq::<Seq<char>>::empty());
                    assert(parse_all(Seq::<Seq<char>>::empty()) == Ok::<Seq<LineV>, StoryError>(
                        Seq::<LineV>::empty(),
                    ));
                    assert(parse_all(seq![lv[i as int]]) == Ok::<Seq<LineV>, StoryError>(
                        seq![c@] + Seq::<LineV>::empty(),
                    ));
                    lemma_parse_all_prefix(lv.take(i + 1), i as int, cs0);
                    assert(cmds_views(cmds@) =~= cs0 + (seq![c@] + Seq::<LineV>::empty()));
                }
            },
            Err(e) => {
                proof {
                    assert(lv.skip(i as int)[0] == lv[i as int]);
                    assert(parse_all(lv.skip(i as int)) == Err::<Seq<LineV>, StoryError>(e));
                    lemma_parse_all_prefix(lv, i as int, cs0);
                }
                return Err(e);
            },
        }
        i = i + 1;
    }
    proof {
        assert(lv.take(lv.len() as int) =~= lv);
    }
    let ghost cs = cmds_views(cmds@);
    let mut st = RenderState::new();
    let mut i: usize = 0;
    proof {
        assert(cs.take(0) =~= Seq::<LineV>::empty());
    }
    while i < cmds.len()
        invariant
            i <= cmds@.len(),
            cs == cmds_views(cmds@),
            parse_all(lines_spec(content@)) == Ok::<Seq<LineV>, StoryError>(cs),
            run_spec(init_spec(), cs.take(i as int)) == Ok::<StateV, StoryError>(st@),
        decreases cmds@.len() - i,
    {
        let ghost mid = st@;
        proof {
            assert(cs[i as int] == cmds@[i as int]@);
        }
        match st.render_line(&cmds[i]) {
            Ok(()) => {
                proof {
                    assert(cs.take(i + 1).take(i as int) =~= cs.take(i as int));
                    assert(cs.take(i + 1).skip(i as int) =~= seq![cs[i as int]]);
                    assert(seq![cs[i as int]][0] == cs[i as int]);
                    assert(seq![cs[i as int]].skip(1) =~= Seq::<LineV>::empty());
                    assert(run_spec(st@, Seq::<LineV>::empty()) == Ok::<StateV, StoryError>(st@));
                    assert(run_spec(mid, seq![cs[i as int]]) == Ok::<StateV, StoryError>(st@));
                    lemma_run_prefix(init_spec(), cs.take(i + 1), i as int, mid);
                }
            },
            Err(e) => {
                proof {
                    assert(cs.skip(i as int)[0] == cs[i as int]);
                    assert(run_spec(mid, cs.skip(i as int)) == Err::<StateV, StoryError>(e));
                    lemma_run_prefix(init_spec(), cs, i as int, mid);
                }
                return Err(e);
            },
        }
        i = i + 1;
    }
    proof {
        assert(cs.take(cs.len() as int) =~= cs);
        lemma_run_prefix(init_spec(), cs, cs.len() as int, st@);
        assert(cs.skip(cs.len() as int) =~= Seq::<LineV>::empty());
    }
    st.cleanup_open_tags();
    let out = assemble(&st);
    Ok(out)
}

} // verus!
