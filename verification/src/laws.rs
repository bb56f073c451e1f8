//! Properties of the rendering state machine, stated over the step
//! functions that `render_line` is proved against.

use vstd::prelude::*;

use crate::render::Keep;
use crate::render::LastKind;
use crate::render::OpenV;
use crate::render::StateV;
use crate::render::branch_start_marker;
use crate::render::cleanup_spec;
use crate::render::contains_str;
use crate::render::doctor_line;
use crate::render::init_spec;
use crate::render::narration_close;
use crate::render::register;
use crate::render::speaker_close;
use crate::render::step_background;
use crate::render::step_decision;
use crate::render::step_dialogue;
use crate::render::subtitle_close;
use crate::text::trim_of;

verus! {

/// A background command without an explicit image resolves to the last
/// applied background: it behaves exactly as if that image had been named.
/// From the initial state, where none was ever applied, the empty
/// identifier stands in: it is registered like any image, under id one.
pub proof fn lemma_background_defaults(st: StateV)
    ensures
        step_background(st, None) == step_background(st, Some(st.last_background)),
        step_background(init_spec(), None).last_background == Seq::<char>::empty(),
        step_background(init_spec(), None).backgrounds == seq![Seq::<char>::empty()],
{
    assert(step_background(init_spec(), None).backgrounds =~= seq![Seq::<char>::empty()]);
}

/// Two dialogue commands of one speaker in a row keep one open block: the
/// first leaves the speaker's block open, and the second appends exactly
/// one continuation unit, closing nothing and opening nothing new.
pub proof fn lemma_same_speaker_continues(
    st: StateV,
    name: Seq<char>,
    t1: Seq<char>,
    t2: Seq<char>,
)
    ensures
        ({
            let a = step_dialogue(st, name, t1);
            let b = step_dialogue(a, name, t2);
            &&& a.open == OpenV::Speaker(name)
            &&& b.open == OpenV::Speaker(name)
            &&& b.segs == a.segs.push("<br/>"@ + trim_of(t2))
            &&& b.characters == a.characters
        }),
{
    let a = step_dialogue(st, name, t1);
    let a0 = StateV { characters: register(st.characters, name), ..st };
    assert(contains_str(a.characters, name)) by {
        if contains_str(st.characters, name) {
        } else {
            assert(register(st.characters, name)[st.characters.len() as int] == name);
        }
    }
    assert(register(a.characters, name) == a.characters);
    let b0 = StateV { characters: register(a.characters, name), ..a };
    assert(b0 == a);
    assert(cleanup_spec(b0, Keep::KeepSpeaker) == b0);
}

/// A decision with exactly one option emits the resolved line at once:
/// every unit it appends differs from the branch-start marker, and the
/// last one is the resolved speaker line itself.
pub proof fn lemma_single_option_decision(st: StateV, options: Seq<(Seq<char>, Seq<char>)>)
    requires
        options.len() == 1,
    ensures
        ({
            let b = step_decision(st, options);
            &&& b.last == LastKind::Plain
            &&& b.segs.len() > st.segs.len()
            &&& b.segs.last() == doctor_line(options[0].1)
            &&& forall|j: int|
                st.segs.len() <= j < b.segs.len() ==> b.segs[j] != branch_start_marker()
        }),
{
    broadcast use vstd::string::group_string_axioms;

    reveal_strlit("{{sc|mode=branchstart}}\n");
    reveal_strlit("}}\n");
    reveal_strlit("|mode=speech}}\n");
    reveal_strlit("|mode=subtitle}}\n");
    reveal_strlit("{{sc|Doctor|");
    let b = step_decision(st, options);
    let st0 = StateV { characters: register(st.characters, "Doctor"@), ..st };
    let st1 = cleanup_spec(st0, Keep::KeepNothing);
    assert(branch_start_marker()[0] == '{');
    assert(speaker_close()[0] == '}');
    assert(narration_close()[0] == '|');
    assert(subtitle_close()[0] == '|');
    assert(speaker_close() != branch_start_marker());
    assert(narration_close() != branch_start_marker());
    assert(subtitle_close() != branch_start_marker());
    assert(doctor_line(options[0].1) != branch_start_marker()) by {
        assert(doctor_line(options[0].1)[5] == 'D');
        assert(branch_start_marker()[5] == 'm');
    }
    assert(forall|j: int|
        st.segs.len() <= j < st1.segs.len() ==> st1.segs[j] != branch_start_marker());
    assert(b.segs.last() == doctor_line(options[0].1));
}

/// A fade transition pending immediately before a background change is
/// removed, never kept and never doubled: with no block open, the
/// background's own marker replaces the fade unit.
pub proof fn lemma_fade_superseded(st: StateV, image: Option<Seq<char>>)
    requires
        st.open == OpenV::NoBlock,
        st.last == LastKind::FadeMarker,
        st.segs.len() > 0,
    ensures
        ({
            let b = step_background(st, image);
            &&& b.segs.len() == st.segs.len()
            &&& b.segs.drop_last() == st.segs.drop_last()
        }),
{
    let b = step_background(st, image);
    assert(b.segs.drop_last() =~= st.segs.drop_last());
}

/// Two consecutive background commands resolving to one image collapse in
/// the registry: the second registers nothing new and its marker carries
/// the same id, so it emits exactly the unit the first one emitted.
pub proof fn lemma_repeated_background(st: StateV, img: Seq<char>)
    ensures
        ({
            let a = step_background(st, Some(img));
            let b = step_background(a, Some(img));
            &&& b.backgrounds == a.backgrounds
            &&& b.last_background == a.last_background
            &&& b.segs == a.segs.push(a.segs.last())
        }),
{
    let a = step_background(st, Some(img));
    assert(contains_str(a.backgrounds, img)) by {
        let st1 = cleanup_spec(st, Keep::KeepNothing);
        if contains_str(st1.backgrounds, img) {
        } else {
            assert(register(st1.backgrounds, img)[st1.backgrounds.len() as int] == img);
        }
    }
    assert(a.open == OpenV::NoBlock);
    assert(cleanup_spec(a, Keep::KeepNothing) == a);
    assert(register(a.backgrounds, img) == a.backgrounds);
}

/// At end of stream the final cleanup closes an open speaker block with
/// exactly one closing marker, and emits nothing for narration or
/// subtitle, neither being open while a speaker is.
pub proof fn lemma_final_cleanup_speaker(st: StateV, name: Seq<char>)
    requires
        st.open == OpenV::Speaker(name),
    ensures
        ({
            let b = cleanup_spec(st, Keep::KeepNothing);
            &&& b.segs == st.segs.push(speaker_close())
            &&& b.open == OpenV::NoBlock
        }),
{
}

} // verus!
