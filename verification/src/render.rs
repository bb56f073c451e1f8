//! The rendering state machine: consumes typed commands in document order
//! and produces the transcript as a sequence of emitted units, together
//! with the character and background registries.
//!
//! The machine tracks the one open rendering context (speaker, narration
//! or subtitle), the kind of the unit last emitted (so a pending fade or a
//! just-opened branch can be taken back), the decision options still
//! unresolved, and the background most recently applied.

use vstd::prelude::*;
use vstd::string::StringExecFns;

use crate::args::Args;
use crate::args::args_get;
use crate::args::args_remove;
use crate::command::Line;
use crate::command::LineV;
use crate::command::StoryError;
use crate::num::dec_of;
use crate::num::parse_u32_of;
use crate::num::parse_u32_chars;
use crate::patt::join_with;
use crate::patt::views_of;
use crate::text::push_char;
use crate::text::str_chars_vec;
use crate::text::str_eq;
use crate::text::strip_esc;
use crate::text::strip_esc_chars;
use crate::text::trim_of;
use crate::text::trim_chars;

verus! {

/// The kind of the unit last appended to the transcript.
#[derive(Clone, Copy, Debug, PartialEq, Eq, Structural)]
pub enum LastKind {
    Nothing,
    FadeMarker,
    BranchStartMarker,
    Plain,
}

/// Which open context a cleanup pass leaves standing.
#[derive(Clone, Copy, Debug, PartialEq, Eq, Structural)]
pub enum Keep {
    KeepNothing,
    KeepSpeaker,
    KeepNarration,
    KeepSubtitle,
}

/// The open rendering context: at most one block is open at a time.
pub enum OpenBlock {
    NoBlock,
    Speaker(String),
    Narration,
    Subtitle,
}

pub ghost enum OpenV {
    NoBlock,
    Speaker(Seq<char>),
    Narration,
    Subtitle,
}

impl View for OpenBlock {
    type V = OpenV;

    open spec fn view(&self) -> OpenV {
        match self {
            OpenBlock::NoBlock => OpenV::NoBlock,
            OpenBlock::Speaker(s) => OpenV::Speaker(s@),
            OpenBlock::Narration => OpenV::Narration,
            OpenBlock::Subtitle => OpenV::Subtitle,
        }
    }
}

/// The whole render state, one instance per conversion.
pub ghost struct StateV {
    pub segs: Seq<Seq<char>>,
    pub last: LastKind,
    pub backgrounds: Seq<Seq<char>>,
    pub last_background: Seq<char>,
    pub characters: Seq<Seq<char>>,
    pub open: OpenV,
    pub pending: Seq<(Seq<char>, Seq<char>)>,
    pub options_len: nat,
}

pub open spec fn init_spec() -> StateV {
    StateV {
        segs: Seq::empty(),
        last: LastKind::Nothing,
        backgrounds: Seq::empty(),
        last_background: Seq::empty(),
        characters: Seq::empty(),
        open: OpenV::NoBlock,
        pending: Seq::empty(),
        options_len: 0,
    }
}

// ----- the emitted units -----

pub open spec fn fade_marker() -> Seq<char> {
    "{{sc|fades out and in|mode=background}}\n"@
}

pub open spec fn branch_start_marker() -> Seq<char> {
    "{{sc|mode=branchstart}}\n"@
}

pub open spec fn branch_marker() -> Seq<char> {
    "{{sc|mode=branch}}\n"@
}

pub open spec fn branch_end_marker() -> Seq<char> {
    "{{sc|mode=branchend}}\n"@
}

pub open spec fn speaker_close() -> Seq<char> {
    "}}\n"@
}

pub open spec fn narration_close() -> Seq<char> {
    "|mode=speech}}\n"@
}

pub open spec fn subtitle_close() -> Seq<char> {
    "|mode=subtitle}}\n"@
}

pub open spec fn doctor_line(text: Seq<char>) -> Seq<char> {
    "{{sc|Doctor|"@ + text + "}}\n"@
}

// ----- registries -----

pub open spec fn contains_str(ss: Seq<Seq<char>>, x: Seq<char>) -> bool {
    exists|i: int| 0 <= i < ss.len() && ss[i] == x
}

/// Appends a first-seen entry, keeps the registry unchanged otherwise.
pub open spec fn register(ss: Seq<Seq<char>>, x: Seq<char>) -> Seq<Seq<char>> {
    if contains_str(ss, x) {
        ss
    } else {
        ss.push(x)
    }
}

/// The position of the first occurrence.
pub open spec fn index_of_str(ss: Seq<Seq<char>>, x: Seq<char>) -> int
    decreases ss.len(),
{
    if ss.len() == 0 {
        0
    } else if ss[0] == x {
        0
    } else {
        1 + index_of_str(ss.skip(1), x)
    }
}

proof fn lemma_index_first(ss: Seq<Seq<char>>, x: Seq<char>, i: int)
    requires
        0 <= i < ss.len(),
        ss[i] == x,
        forall|j: int| 0 <= j < i ==> ss[j] != x,
    ensures
        index_of_str(ss, x) == i,
    decreases i,
{
    if i > 0 {
        assert(forall|j: int| 0 <= j < i - 1 ==> ss.skip(1)[j] == ss[j + 1]);
        lemma_index_first(ss.skip(1), x, i - 1);
    }
}

// ----- the cleanup rule -----

/// Closes the open context unless it is the one being kept: at most one is
/// open, so at most one closing marker is emitted.
pub open spec fn cleanup_spec(st: StateV, keep: Keep) -> StateV {
    match st.open {
        OpenV::NoBlock => st,
        OpenV::Speaker(_) => if keep == Keep::KeepSpeaker {
            st
        } else {
            StateV {
                segs: st.segs.push(speaker_close()),
                last: LastKind::Plain,
                open: OpenV::NoBlock,
                ..st
            }
        },
        OpenV::Narration => if keep == Keep::KeepNarration {
            st
        } else {
            StateV {
                segs: st.segs.push(narration_close()),
                last: LastKind::Plain,
                open: OpenV::NoBlock,
                ..st
            }
        },
        OpenV::Subtitle => if keep == Keep::KeepSubtitle {
            st
        } else {
            StateV {
                segs: st.segs.push(subtitle_close()),
                last: LastKind::Plain,
                open: OpenV::NoBlock,
                ..st
            }
        },
    }
}

// ----- the per-tag steps -----

/// A background reference: the explicit image or the last one applied;
/// registers it on first sight, supersedes a pending fade, and emits a
/// marker with the assigned sequence id.
pub open spec fn step_background(st: StateV, image: Option<Seq<char>>) -> StateV {
    let img = match image {
        Some(i) => i,
        None => st.last_background,
    };
    let st1 = cleanup_spec(st, Keep::KeepNothing);
    let bgs = register(st1.backgrounds, img);
    let segs1 = if st1.last == LastKind::FadeMarker && st1.segs.len() > 0 {
        st1.segs.drop_last()
    } else {
        st1.segs
    };
    let id = index_of_str(bgs, img) + 1;
    StateV {
        segs: segs1.push("{{sc|"@ + dec_of(id) + "|mode=background}}\n"@),
        last: LastKind::Plain,
        backgrounds: bgs,
        last_background: img,
        ..st1
    }
}

/// A dialogue line: continues the open block of the same speaker, else
/// closes the other speaker's block and opens one for this speaker.
pub open spec fn step_dialogue(st: StateV, name: Seq<char>, text: Seq<char>) -> StateV {
    let st0 = StateV { characters: register(st.characters, name), ..st };
    let st1 = cleanup_spec(st0, Keep::KeepSpeaker);
    match st1.open {
        OpenV::Speaker(cur) => if cur == name {
            StateV { segs: st1.segs.push("<br/>"@ + trim_of(text)), last: LastKind::Plain, ..st1 }
        } else {
            StateV {
                segs: st1.segs.push(speaker_close()).push("{{sc|"@ + name + "|"@ + trim_of(text)),
                last: LastKind::Plain,
                open: OpenV::Speaker(name),
                ..st1
            }
        },
        _ => StateV {
            segs: st1.segs.push("{{sc|"@ + name + "|"@ + trim_of(text)),
            last: LastKind::Plain,
            open: OpenV::Speaker(name),
            ..st1
        },
    }
}

/// Narration (and a sticker with text): continues or opens the narration
/// block; escaped newlines are deleted from the trimmed text.
pub open spec fn step_narration(st: StateV, text: Seq<char>) -> StateV {
    let st1 = cleanup_spec(st, Keep::KeepNarration);
    let t = strip_esc(trim_of(text));
    match st1.open {
        OpenV::Narration => StateV {
            segs: st1.segs.push("<br/>"@ + t),
            last: LastKind::Plain,
            ..st1
        },
        _ => StateV {
            segs: st1.segs.push("{{sc|"@ + t),
            last: LastKind::Plain,
            open: OpenV::Narration,
            ..st1
        },
    }
}

/// A subtitle with text: continues or opens the subtitle block.
pub open spec fn step_subtitle(st: StateV, text: Seq<char>) -> StateV {
    let st1 = cleanup_spec(st, Keep::KeepSubtitle);
    let t = trim_of(text);
    match st1.open {
        OpenV::Subtitle => StateV {
            segs: st1.segs.push("<br/>"@ + t),
            last: LastKind::Plain,
            ..st1
        },
        _ => StateV {
            segs: st1.segs.push("{{sc|"@ + t),
            last: LastKind::Plain,
            open: OpenV::Subtitle,
            ..st1
        },
    }
}

/// A decision: several options open a branch; a single option resolves at
/// once, bypassing the branch machinery.
pub open spec fn step_decision(st: StateV, options: Seq<(Seq<char>, Seq<char>)>) -> StateV {
    let st0 = StateV { characters: register(st.characters, "Doctor"@), ..st };
    let st1 = cleanup_spec(st0, Keep::KeepNothing);
    let st2 = StateV { pending: options, options_len: options.len(), ..st1 };
    if options.len() > 1 {
        StateV {
            segs: st2.segs.push(branch_start_marker()),
            last: LastKind::BranchStartMarker,
            ..st2
        }
    } else if options.len() == 1 {
        StateV { segs: st2.segs.push(doctor_line(options[0].1)), last: LastKind::Plain, ..st2 }
    } else {
        st2
    }
}

pub open spec fn keys_numeric(opts: Seq<(Seq<char>, Seq<char>)>) -> bool {
    forall|i: int| 0 <= i < opts.len() ==> parse_u32_of(opts[i].0) is Some
}

/// An option's key read as a number; only used where every key parses.
pub open spec fn key_val(p: (Seq<char>, Seq<char>)) -> int {
    match parse_u32_of(p.0) {
        Some(n) => n as int,
        None => 0,
    }
}

/// Stable insertion before the first option with an equal or larger key.
pub open spec fn sort_insert(
    x: (Seq<char>, Seq<char>),
    s: Seq<(Seq<char>, Seq<char>)>,
) -> Seq<(Seq<char>, Seq<char>)>
    decreases s.len(),
{
    if s.len() == 0 {
        seq![x]
    } else if key_val(x) <= key_val(s[0]) {
        seq![x] + s
    } else {
        seq![s[0]] + sort_insert(x, s.skip(1))
    }
}

/// The options ordered by numeric key, ascending, stably.
pub open spec fn sort_opts(s: Seq<(Seq<char>, Seq<char>)>) -> Seq<(Seq<char>, Seq<char>)>
    decreases s.len(),
{
    if s.len() == 0 {
        s
    } else {
        sort_insert(s[0], sort_opts(s.skip(1)))
    }
}

/// The combined resolved line of a joined branch.
pub open spec fn joined_options(opts: Seq<(Seq<char>, Seq<char>)>) -> Seq<char> {
    join_with(sort_opts(opts).map_values(|p: (Seq<char>, Seq<char>)| p.1), " / "@)
}

/// A predicate: an empty reference list is a no-op; several references
/// join or end the branch; a single reference resolves one pending option.
pub open spec fn step_predicate(st: StateV, references: Seq<Seq<char>>) -> Result<
    StateV,
    StoryError,
> {
    let st1 = cleanup_spec(st, Keep::KeepNothing);
    if references.len() == 0 {
        Ok(st1)
    } else if references.len() > 1 {
        if st1.pending.len() == references.len() {
            if st1.last == LastKind::BranchStartMarker {
                if keys_numeric(st1.pending) {
                    let segs1 = if st1.segs.len() > 0 {
                        st1.segs.drop_last()
                    } else {
                        st1.segs
                    };
                    Ok(
                        StateV {
                            segs: segs1.push(doctor_line(joined_options(st1.pending))),
                            last: LastKind::Plain,
                            ..st1
                        },
                    )
                } else {
                    Err(StoryError::BadDecisionKey)
                }
            } else {
                Ok(st1)
            }
        } else {
            Ok(
                StateV {
                    segs: st1.segs.push(branch_end_marker()),
                    last: LastKind::Plain,
                    ..st1
                },
            )
        }
    } else {
        if st1.pending.len() == 0 {
            Ok(st1)
        } else if st1.options_len > 1 {
            match args_get(st1.pending, references[0]) {
                Some(sel) => {
                    let st2 = StateV { pending: args_remove(st1.pending, references[0]), ..st1 };
                    let st3 = if st2.last == LastKind::BranchStartMarker {
                        st2
                    } else {
                        StateV {
                            segs: st2.segs.push(branch_marker()),
                            last: LastKind::Plain,
                            ..st2
                        }
                    };
                    Ok(
                        StateV {
                            segs: st3.segs.push(doctor_line(sel)),
                            last: LastKind::Plain,
                            ..st3
                        },
                    )
                },
                None => Ok(st1),
            }
        } else {
            Ok(st1)
        }
    }
}

/// A blocker at full opacity: a fade transition; anything else: a no-op.
pub open spec fn step_blocker(st: StateV, full_alpha: bool) -> StateV {
    if full_alpha {
        let st1 = cleanup_spec(st, Keep::KeepNothing);
        StateV { segs: st1.segs.push(fade_marker()), last: LastKind::FadeMarker, ..st1 }
    } else {
        st
    }
}

/// An image with a present image field.
pub open spec fn step_image(st: StateV, image: Seq<char>) -> StateV {
    let st1 = cleanup_spec(st, Keep::KeepNothing);
    StateV {
        segs: st1.segs.push("{{sc|"@ + image + "|mode=image}}\n"@),
        last: LastKind::Plain,
        ..st1
    }
}

/// A grayscale camera effect toggles the flashback marker; other effects
/// are no-ops.
pub open spec fn step_camera(st: StateV, effect: Seq<char>, zero_amount: bool) -> StateV {
    if effect == "grayscale"@ {
        let st1 = cleanup_spec(st, Keep::KeepNothing);
        let m = if zero_amount {
            "{{sc|mode=flashbackend}}\n"@
        } else {
            "{{sc|mode=flashbackstart}}\n"@
        };
        StateV { segs: st1.segs.push(m), last: LastKind::Plain, ..st1 }
    } else {
        st
    }
}

/// One command's whole effect on the state.
pub open spec fn step_spec(st: StateV, l: LineV) -> Result<StateV, StoryError> {
    match l {
        LineV::Background { image, .. } => Ok(step_background(st, image)),
        LineV::Line { name, text } => Ok(step_dialogue(st, name, text)),
        LineV::Multiline { name, text } => Ok(step_dialogue(st, name, text)),
        LineV::Narration { text } => Ok(step_narration(st, text)),
        LineV::Sticker { text } => match text {
            Some(t) => Ok(step_narration(st, t)),
            None => Ok(st),
        },
        LineV::Subtitle { text } => match text {
            Some(t) => Ok(step_subtitle(st, t)),
            None => Ok(st),
        },
        LineV::Decision { options } => Ok(step_decision(st, options)),
        LineV::Predicate { references } => step_predicate(st, references),
        LineV::Blocker { full_alpha, .. } => Ok(step_blocker(st, full_alpha)),
        LineV::Image { image } => match image {
            Some(img) => Ok(step_image(st, img)),
            None => Ok(st),
        },
        LineV::CameraEffect { effect, zero_amount } => match effect {
            Some(e) => Ok(step_camera(st, e, zero_amount)),
            None => Ok(st),
        },
        LineV::Other { .. } => Ok(st),
    }
}

// ----- sorting the joined options -----

pub open spec fn pairs_view(s: Seq<(String, String)>) -> Seq<(Seq<char>, Seq<char>)> {
    Seq::new(s.len(), |i: int| (s[i].0@, s[i].1@))
}

proof fn lemma_sort_insert_at(
    x: (Seq<char>, Seq<char>),
    s: Seq<(Seq<char>, Seq<char>)>,
    pos: int,
)
    requires
        0 <= pos <= s.len(),
        forall|j: int| 0 <= j < pos ==> key_val(s[j]) < key_val(x),
        pos < s.len() ==> key_val(x) <= key_val(s[pos]),
    ensures
        sort_insert(x, s) =~= s.take(pos) + seq![x] + s.skip(pos),
    decreases pos,
{
    if pos == 0 {
        if s.len() == 0 {
            assert(sort_insert(x, s) =~= seq![x]);
        } else {
            assert(sort_insert(x, s) == seq![x] + s);
        }
    } else {
        assert(key_val(s[0]) < key_val(x));
        assert(forall|j: int| 0 <= j < pos - 1 ==> s.skip(1)[j] == s[j + 1]);
        if pos - 1 < s.skip(1).len() {
            assert(s.skip(1)[pos - 1] == s[pos]);
        }
        lemma_sort_insert_at(x, s.skip(1), pos - 1);
        assert(seq![s[0]] + (s.skip(1).take(pos - 1) + seq![x] + s.skip(1).skip(pos - 1)) =~= s.take(
            pos,
        ) + seq![x] + s.skip(pos));
    }
}

/// Inserts one option into a key-sorted run, stably.
fn insert_sorted_pair(x: (String, String), v: Vec<(String, String)>) -> (r: Vec<
    (String, String),
>)
    requires
        parse_u32_of(x.0@) is Some,
        keys_numeric(pairs_view(v@)),
    ensures
        pairs_view(r@) == sort_insert((x.0@, x.1@), pairs_view(v@)),
        keys_numeric(pairs_view(r@)),
{
    let kx = match parse_u32_chars(&str_chars_vec(x.0.as_str())) {
        Some(n) => n,
        None => {
            proof {
                assert(false);
            }
            0
        },
    };
    let mut pos: usize = 0;
    loop
        invariant_except_break
            pos <= v@.len(),
            parse_u32_of(x.0@) == Some(kx),
            keys_numeric(pairs_view(v@)),
            forall|j: int| 0 <= j < pos ==> key_val(pairs_view(v@)[j]) < kx as int,
        ensures
            pos <= v@.len(),
            parse_u32_of(x.0@) == Some(kx),
            forall|j: int| 0 <= j < pos ==> key_val(pairs_view(v@)[j]) < kx as int,
            pos < v@.len() ==> kx as int <= key_val(pairs_view(v@)[pos as int]),
        decreases v@.len() - pos,
    {
        if pos >= v.len() {
            break ;
        }
        proof {
            assert(pairs_view(v@)[pos as int].0 == v@[pos as int].0@);
        }
        let kv = match parse_u32_chars(&str_chars_vec(v[pos].0.as_str())) {
            Some(n) => n,
            None => {
                proof {
                    assert(false);
                }
                0
            },
        };
        if kv < kx {
            pos = pos + 1;
        } else {
            break ;
        }
    }
    let mut r = v;
    let ghost v0 = pairs_view(r@);
    r.insert(pos, x);
    proof {
        lemma_sort_insert_at((x.0@, x.1@), v0, pos as int);
        assert(pairs_view(r@) =~= v0.take(pos as int) + seq![(x.0@, x.1@)] + v0.skip(pos as int));
        assert(keys_numeric(pairs_view(r@)));
    }
    r
}

/// Orders the pending options by numeric key; fails when a key is not a
/// decimal number.
fn sort_pending(opts: &Args) -> (r: Result<Vec<(String, String)>, StoryError>)
    ensures
        match r {
            Ok(v) => keys_numeric(opts@) && pairs_view(v@) == sort_opts(opts@),
            Err(e) => e == StoryError::BadDecisionKey && !keys_numeric(opts@),
        },
{
    let mut i: usize = 0;
    while i < opts.entries.len()
        invariant
            i <= opts.entries@.len(),
            forall|j: int| 0 <= j < i ==> parse_u32_of(opts@[j].0) is Some,
        decreases opts.entries@.len() - i,
    {
        proof {
            assert(opts@[i as int].0 == opts.entries@[i as int].0@);
        }
        match parse_u32_chars(&str_chars_vec(opts.entries[i].0.as_str())) {
            None => {
                return Err(StoryError::BadDecisionKey);
            },
            Some(_) => {},
        }
        i = i + 1;
    }
    let mut r: Vec<(String, String)> = Vec::new();
    let mut i: usize = opts.entries.len();
    proof {
        assert(opts@.skip(opts@.len() as int) =~= Seq::<(Seq<char>, Seq<char>)>::empty());
        assert(pairs_view(r@) =~= Seq::<(Seq<char>, Seq<char>)>::empty());
    }
    while i > 0
        invariant
            i <= opts.entries@.len(),
            opts@.len() == opts.entries@.len(),
            forall|j: int| 0 <= j < opts@.len() ==> parse_u32_of(opts@[j].0) is Some,
            pairs_view(r@) == sort_opts(opts@.skip(i as int)),
            keys_numeric(pairs_view(r@)),
        decreases i,
    {
        i = i - 1;
        let k = opts.entries[i].0.clone();
        let tv = opts.entries[i].1.clone();
        proof {
            assert(opts@[i as int] == (k@, tv@));
            assert(opts@.skip(i as int)[0] == opts@[i as int]);
            assert(opts@.skip(i as int).skip(1) =~= opts@.skip(i + 1));
        }
        r = insert_sorted_pair((k, tv), r);
    }
    proof {
        assert(opts@.skip(0) =~= opts@);
    }
    Ok(r)
}

// ----- the executable state -----

/// The render state: the emitted units, the registries, and the open
/// context, as the state machine above describes them.
pub struct RenderState {
    pub segs: Vec<String>,
    pub last: LastKind,
    pub backgrounds: Vec<String>,
    pub last_background: String,
    pub characters: Vec<String>,
    pub open: OpenBlock,
    pub pending: Args,
    pub options_len: usize,
}

impl View for RenderState {
    type V = StateV;

    open spec fn view(&self) -> StateV {
        StateV {
            segs: views_of(self.segs@),
            last: self.last,
            backgrounds: views_of(self.backgrounds@),
            last_background: self.last_background@,
            characters: views_of(self.characters@),
            open: self.open@,
            pending: self.pending@,
            options_len: self.options_len as nat,
        }
    }
}

impl RenderState {
    pub fn new() -> (st: RenderState)
        ensures
            st@ == init_spec(),
    {
        let st = RenderState {
            segs: Vec::new(),
            last: LastKind::Nothing,
            backgrounds: Vec::new(),
            last_background: String::new(),
            characters: Vec::new(),
            open: OpenBlock::NoBlock,
            pending: Args::new(),
            options_len: 0,
        };
        proof {
            assert(st@.segs =~= init_spec().segs);
            assert(st@.backgrounds =~= init_spec().backgrounds);
            assert(st@.characters =~= init_spec().characters);
            assert(st@.pending =~= init_spec().pending);
        }
        st
    }

    fn push_seg(&mut self, s: String, k: LastKind)
        ensures
            final(self)@ == (StateV { segs: old(self)@.segs.push(s@), last: k, ..old(self)@ }),
    {
        self.segs.push(s);
        self.last = k;
        proof {
            assert(self@.segs =~= old(self)@.segs.push(s@));
        }
    }

    /// Closes whichever context is open, except the one being kept.
    fn close_blocks(&mut self, keep: Keep)
        ensures
            final(self)@ == cleanup_spec(old(self)@, keep),
    {
        let close: Option<&str> = match &self.open {
            OpenBlock::NoBlock => None,
            OpenBlock::Speaker(_) => if keep == Keep::KeepSpeaker {
                None
            } else {
                Some("}}\n")
            },
            OpenBlock::Narration => if keep == Keep::KeepNarration {
                None
            } else {
                Some("|mode=speech}}\n")
            },
            OpenBlock::Subtitle => if keep == Keep::KeepSubtitle {
                None
            } else {
                Some("|mode=subtitle}}\n")
            },
        };
        match close {
            Some(m) => {
                self.push_seg(String::from_str(m), LastKind::Plain);
                self.open = OpenBlock::NoBlock;
            },
            None => {},
        }
    }

    /// The open-context cleanup rule: closes the open block, whichever of
    /// the three it is, and emits its closing marker.
    pub fn cleanup_open_tags(&mut self)
        ensures
            final(self)@ == cleanup_spec(old(self)@, Keep::KeepNothing),
    {
        self.close_blocks(Keep::KeepNothing);
    }

    /// Registers a first-seen name in a registry vector.
    fn register_in(v: &mut Vec<String>, name: &String)
        ensures
            views_of(final(v)@) == register(views_of(old(v)@), name@),
            contains_str(views_of(final(v)@), name@),
    {
        let mut i: usize = 0;
        while i < v.len()
            invariant
                i <= v@.len(),
                forall|j: int| 0 <= j < i ==> views_of(v@)[j] != name@,
                v@ == old(v)@,
            decreases v@.len() - i,
        {
            if str_eq(v[i].as_str(), name.as_str()) {
                proof {
                    assert(views_of(v@)[i as int] == name@);
                    assert(contains_str(views_of(v@), name@));
                }
                return ;
            }
            i = i + 1;
        }
        proof {
            assert(!contains_str(views_of(old(v)@), name@));
        }
        v.push(name.clone());
        proof {
            assert(views_of(v@) =~= views_of(old(v)@).push(name@));
            assert(views_of(v@)[views_of(v@).len() - 1] == name@);
        }
    }

    /// A background reference, resolved and registered.
    fn emit_background(&mut self, image: &Option<String>)
        ensures
            final(self)@ == step_background(old(self)@, crate::command::opt_view(*image)),
    {
        let img: String = match image {
            Some(i) => i.clone(),
            None => self.last_background.clone(),
        };
        self.close_blocks(Keep::KeepNothing);
        Self::register_in(&mut self.backgrounds, &img);
        if self.last == LastKind::FadeMarker && self.segs.len() > 0 {
            let ghost segs0 = views_of(self.segs@);
            self.segs.pop();
            proof {
                assert(views_of(self.segs@) =~= segs0.drop_last());
            }
        }
        let nbg = self.backgrounds.len();
        let id = match Self::find_index(&self.backgrounds, &img) {
            Some(i) => i,
            None => {
                proof {
                    assert(false);
                }
                0
            },
        };
        proof {
            assert(id < nbg);
        }
        let mut seg = String::from_str("{{sc|");
        crate::num::push_dec(&mut seg, id + 1);
        seg.append("|mode=background}}\n");
        self.push_seg(seg, LastKind::Plain);
        self.last_background = img;
    }

    /// A dialogue line of a named speaker.
    fn emit_dialogue(&mut self, name: &String, text: &String)
        ensures
            final(self)@ == step_dialogue(old(self)@, name@, text@),
    {
        Self::register_in(&mut self.characters, name);
        self.close_blocks(Keep::KeepSpeaker);
        let same = match &self.open {
            OpenBlock::Speaker(cur) => str_eq(cur.as_str(), name.as_str()),
            _ => false,
        };
        let t = trim_chars(&str_chars_vec(text.as_str()));
        if same {
            let mut seg = String::from_str("<br/>");
            seg.append(t.as_str());
            self.push_seg(seg, LastKind::Plain);
        } else {
            let was_open = matches!(&self.open, OpenBlock::Speaker(_));
            if was_open {
                self.push_seg(String::from_str("}}\n"), LastKind::Plain);
            }
            let mut seg = String::from_str("{{sc|");
            seg.append(name.as_str());
            seg.append("|");
            seg.append(t.as_str());
            self.push_seg(seg, LastKind::Plain);
            self.open = OpenBlock::Speaker(name.clone());
        }
    }

    /// Narration, or a sticker with text.
    fn emit_narration(&mut self, text: &String)
        ensures
            final(self)@ == step_narration(old(self)@, text@),
    {
        self.close_blocks(Keep::KeepNarration);
        let t1 = trim_chars(&str_chars_vec(text.as_str()));
        let t = strip_esc_chars(&str_chars_vec(t1.as_str()));
        let open_already = matches!(&self.open, OpenBlock::Narration);
        if open_already {
            let mut seg = String::from_str("<br/>");
            seg.append(t.as_str());
            self.push_seg(seg, LastKind::Plain);
        } else {
            let mut seg = String::from_str("{{sc|");
            seg.append(t.as_str());
            self.push_seg(seg, LastKind::Plain);
            self.open = OpenBlock::Narration;
        }
    }

    /// A subtitle with text.
    fn emit_subtitle(&mut self, text: &String)
        ensures
            final(self)@ == step_subtitle(old(self)@, text@),
    {
        self.close_blocks(Keep::KeepSubtitle);
        let t = trim_chars(&str_chars_vec(text.as_str()));
        let open_already = matches!(&self.open, OpenBlock::Subtitle);
        if open_already {
            let mut seg = String::from_str("<br/>");
            seg.append(t.as_str());
            self.push_seg(seg, LastKind::Plain);
        } else {
            let mut seg = String::from_str("{{sc|");
            seg.append(t.as_str());
            self.push_seg(seg, LastKind::Plain);
            self.open = OpenBlock::Subtitle;
        }
    }

    /// A decision's options, stored as pending and opened or resolved.
    fn emit_decision(&mut self, options: &Args)
        ensures
            final(self)@ == step_decision(old(self)@, options@),
    {
        let doctor = String::from_str("Doctor");
        Self::register_in(&mut self.characters, &doctor);
        self.close_blocks(Keep::KeepNothing);
        self.pending = options.copy_of();
        self.options_len = options.len();
        let n = options.len();
        if n > 1 {
            self.push_seg(
                String::from_str("{{sc|mode=branchstart}}\n"),
                LastKind::BranchStartMarker,
            );
        } else if n == 1 {
            let sel = options.entries[0].1.clone();
            proof {
                assert(options@[0].1 == options.entries@[0].1@);
            }
            let mut seg = String::from_str("{{sc|Doctor|");
            seg.append(sel.as_str());
            seg.append("}}\n");
            self.push_seg(seg, LastKind::Plain);
        }
    }

    /// A predicate's references, resolving or closing the open branch.
    fn emit_predicate(&mut self, references: &Vec<String>) -> (r: Result<(), StoryError>)
        ensures
            match step_predicate(old(self)@, views_of(references@)) {
                Ok(st) => r is Ok && final(self)@ == st,
                Err(e) => r == Err::<(), StoryError>(e),
            },
    {
        self.close_blocks(Keep::KeepNothing);
        if references.len() == 0 {
            return Ok(());
        }
        if references.len() > 1 {
            if self.pending.len() == references.len() {
                if self.last == LastKind::BranchStartMarker {
                    let sorted = match sort_pending(&self.pending) {
                        Ok(v) => v,
                        Err(e) => {
                            return Err(e);
                        },
                    };
                    let mut texts: Vec<String> = Vec::new();
                    let mut i: usize = 0;
                    while i < sorted.len()
                        invariant
                            i <= sorted@.len(),
                            texts@.len() == i,
                            forall|j: int| 0 <= j < i ==> texts@[j]@ == sorted@[j].1@,
                        decreases sorted@.len() - i,
                    {
                        let s = sorted[i].1.clone();
                        texts.push(s);
                        i = i + 1;
                    }
                    proof {
                        assert(views_of(texts@) =~= pairs_view(sorted@).map_values(
                            |p: (Seq<char>, Seq<char>)| p.1,
                        ));
                    }
                    let sep = str_chars_vec(" / ");
                    let joined = crate::patt::join_strings(&texts, &sep);
                    if self.segs.len() > 0 {
                        let ghost segs0 = views_of(self.segs@);
                        self.segs.pop();
                        proof {
                            assert(views_of(self.segs@) =~= segs0.drop_last());
                        }
                    }
                    let mut seg = String::from_str("{{sc|Doctor|");
                    seg.append(joined.as_str());
                    seg.append("}}\n");
                    self.push_seg(seg, LastKind::Plain);
                }
            } else {
                self.push_seg(String::from_str("{{sc|mode=branchend}}\n"), LastKind::Plain);
            }
            return Ok(());
        }
        if self.pending.len() == 0 {
            return Ok(());
        }
        if self.options_len > 1 {
            let key = &references[0];
            proof {
                assert(views_of(references@)[0] == references@[0]@);
            }
            let removed = self.pending.remove(key.as_str());
            match removed {
                Some(sel) => {
                    if self.last != LastKind::BranchStartMarker {
                        self.push_seg(String::from_str("{{sc|mode=branch}}\n"), LastKind::Plain);
                    }
                    let mut seg = String::from_str("{{sc|Doctor|");
                    seg.append(sel.as_str());
                    seg.append("}}\n");
                    self.push_seg(seg, LastKind::Plain);
                },
                None => {
                    proof {
                        crate::args::lemma_args_remove_absent(
                            old(self)@.pending,
                            views_of(references@)[0],
                        );
                    }
                },
            }
        }
        Ok(())
    }

    /// One command's whole effect on the state.
    pub fn render_line(&mut self, l: &Line) -> (r: Result<(), StoryError>)
        ensures
            match step_spec(old(self)@, l@) {
                Ok(st) => r is Ok && final(self)@ == st,
                Err(e) => r == Err::<(), StoryError>(e),
            },
    {
        match l {
            Line::Background { image, .. } => {
                self.emit_background(image);
                Ok(())
            },
            Line::Line { name, text } => {
                self.emit_dialogue(name, text);
                Ok(())
            },
            Line::Multiline { name, text } => {
                self.emit_dialogue(name, text);
                Ok(())
            },
            Line::Narration { text } => {
                self.emit_narration(text);
                Ok(())
            },
            Line::Sticker { text } => {
                match text {
                    Some(t) => self.emit_narration(t),
                    None => {},
                }
                Ok(())
            },
            Line::Subtitle { text } => {
                match text {
                    Some(t) => self.emit_subtitle(t),
                    None => {},
                }
                Ok(())
            },
            Line::Decision { options } => {
                self.emit_decision(options);
                Ok(())
            },
            Line::Predicate { references } => self.emit_predicate(references),
            Line::Blocker { full_alpha, .. } => {
                if *full_alpha {
                    self.close_blocks(Keep::KeepNothing);
                    self.push_seg(
                        String::from_str("{{sc|fades out and in|mode=background}}\n"),
                        LastKind::FadeMarker,
                    );
                }
                Ok(())
            },
            Line::Image { image } => {
                match image {
                    Some(img) => {
                        self.close_blocks(Keep::KeepNothing);
                        let mut seg = String::from_str("{{sc|");
                        seg.append(img.as_str());
                        seg.append("|mode=image}}\n");
                        self.push_seg(seg, LastKind::Plain);
                    },
                    None => {},
                }
                Ok(())
            },
            Line::CameraEffect { effect, zero_amount } => {
                match effect {
                    Some(e) => {
                        if str_eq(e.as_str(), "grayscale") {
                            self.close_blocks(Keep::KeepNothing);
                            let m = if *zero_amount {
                                "{{sc|mode=flashbackend}}\n"
                            } else {
                                "{{sc|mode=flashbackstart}}\n"
                            };
                            self.push_seg(String::from_str(m), LastKind::Plain);
                        }
                    },
                    None => {},
                }
                Ok(())
            },
            Line::Other { .. } => Ok(()),
        }
    }

    /// The position of a registered name.
    fn find_index(v: &Vec<String>, name: &String) -> (r: Option<usize>)
        ensures
            match r {
                Some(i) => i < v@.len() && index_of_str(views_of(v@), name@) == i as int
                    && views_of(v@)[i as int] == name@,
                None => !contains_str(views_of(v@), name@),
            },
    {
        let mut i: usize = 0;
        while i < v.len()
            invariant
                i <= v@.len(),
                forall|j: int| 0 <= j < i ==> views_of(v@)[j] != name@,
            decreases v@.len() - i,
        {
            if str_eq(v[i].as_str(), name.as_str()) {
                proof {
                    lemma_index_first(views_of(v@), name@, i as int);
                }
                return Some(i);
            }
            i = i + 1;
        }
        None
    }
}

} // verus!
