use akstorytowiki::Line;
use akstorytowiki::StoryError;
use akstorytowiki::parse_line;
use akstorytowiki::story_to_wiki;

fn convert(s: &str) -> String {
    story_to_wiki(s.to_string()).unwrap()
}

#[test]
fn empty_script_gives_bare_header() {
    assert_eq!(convert(""), "|chars =\n|bgs = \n\n\n");
}

#[test]
fn background_without_image_uses_last_background() {
    // never set: the empty identifier is registered under id one
    assert_eq!(
        convert("[Background]"),
        "|chars =\n|bgs = {{si|mode=bg||1}}\n\n\n{{sc|1|mode=background}}"
    );
}

#[test]
fn background_without_image_repeats_previous() {
    let out = convert("[Background image=\"room\"]\n[Background]");
    assert_eq!(
        out,
        "|chars =\n|bgs = {{si|mode=bg|room|1}}\n\n\n{{sc|1|mode=background}}\n{{sc|1|mode=background}}"
    );
}

#[test]
fn background_ids_count_up_in_first_seen_order() {
    let out = convert("[Background image=\"a\"]\n[Background image=\"b\"]\n[Background image=\"c\"]\n[Background image=\"b\"]");
    assert_eq!(
        out,
        "|chars =\n|bgs = {{si|mode=bg|a|1}}{{si|mode=bg|b|2}}{{si|mode=bg|c|3}}\n\n\n\
         {{sc|1|mode=background}}\n{{sc|2|mode=background}}\n{{sc|3|mode=background}}\n{{sc|2|mode=background}}"
    );
}

#[test]
fn same_speaker_lines_continue_one_block() {
    let out = convert("[name=\"Ace\"]Hello\n[name=\"Ace\"]World");
    assert_eq!(
        out,
        "|chars = {{si|mode=char|Ace}}\n|bgs = \n\n\n{{sc|Ace|Hello<br/>World}}"
    );
}

#[test]
fn speaker_change_closes_and_reopens() {
    let out = convert("[name=\"Ace\"]Hi\n[name=\"Bob\"]Yo");
    assert_eq!(
        out,
        "|chars = {{si|mode=char|Ace}}{{si|mode=char|Bob}}\n|bgs = \n\n\n{{sc|Ace|Hi}}\n{{sc|Bob|Yo}}"
    );
}

#[test]
fn open_speaker_block_closed_once_at_end_of_stream() {
    assert_eq!(
        convert("[name=\"Ace\"]Hi"),
        "|chars = {{si|mode=char|Ace}}\n|bgs = \n\n\n{{sc|Ace|Hi}}"
    );
}

#[test]
fn dialogue_text_is_trimmed() {
    let out = convert("[name=\"Ace\"]   spaced out   ");
    assert_eq!(
        out,
        "|chars = {{si|mode=char|Ace}}\n|bgs = \n\n\n{{sc|Ace|spaced out}}"
    );
}

#[test]
fn multiline_tag_behaves_like_line() {
    let out = convert("[multiline name=\"Ace\"]One\n[multiline name=\"Ace\"]Two");
    assert_eq!(
        out,
        "|chars = {{si|mode=char|Ace}}\n|bgs = \n\n\n{{sc|Ace|One<br/>Two}}"
    );
}

#[test]
fn narration_opens_speech_block_and_strips_escaped_newlines() {
    let out = convert("First part\\nof it\nSecond");
    assert_eq!(
        out,
        "|chars =\n|bgs = \n\n\n{{sc|First partof it<br/>Second|mode=speech}}"
    );
}

#[test]
fn narration_closes_speaker_block() {
    let out = convert("[name=\"Ace\"]Hi\nThen silence.");
    assert_eq!(
        out,
        "|chars = {{si|mode=char|Ace}}\n|bgs = \n\n\n{{sc|Ace|Hi}}\n{{sc|Then silence.|mode=speech}}"
    );
}

#[test]
fn subtitle_block_opens_and_closes() {
    let out = convert("[subtitle text=\"Boom\"]\n[subtitle text=\"Bang\"]");
    assert_eq!(
        out,
        "|chars =\n|bgs = \n\n\n{{sc|Boom<br/>Bang|mode=subtitle}}"
    );
}

#[test]
fn subtitle_without_text_is_a_no_op() {
    assert_eq!(convert("[subtitle]"), "|chars =\n|bgs = \n\n\n");
}

#[test]
fn sticker_with_text_behaves_like_narration() {
    let out = convert("[sticker text=\"A date later\"]");
    assert_eq!(
        out,
        "|chars =\n|bgs = \n\n\n{{sc|A date later|mode=speech}}"
    );
}

#[test]
fn joined_predicate_resolves_options_in_numeric_order() {
    let out = convert("[Decision values=\"2;1\", options=\"No;Yes\"]\n[Predicate references=\"1;2\"]");
    assert_eq!(
        out,
        "|chars = {{si|mode=char|Doctor}}\n|bgs = \n\n\n{{sc|Doctor|Yes / No}}"
    );
}

#[test]
fn single_option_decision_resolves_immediately() {
    let out = convert("[Decision values=\"1\", options=\"Go\"]");
    assert_eq!(
        out,
        "|chars = {{si|mode=char|Doctor}}\n|bgs = \n\n\n{{sc|Doctor|Go}}"
    );
    assert!(!out.contains("branchstart"));
}

#[test]
fn per_option_predicates_mark_branches() {
    let out = convert(
        "[Decision values=\"1;2\", options=\"A;B\"]\n[Predicate references=\"1\"]\n[name=\"Ace\"]first\n[Predicate references=\"2\"]\n[name=\"Ace\"]second",
    );
    assert_eq!(
        out,
        "|chars = {{si|mode=char|Doctor}}{{si|mode=char|Ace}}\n|bgs = \n\n\n\
         {{sc|mode=branchstart}}\n{{sc|Doctor|A}}\n{{sc|Ace|first}}\n{{sc|mode=branch}}\n{{sc|Doctor|B}}\n{{sc|Ace|second}}"
    );
}

#[test]
fn mismatched_reference_count_ends_the_branch() {
    let out = convert("[Decision values=\"1;2\", options=\"A;B\"]\n[Predicate references=\"1;2;3\"]");
    assert_eq!(
        out,
        "|chars = {{si|mode=char|Doctor}}\n|bgs = \n\n\n{{sc|mode=branchstart}}\n{{sc|mode=branchend}}"
    );
}

#[test]
fn full_alpha_blocker_emits_fade_unless_background_follows() {
    let kept = convert("[Blocker a=\"1\", block=\"true\"]");
    assert_eq!(
        kept,
        "|chars =\n|bgs = \n\n\n{{sc|fades out and in|mode=background}}"
    );
    let superseded = convert("[Blocker a=\"1\", block=\"true\"]\n[Background image=\"room\"]");
    assert_eq!(
        superseded,
        "|chars =\n|bgs = {{si|mode=bg|room|1}}\n\n\n{{sc|1|mode=background}}"
    );
}

#[test]
fn partial_alpha_blocker_is_a_no_op() {
    assert_eq!(convert("[Blocker a=\"0.5\", block=\"true\"]"), "|chars =\n|bgs = \n\n\n");
}

#[test]
fn grayscale_camera_effect_toggles_flashback() {
    let start = convert("[cameraeffect effect=\"Grayscale\", amount=\"1\"]");
    assert_eq!(start, "|chars =\n|bgs = \n\n\n{{sc|mode=flashbackstart}}");
    let end = convert("[cameraeffect effect=\"Grayscale\", amount=\"0\"]");
    assert_eq!(end, "|chars =\n|bgs = \n\n\n{{sc|mode=flashbackend}}");
    let other = convert("[cameraeffect effect=\"Blur\", amount=\"1\"]");
    assert_eq!(other, "|chars =\n|bgs = \n\n\n");
}

#[test]
fn image_command_emits_reference() {
    assert_eq!(
        convert("[image image=\"portrait\"]"),
        "|chars =\n|bgs = \n\n\n{{sc|portrait|mode=image}}"
    );
}

#[test]
fn unknown_tags_are_no_ops() {
    assert_eq!(
        convert("[playsound key=\"bang\"]\n[delay time=\"2\"]"),
        "|chars =\n|bgs = \n\n\n"
    );
}

#[test]
fn animtext_reverses_pause_fragments() {
    match parse_line("[animtext size=\"16\"]A<p=2>B<p=2>C</>") {
        Ok(Line::Subtitle { text: Some(t) }) => assert_eq!(t, "C<br/>B<br/>A"),
        _ => panic!("expected a subtitle with text"),
    }
}

#[test]
fn animtext_strips_bare_markers() {
    match parse_line("[animtext size=\"16\"]<p=1>only</>") {
        Ok(Line::Subtitle { text: Some(t) }) => assert_eq!(t, "only"),
        _ => panic!("expected a subtitle with text"),
    }
}

#[test]
fn quoted_values_keep_spaces_and_commas() {
    match parse_line("[line name=\"Dr. Grey, MD\"]Hi there") {
        Ok(Line::Line { name, text }) => {
            assert_eq!(name, "Dr. Grey, MD");
            assert_eq!(text, "Hi there");
        },
        _ => panic!("expected a dialogue line"),
    }
}

#[test]
fn unquoted_spaces_and_parens_are_skipped() {
    match parse_line("[line name=Ace)]text") {
        Ok(Line::Line { name, text }) => {
            assert_eq!(name, "Ace");
            assert_eq!(text, "text");
        },
        _ => panic!("expected a dialogue line"),
    }
}

#[test]
fn header_shorthand_reads_as_dialogue() {
    match parse_line("[name=\"Ace\"]Hello") {
        Ok(Line::Line { name, text }) => {
            assert_eq!(name, "Ace");
            assert_eq!(text, "Hello");
        },
        _ => panic!("expected a dialogue line"),
    }
}

#[test]
fn empty_line_is_a_hard_failure() {
    assert_eq!(story_to_wiki("abc\n\ndef".to_string()), Err(StoryError::EmptyLine));
    match parse_line("") {
        Err(e) => assert_eq!(e, StoryError::EmptyLine),
        Ok(_) => panic!("an empty line must not parse"),
    }
}

#[test]
fn missing_required_fields_fail() {
    match parse_line("[line]spoken") {
        Err(e) => assert_eq!(e, StoryError::MissingName),
        Ok(_) => panic!("a dialogue line needs a name"),
    }
    match parse_line("[decision options=\"A\"]") {
        Err(e) => assert_eq!(e, StoryError::MissingValues),
        Ok(_) => panic!("a decision needs values"),
    }
    match parse_line("[decision values=\"1\"]") {
        Err(e) => assert_eq!(e, StoryError::MissingOptions),
        Ok(_) => panic!("a decision needs options"),
    }
}

#[test]
fn unbalanced_option_lists_fail() {
    match parse_line("[decision values=\"1;2\", options=\"A\"]") {
        Err(e) => assert_eq!(e, StoryError::OptionCountMismatch),
        Ok(_) => panic!("the two lists must pair up"),
    }
}

#[test]
fn malformed_boolean_fails() {
    match parse_line("[background block=\"maybe\"]") {
        Err(e) => assert_eq!(e, StoryError::BadBool),
        Ok(_) => panic!("a boolean argument admits only the two literals"),
    }
    assert_eq!(
        story_to_wiki("[background block=\"maybe\"]".to_string()),
        Err(StoryError::BadBool)
    );
}

#[test]
fn non_numeric_keys_fail_at_the_join() {
    assert_eq!(
        story_to_wiki(
            "[Decision values=\"x;y\", options=\"A;B\"]\n[Predicate references=\"x;y\"]".to_string()
        ),
        Err(StoryError::BadDecisionKey)
    );
}

#[test]
fn malformed_optional_numerics_are_swallowed() {
    match parse_line("[blocker fadetime=\"soon\", a=\"much\"]") {
        Ok(Line::Blocker { fade_time, block, full_alpha }) => {
            assert_eq!(fade_time, None);
            assert!(!block);
            assert!(!full_alpha);
        },
        _ => panic!("expected a blocker"),
    }
}

#[test]
fn blocker_alpha_forms_of_one() {
    for v in ["1", "1.0", "+1.00", "01"] {
        let line = format!("[blocker a=\"{}\"]", v);
        match parse_line(&line) {
            Ok(Line::Blocker { full_alpha, .. }) => assert!(full_alpha, "{}", v),
            _ => panic!("expected a blocker"),
        }
    }
    for v in ["-1", "0.99", "1.5", ""] {
        let line = format!("[blocker a=\"{}\"]", v);
        match parse_line(&line) {
            Ok(Line::Blocker { full_alpha, .. }) => assert!(!full_alpha, "{}", v),
            _ => panic!("expected a blocker"),
        }
    }
}

#[test]
fn crlf_and_final_newline_are_accepted() {
    let out = convert("[name=\"Ace\"]Hi\r\nBye\n");
    assert_eq!(
        out,
        "|chars = {{si|mode=char|Ace}}\n|bgs = \n\n\n{{sc|Ace|Hi}}\n{{sc|Bye|mode=speech}}"
    );
}

#[test]
fn later_duplicate_argument_wins() {
    match parse_line("[line name=\"Ace\", name=\"Bob\"]Hi") {
        Ok(Line::Line { name, .. }) => assert_eq!(name, "Bob"),
        _ => panic!("expected a dialogue line"),
    }
}

#[test]
fn characters_are_registered_once() {
    let out = convert("[name=\"Ace\"]One\nbreak\n[name=\"Ace\"]Two");
    assert_eq!(
        out,
        "|chars = {{si|mode=char|Ace}}\n|bgs = \n\n\n{{sc|Ace|One}}\n{{sc|break|mode=speech}}\n{{sc|Ace|Two}}"
    );
}

#[test]
fn unrecognized_tag_keeps_its_arguments() {
    match parse_line("[charslot slot=\"m\", name=\"char_002\"]") {
        Ok(Line::Other { line_type, arguments }) => {
            assert_eq!(line_type, "charslot");
            assert_eq!(arguments.entries.len(), 2);
            assert_eq!(arguments.entries[0].0, "slot");
            assert_eq!(arguments.entries[0].1, "m");
            assert_eq!(arguments.entries[1].0, "name");
            assert_eq!(arguments.entries[1].1, "char_002");
        },
        _ => panic!("expected the catch-all variant"),
    }
}

#[test]
fn tabs_and_newlines_count_as_whitespace_when_trimming() {
    let out = convert("[name=\"Ace\"]\tHi\t");
    assert_eq!(
        out,
        "|chars = {{si|mode=char|Ace}}\n|bgs = \n\n\n{{sc|Ace|Hi}}"
    );
}

#[test]
fn predicate_without_references_is_a_no_op() {
    let out = convert("[Decision values=\"1\", options=\"Go\"]\n[Predicate]");
    assert_eq!(
        out,
        "|chars = {{si|mode=char|Doctor}}\n|bgs = \n\n\n{{sc|Doctor|Go}}"
    );
}
