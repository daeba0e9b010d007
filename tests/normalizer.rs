use dictation_polish::normalizer::format_text_rule_based;

#[test]
fn filler_inside_word_is_kept() {
    assert_eq!(format_text_rule_based("likewise it works"), "Likewise it works.");
}

#[test]
fn stutters_collapse() {
    assert_eq!(format_text_rule_based("I I want want to go"), "I want to go.");
}

#[test]
fn triple_repeat_collapses_to_one() {
    assert_eq!(format_text_rule_based("the the the cat sat"), "The cat sat.");
}

#[test]
fn repeat_in_other_case_collapses() {
    assert_eq!(format_text_rule_based("The the end"), "The end.");
}

#[test]
fn fillers_removed_and_first_letter_capitalised() {
    // Only a comma after a filler goes with it; the one before "uh" stays.
    assert_eq!(
        format_text_rule_based("um so i think, uh, this works"),
        "So i think, this works."
    );
}

#[test]
fn question_gets_question_mark() {
    assert_eq!(format_text_rule_based("what time is it"), "What time is it?");
}

#[test]
fn statement_gets_full_stop() {
    assert_eq!(format_text_rule_based("the meeting is done"), "The meeting is done.");
}

#[test]
fn question_word_in_capitals() {
    assert_eq!(format_text_rule_based("IS it raining"), "IS it raining?");
}

#[test]
fn question_word_must_be_whole() {
    assert_eq!(format_text_rule_based("isolated case"), "Isolated case.");
}

#[test]
fn empty_input_stays_empty() {
    assert_eq!(format_text_rule_based(""), "");
}

#[test]
fn only_fillers_gives_empty() {
    assert_eq!(format_text_rule_based("  um, uh  hmm "), "");
}

#[test]
fn existing_stop_is_kept() {
    assert_eq!(format_text_rule_based("done!"), "Done!");
    assert_eq!(format_text_rule_based("really?"), "Really?");
    assert_eq!(format_text_rule_based("ok."), "Ok.");
}

#[test]
fn whitespace_runs_collapse_and_trim() {
    assert_eq!(
        format_text_rule_based("  hello \t\n  world   again  "),
        "Hello world again."
    );
}

#[test]
fn fillers_in_any_case() {
    assert_eq!(format_text_rule_based("UM Basically we ship"), "We ship.");
}

#[test]
fn two_word_filler_removed() {
    assert_eq!(format_text_rule_based("you know it is fine"), "It is fine.");
}

#[test]
fn filler_with_trailing_comma() {
    assert_eq!(format_text_rule_based("actually, we are late"), "We are late.");
}

#[test]
fn non_ascii_first_letter_capitalised() {
    assert_eq!(format_text_rule_based("élan vital"), "Élan vital.");
}

#[test]
fn result_ends_with_one_stop() {
    for text in ["hello", "why not", "wow!", "um like", "a  b", "what"] {
        let out = format_text_rule_based(text);
        if !out.is_empty() {
            let last = out.chars().last().unwrap();
            assert!(last == '.' || last == '!' || last == '?');
        }
    }
}

#[test]
fn result_has_no_whitespace_run() {
    for text in ["a \t b", "  x  y  ", "one\n\ntwo", "um  , so   what"] {
        let out = format_text_rule_based(text);
        let chars: Vec<char> = out.chars().collect();
        for w in chars.windows(2) {
            assert!(!(w[0].is_whitespace() && w[1].is_whitespace()));
        }
    }
}

#[test]
fn clean_text_is_a_fixed_point() {
    for text in ["What time is it", "the meeting is done", "Hello world"] {
        let once = format_text_rule_based(text);
        assert_eq!(format_text_rule_based(&once), once);
    }
}
