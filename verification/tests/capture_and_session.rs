use catchword::capture::{
    after_ocr, after_selection_query, is_english_word, ocr_region_origin, set_opaque_alpha,
    uia_next_after_find, uia_next_after_read, CaptureStep, UiaStep,
};
use catchword::hook::{ClickOutcome, ClickTracker};
use catchword::session::{
    capture_label, decide_on_event, toggle_capture, tray_command, word_to_translate, LoopAction,
    PointerEvent, TrayCommand,
};

#[test]
fn english_words_accepted() {
    assert!(is_english_word("hello"));
    assert!(is_english_word("it's"));
    assert!(is_english_word("well-known"));
    assert!(is_english_word("Ab"));
    assert!(is_english_word(&"a".repeat(45)));
}

#[test]
fn non_words_rejected() {
    assert!(!is_english_word("a"));
    assert!(!is_english_word(""));
    assert!(!is_english_word(&"a".repeat(46)));
    assert!(!is_english_word("-abc"));
    assert!(!is_english_word("abc-"));
    assert!(!is_english_word("'tis"));
    assert!(!is_english_word("héllo"));
    assert!(!is_english_word("ab1"));
    assert!(!is_english_word("two words"));
    assert!(!is_english_word("中文"));
}

#[test]
fn selection_is_trimmed_and_taken() {
    match after_selection_query(Some("  word \n".to_string()), true) {
        CaptureStep::Found(w) => assert_eq!(w, "word"),
        _ => panic!("expected a selection"),
    }
}

#[test]
fn blank_or_failed_selection_falls_back_to_ocr() {
    assert!(matches!(after_selection_query(Some("   ".to_string()), true), CaptureStep::TryOcr));
    assert!(matches!(after_selection_query(None, true), CaptureStep::TryOcr));
    assert!(matches!(after_selection_query(None, false), CaptureStep::NotFound));
    assert!(matches!(after_selection_query(Some(String::new()), false), CaptureStep::NotFound));
}

#[test]
fn ocr_word_taken_unless_empty() {
    assert_eq!(after_ocr(Some("Hello".to_string())), Some("Hello".to_string()));
    assert_eq!(after_ocr(Some(String::new())), None);
    assert_eq!(after_ocr(None), None);
}

#[test]
fn ocr_region_centred_on_pointer() {
    assert_eq!(ocr_region_origin(500, 300), (350, 270));
    assert_eq!(ocr_region_origin(0, 0), (-150, -30));
}

#[test]
fn alpha_bytes_set_opaque() {
    let mut px = vec![1u8, 2, 3, 4, 5, 6, 7, 8, 9, 10];
    set_opaque_alpha(&mut px);
    assert_eq!(px, vec![1u8, 2, 3, 255, 5, 6, 7, 255, 9, 10]);
    let mut empty: Vec<u8> = Vec::new();
    set_opaque_alpha(&mut empty);
    assert!(empty.is_empty());
}

#[test]
fn double_click_is_selection() {
    let mut t = ClickTracker::new();
    assert_eq!(t.on_release(1000, false), ClickOutcome::SingleClick);
    assert_eq!(t.on_release(200, false), ClickOutcome::PossibleSelection);
    // the count starts over after a selection
    assert_eq!(t.on_release(200, false), ClickOutcome::SingleClick);
}

#[test]
fn slow_clicks_stay_single() {
    let mut t = ClickTracker::new();
    assert_eq!(t.on_release(600, false), ClickOutcome::SingleClick);
    assert_eq!(t.on_release(500, false), ClickOutcome::SingleClick);
    assert_eq!(t.on_release(10_000, false), ClickOutcome::SingleClick);
}

#[test]
fn drag_is_selection() {
    let mut t = ClickTracker::new();
    assert_eq!(t.on_release(5000, true), ClickOutcome::PossibleSelection);
    assert_eq!(t.on_release(100, false), ClickOutcome::SingleClick);
    assert_eq!(t.on_release(100, false), ClickOutcome::PossibleSelection);
}

#[test]
fn first_release_soon_after_start_counts_once() {
    let mut t = ClickTracker::new();
    assert_eq!(t.on_release(10, false), ClickOutcome::SingleClick);
}

#[test]
fn loop_ignores_everything_when_off() {
    for ev in [PointerEvent::PossibleSelection, PointerEvent::SingleClick] {
        assert_eq!(decide_on_event(false, ev, true, false, false), LoopAction::Ignore);
    }
}

#[test]
fn loop_selection_rules() {
    let sel = PointerEvent::PossibleSelection;
    assert_eq!(decide_on_event(true, sel, false, false, false), LoopAction::CaptureText);
    assert_eq!(decide_on_event(true, sel, true, true, false), LoopAction::Ignore);
    assert_eq!(decide_on_event(true, sel, true, false, false), LoopAction::CaptureText);
    assert_eq!(decide_on_event(true, sel, false, true, false), LoopAction::CaptureText);
    assert_eq!(decide_on_event(true, sel, false, false, true), LoopAction::Ignore);
}

#[test]
fn loop_click_rules() {
    let click = PointerEvent::SingleClick;
    assert_eq!(decide_on_event(true, click, true, false, false), LoopAction::HidePopup);
    assert_eq!(decide_on_event(true, click, true, true, false), LoopAction::Ignore);
    assert_eq!(decide_on_event(true, click, false, false, true), LoopAction::Ignore);
}

#[test]
fn only_english_words_translated() {
    assert_eq!(word_to_translate(Some("hello".to_string())), Some("hello".to_string()));
    assert_eq!(word_to_translate(Some("hello world".to_string())), None);
    assert_eq!(word_to_translate(None), None);
}

#[test]
fn tray_commands() {
    assert_eq!(tray_command("toggle"), TrayCommand::ToggleCapture);
    assert_eq!(tray_command("quit"), TrayCommand::Quit);
    assert_eq!(tray_command("other"), TrayCommand::Other);
    assert_eq!(capture_label(true), "取词：已开启");
    assert_eq!(capture_label(false), "取词：已关闭");
    assert_eq!(toggle_capture(true), (false, "取词：已关闭"));
    assert_eq!(toggle_capture(false), (true, "取词：已开启"));
}

#[test]
fn uia_search_order() {
    // focused element without selection, then ancestors
    let s = uia_next_after_read(UiaStep::ReadFocused, Some("  "));
    assert_eq!(s, UiaStep::FindParent(0));
    assert_eq!(uia_next_after_find(s, true), UiaStep::ReadParent(0));
    assert_eq!(uia_next_after_read(UiaStep::ReadParent(0), None), UiaStep::FindParent(1));
    // a missing parent moves on to the children
    assert_eq!(uia_next_after_find(UiaStep::FindParent(3), false), UiaStep::FindFirstChild);
    assert_eq!(uia_next_after_find(UiaStep::FindFirstChild, true), UiaStep::ReadChild(0));
    assert_eq!(uia_next_after_find(UiaStep::FindFirstChild, false), UiaStep::NotFound);
    assert_eq!(uia_next_after_read(UiaStep::ReadChild(2), Some("")), UiaStep::FindNextSibling(2));
    assert_eq!(uia_next_after_find(UiaStep::FindNextSibling(2), true), UiaStep::ReadChild(3));
    assert_eq!(uia_next_after_find(UiaStep::FindNextSibling(2), false), UiaStep::NotFound);
}

#[test]
fn uia_search_limits() {
    // the fifteenth ancestor is the last
    assert_eq!(uia_next_after_read(UiaStep::ReadParent(13), None), UiaStep::FindParent(14));
    assert_eq!(uia_next_after_read(UiaStep::ReadParent(14), None), UiaStep::FindFirstChild);
    // the twentieth child is the last
    assert_eq!(uia_next_after_find(UiaStep::FindNextSibling(18), true), UiaStep::ReadChild(19));
    assert_eq!(uia_next_after_find(UiaStep::FindNextSibling(19), true), UiaStep::NotFound);
}

#[test]
fn uia_selection_found_anywhere() {
    assert_eq!(uia_next_after_read(UiaStep::ReadFocused, Some(" word ")), UiaStep::Found);
    assert_eq!(uia_next_after_read(UiaStep::ReadParent(7), Some("x")), UiaStep::Found);
    assert_eq!(uia_next_after_read(UiaStep::ReadChild(19), Some("y")), UiaStep::Found);
}

#[test]
fn uia_whole_walk_counts() {
    // nothing selected anywhere, 30 ancestors and 30 children available
    let mut step = UiaStep::ReadFocused;
    let (mut reads, mut finds) = (0, 0);
    loop {
        step = match step {
            UiaStep::ReadFocused | UiaStep::ReadParent(_) | UiaStep::ReadChild(_) => {
                reads += 1;
                uia_next_after_read(step, None)
            }
            UiaStep::FindParent(_) | UiaStep::FindFirstChild | UiaStep::FindNextSibling(_) => {
                finds += 1;
                uia_next_after_find(step, true)
            }
            UiaStep::Found | UiaStep::NotFound => break,
        };
    }
    assert_eq!(step, UiaStep::NotFound);
    assert_eq!(reads, 1 + 15 + 20);
    assert_eq!(finds, 15 + 1 + 20);
}
