use vstd::prelude::*;
use vstd::string::*;
use crate::capture::{english_word, is_english_word};
use crate::text::str_eq;

verus! {

/// A pointer event, without its position.
#[derive(Clone, Copy, Debug, PartialEq, Eq, Structural)]
pub enum PointerEvent {
    /// A double click or a drag ended.
    PossibleSelection,
    /// A plain click.
    SingleClick,
}

/// What the capture loop does about an event.
#[derive(Clone, Copy, Debug, PartialEq, Eq, Structural)]
pub enum LoopAction {
    /// Nothing.
    Ignore,
    /// Hide the translation pop-up.
    HidePopup,
    /// Hide the pop-up, then capture the selected text and translate it.
    CaptureText,
}

/// The capture loop's rule: nothing happens while capture is switched off;
/// a possible selection is captured unless it lies in the visible pop-up
/// (the user is working the pop-up) or a translation is under way; a plain
/// click outside the visible pop-up hides it.
pub open spec fn loop_decision(
    capture_enabled: bool,
    event: PointerEvent,
    popup_visible: bool,
    pointer_in_popup: bool,
    translating: bool,
) -> LoopAction {
    if !capture_enabled {
        LoopAction::Ignore
    } else {
        match event {
            PointerEvent::PossibleSelection => if popup_visible && pointer_in_popup {
                LoopAction::Ignore
            } else if translating {
                LoopAction::Ignore
            } else {
                LoopAction::CaptureText
            },
            PointerEvent::SingleClick => if popup_visible && !pointer_in_popup {
                LoopAction::HidePopup
            } else {
                LoopAction::Ignore
            },
        }
    }
}

/// Decides what to do about a pointer event.
pub fn decide_on_event(
    capture_enabled: bool,
    event: PointerEvent,
    popup_visible: bool,
    pointer_in_popup: bool,
    translating: bool,
) -> (r: LoopAction)
    ensures
        r == loop_decision(capture_enabled, event, popup_visible, pointer_in_popup, translating),
{
    if !capture_enabled {
        return LoopAction::Ignore;
    }
    match event {
        PointerEvent::PossibleSelection => {
            if popup_visible && pointer_in_popup {
                LoopAction::Ignore
            } else if translating {
                LoopAction::Ignore
            } else {
                LoopAction::CaptureText
            }
        },
        PointerEvent::SingleClick => {
            if popup_visible && !pointer_in_popup {
                LoopAction::HidePopup
            } else {
                LoopAction::Ignore
            }
        },
    }
}

/// The captured text to translate: it is translated only when it is an
/// English word.
pub fn word_to_translate(captured: Option<String>) -> (r: Option<String>)
    ensures
        match captured {
            Some(t) if english_word(t@) => r == Some(t),
            _ => r is None,
        },
{
    match captured {
        Some(t) => {
            if is_english_word(t.as_str()) {
                Some(t)
            } else {
                None
            }
        },
        None => None,
    }
}

/// Nothing is captured or hidden while capture is switched off, and no
/// second capture starts while a translation is under way.
pub proof fn lemma_no_capture_when_off_or_busy(
    event: PointerEvent,
    popup_visible: bool,
    pointer_in_popup: bool,
    translating: bool,
)
    ensures
        loop_decision(false, event, popup_visible, pointer_in_popup, translating)
            == LoopAction::Ignore,
        loop_decision(true, event, popup_visible, pointer_in_popup, true)
            != LoopAction::CaptureText,
        loop_decision(true, event, true, true, translating) == LoopAction::Ignore,
{
}

/// A command of the tray menu.
#[derive(Clone, Copy, Debug, PartialEq, Eq, Structural)]
pub enum TrayCommand {
    ToggleCapture,
    Quit,
    Other,
}

pub open spec fn tray_command_of(id: Seq<char>) -> TrayCommand {
    if id == "toggle"@ {
        TrayCommand::ToggleCapture
    } else if id == "quit"@ {
        TrayCommand::Quit
    } else {
        TrayCommand::Other
    }
}

/// The tray command of a menu item identifier.
pub fn tray_command(id: &str) -> (r: TrayCommand)
    ensures
        r == tray_command_of(id@),
{
    if str_eq(id, "toggle") {
        TrayCommand::ToggleCapture
    } else if str_eq(id, "quit") {
        TrayCommand::Quit
    } else {
        TrayCommand::Other
    }
}

pub open spec fn capture_label_of(enabled: bool) -> Seq<char> {
    if enabled {
        "取词：已开启"@
    } else {
        "取词：已关闭"@
    }
}

/// The label of the tray's capture switch.
pub fn capture_label(enabled: bool) -> (r: &'static str)
    ensures
        r@ == capture_label_of(enabled),
{
    if enabled {
        "取词：已开启"
    } else {
        "取词：已关闭"
    }
}

/// Flips the capture switch and returns the new state with its label.
pub fn toggle_capture(enabled: bool) -> (r: (bool, &'static str))
    ensures
        r.0 == !enabled,
        r.1@ == capture_label_of(!enabled),
{
    let now_enabled = !enabled;
    (now_enabled, capture_label(now_enabled))
}

} // verus!
