use vstd::prelude::*;

verus! {

/// Two releases of the left button closer together than this many
/// milliseconds make a double click.
pub const DOUBLE_CLICK_MS: u128 = 500;

/// What a release of the left button means.
#[derive(Clone, Copy, Debug, PartialEq, Eq, Structural)]
pub enum ClickOutcome {
    /// A double click or a drag: the user may have selected text.
    PossibleSelection,
    /// A plain click.
    SingleClick,
}

/// The count of quick successive releases after a release that came
/// `elapsed_ms` after the previous one.
pub open spec fn next_click_count(count: u32, elapsed_ms: u128) -> int {
    if elapsed_ms < DOUBLE_CLICK_MS {
        count + 1
    } else {
        1
    }
}

/// The meaning of a release, given the count before it.
pub open spec fn click_outcome(count: u32, elapsed_ms: u128, is_drag: bool) -> ClickOutcome {
    if next_click_count(count, elapsed_ms) >= 2 || is_drag {
        ClickOutcome::PossibleSelection
    } else {
        ClickOutcome::SingleClick
    }
}

/// The count after a release, given the count before it.
pub open spec fn count_after(count: u32, elapsed_ms: u128, is_drag: bool) -> u32 {
    if click_outcome(count, elapsed_ms, is_drag) == ClickOutcome::PossibleSelection {
        0
    } else {
        next_click_count(count, elapsed_ms) as u32
    }
}

/// Counts left-button releases to tell double clicks from single clicks.
pub struct ClickTracker {
    click_count: u32,
}

impl ClickTracker {
    #[verifier::type_invariant]
    spec fn count_small(self) -> bool {
        self.click_count <= 1
    }

    /// The number of quick successive releases so far.
    pub closed spec fn count(self) -> u32 {
        self.click_count
    }

    pub fn new() -> (r: Self)
        ensures
            r.count() == 0,
    {
        ClickTracker { click_count: 0 }
    }

    /// A release of the left button, `elapsed_ms` after the previous one
    /// (or after tracking started); `is_drag` tells whether the pointer moved
    /// far enough between press and release to be a drag.
    pub fn on_release(&mut self, elapsed_ms: u128, is_drag: bool) -> (r: ClickOutcome)
        ensures
            r == click_outcome(old(self).count(), elapsed_ms, is_drag),
            final(self).count() == count_after(old(self).count(), elapsed_ms, is_drag),
            final(self).count() <= 1,
    {
        proof {
            use_type_invariant(&*self);
        }
        let count = if elapsed_ms < DOUBLE_CLICK_MS {
            self.click_count + 1
        } else {
            1
        };
        if count >= 2 || is_drag {
            self.click_count = 0;
            ClickOutcome::PossibleSelection
        } else {
            self.click_count = count;
            ClickOutcome::SingleClick
        }
    }
}

/// A drag is always taken as a possible selection, and a selection leaves
/// the count at zero.
pub proof fn lemma_drag_selects(count: u32, elapsed_ms: u128)
    ensures
        click_outcome(count, elapsed_ms, true) == ClickOutcome::PossibleSelection,
        count_after(count, elapsed_ms, true) == 0,
{
}

/// A release that comes late (500 ms or more after the previous one) and is
/// no drag is a single click, and counts one.
pub proof fn lemma_slow_release_is_single(count: u32, elapsed_ms: u128)
    requires
        elapsed_ms >= DOUBLE_CLICK_MS,
    ensures
        click_outcome(count, elapsed_ms, false) == ClickOutcome::SingleClick,
        count_after(count, elapsed_ms, false) == 1,
{
}

/// A release that quickly follows a single click is a possible selection:
/// two quick clicks make a double click.
pub proof fn lemma_quick_second_release_selects(
    count: u32,
    first_elapsed_ms: u128,
    second_elapsed_ms: u128,
    second_is_drag: bool,
)
    requires
        count <= 1,
        click_outcome(count, first_elapsed_ms, false) == ClickOutcome::SingleClick,
        second_elapsed_ms < DOUBLE_CLICK_MS,
    ensures
        click_outcome(count_after(count, first_elapsed_ms, false), second_elapsed_ms, second_is_drag)
            == ClickOutcome::PossibleSelection,
{
}

} // verus!
