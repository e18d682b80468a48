use vstd::prelude::*;
use vstd::string::*;
use crate::text::{is_ascii_letter, trim_ws, chars_of, trim, ascii_upper, ascii_upper_char, ascii_lower, ascii_lower_char};

verus! {

/// A character that may appear inside an English word: a letter, a hyphen
/// or an apostrophe.
pub open spec fn is_word_char(c: char) -> bool {
    is_ascii_letter(c) || c == '-' || c == '\''
}

/// `t` is taken for an English word: its UTF-8 encoding has 2 to 45
/// bytes, it holds only letters, hyphens and apostrophes, and it starts and
/// ends with a letter.
pub open spec fn english_word(t: Seq<char>) -> bool {
    &&& 2 <= vstd::utf8::encode_utf8(t).len() <= 45
    &&& forall|i: int| 0 <= i < t.len() ==> is_word_char(#[trigger] t[i])
    &&& t.len() > 0
    &&& is_ascii_letter(t[0])
    &&& is_ascii_letter(t.last())
}

pub fn is_english_word(text: &str) -> (r: bool)
    ensures
        r == english_word(text@),
{
    let v = chars_of(text);
    let mut i: usize = 0;
    while i < v.len()
        invariant
            v@ == text@,
            i <= v.len(),
            forall|k: int| 0 <= k < i ==> is_word_char(#[trigger] v@[k]),
        decreases v.len() - i,
    {
        let c = v[i];
        if !(('a' <= c && c <= 'z') || ('A' <= c && c <= 'Z') || c == '-' || c == '\'') {
            return false;
        }
        i = i + 1;
    }
    proof {
        assert(vstd::utf8::is_ascii_chars(text@));
        vstd::utf8::is_ascii_chars_encode_utf8(text@);
    }
    // Only ASCII characters remain, so the UTF-8 length is the character count.
    if v.len() < 2 || v.len() > 45 {
        return false;
    }
    let first = v[0];
    let last = v[v.len() - 1];
    (('a' <= first && first <= 'z') || ('A' <= first && first <= 'Z')) && (('a' <= last && last
        <= 'z') || ('A' <= last && last <= 'Z'))
}

proof fn lemma_word_chars_ascii(t: Seq<char>)
    requires
        forall|i: int| 0 <= i < t.len() ==> is_word_char(#[trigger] t[i]),
    ensures
        vstd::utf8::encode_utf8(t).len() == t.len(),
{
    assert(vstd::utf8::is_ascii_chars(t));
    vstd::utf8::is_ascii_chars_encode_utf8(t);
}

/// The word test ignores letter case: upper-casing or lower-casing the
/// ASCII letters of a text does not change whether it is an English word.
pub proof fn lemma_english_word_ignores_case(t: Seq<char>)
    ensures
        english_word(ascii_upper(t)) == english_word(t),
        english_word(ascii_lower(t)) == english_word(t),
{
    let u = ascii_upper(t);
    let l = ascii_lower(t);
    assert forall|i: int| 0 <= i < t.len() implies is_word_char(#[trigger] u[i]) == is_word_char(t[i])
        && is_ascii_letter(u[i]) == is_ascii_letter(t[i]) && is_word_char(l[i]) == is_word_char(t[i])
        && is_ascii_letter(l[i]) == is_ascii_letter(t[i]) by {
        assert(u[i] == ascii_upper_char(t[i]));
        assert(l[i] == ascii_lower_char(t[i]));
    }
    if forall|i: int| 0 <= i < t.len() ==> is_word_char(#[trigger] t[i]) {
        lemma_word_chars_ascii(t);
        assert forall|i: int| 0 <= i < u.len() implies is_word_char(#[trigger] u[i]) by {
            assert(is_word_char(t[i]));
        }
        assert forall|i: int| 0 <= i < l.len() implies is_word_char(#[trigger] l[i]) by {
            assert(is_word_char(t[i]));
        }
        lemma_word_chars_ascii(u);
        lemma_word_chars_ascii(l);
        if t.len() > 0 {
            assert(u.last() == u[t.len() - 1]);
            assert(l.last() == l[t.len() - 1]);
        }
    } else {
        let k = choose|k: int| 0 <= k < t.len() && !is_word_char(#[trigger] t[k]);
        assert(!is_word_char(u[k]));
        assert(!is_word_char(l[k]));
    }
}

/// A text of 2 to 45 ASCII letters, whatever their case, is an English word;
/// so is one of 2 to 45 letters, hyphens and apostrophes that starts and
/// ends with a letter.
pub proof fn lemma_letters_make_a_word(t: Seq<char>)
    ensures
        (2 <= t.len() <= 45 && forall|i: int| 0 <= i < t.len() ==> is_ascii_letter(#[trigger] t[i]))
            ==> english_word(t),
        (2 <= t.len() <= 45 && (forall|i: int| 0 <= i < t.len() ==> is_word_char(#[trigger] t[i]))
            && is_ascii_letter(t[0]) && is_ascii_letter(t[t.len() - 1])) ==> english_word(t),
{
    if 2 <= t.len() <= 45 && forall|i: int| 0 <= i < t.len() ==> is_ascii_letter(#[trigger] t[i]) {
        assert forall|i: int| 0 <= i < t.len() implies is_word_char(#[trigger] t[i]) by {
            assert(is_ascii_letter(t[i]));
        }
        lemma_word_chars_ascii(t);
        assert(is_ascii_letter(t[0]));
        assert(is_ascii_letter(t[t.len() - 1]));
    }
    if 2 <= t.len() <= 45 && (forall|i: int| 0 <= i < t.len() ==> is_word_char(#[trigger] t[i])) {
        lemma_word_chars_ascii(t);
    }
}

/// What to do once the accessibility query has answered.
pub enum CaptureStep {
    /// Selected text was found; this is it, trimmed.
    Found(String),
    /// No usable selection; read the screen around the pointer instead.
    TryOcr,
    /// No usable selection and screen reading is switched off.
    NotFound,
}

/// Decides on the accessibility query's answer (`None` when it failed):
/// a selection that is not blank once trimmed is taken; otherwise the
/// screen is read if that is enabled.
pub fn after_selection_query(selection: Option<String>, ocr_enabled: bool) -> (r: CaptureStep)
    ensures
        match selection {
            Some(t) if trim_ws(t@).len() > 0 => r matches CaptureStep::Found(w) && w@ == trim_ws(t@),
            _ => if ocr_enabled { r is TryOcr } else { r is NotFound },
        },
{
    if let Some(t) = selection {
        let trimmed = trim(t.as_str());
        if trimmed.as_str().unicode_len() > 0 {
            return CaptureStep::Found(trimmed);
        }
    }
    if ocr_enabled {
        CaptureStep::TryOcr
    } else {
        CaptureStep::NotFound
    }
}

/// Decides on the screen reader's answer (`None` when it failed): a word
/// that is not empty is taken as it is.
pub fn after_ocr(word: Option<String>) -> (r: Option<String>)
    ensures
        match word {
            Some(w) if w@.len() > 0 => r == Some(w),
            _ => r is None,
        },
{
    match word {
        Some(w) => {
            if w.as_str().unicode_len() > 0 {
                Some(w)
            } else {
                None
            }
        },
        None => None,
    }
}

/// Width of the screen region read around the pointer.
pub const OCR_REGION_WIDTH: i32 = 300;

/// Height of the screen region read around the pointer.
pub const OCR_REGION_HEIGHT: i32 = 60;

/// Top-left corner of the region read around the pointer at `(cx, cy)`:
/// the region is centred on the pointer.
pub fn ocr_region_origin(cx: i32, cy: i32) -> (r: (i32, i32))
    requires
        cx >= i32::MIN + 150,
        cy >= i32::MIN + 30,
    ensures
        r.0 == cx - OCR_REGION_WIDTH / 2,
        r.1 == cy - OCR_REGION_HEIGHT / 2,
{
    (cx - OCR_REGION_WIDTH / 2, cy - OCR_REGION_HEIGHT / 2)
}

/// Sets the alpha byte (every fourth byte, from index 3) of BGRA pixel data
/// to 255 and leaves the colour bytes as they are.
pub fn set_opaque_alpha(pixels: &mut Vec<u8>)
    ensures
        final(pixels)@.len() == old(pixels)@.len(),
        forall|i: int|
            0 <= i < old(pixels)@.len() ==> #[trigger] final(pixels)@[i] == if i % 4 == 3 {
                255u8
            } else {
                old(pixels)@[i]
            },
{
    let n = pixels.len();
    let mut i: usize = 0;
    while i < n
        invariant
            pixels@.len() == n,
            n == old(pixels)@.len(),
            i <= n,
            forall|k: int|
                0 <= k < n ==> #[trigger] pixels@[k] == if k % 4 == 3 && k < i {
                    255u8
                } else {
                    old(pixels)@[k]
                },
        decreases n - i,
    {
        if i % 4 == 3 {
            pixels.set(i, 255u8);
        }
        i = i + 1;
    }
}

/// How many ancestors of the focused element are searched for a selection.
pub const UIA_MAX_ANCESTORS: u32 = 15;

/// How many children of the focused element are searched for a selection.
pub const UIA_MAX_CHILDREN: u32 = 20;

/// The next thing to do while searching the accessibility tree for selected
/// text: the focused element first, then its ancestors from the nearest up,
/// then its children in order.
#[derive(Clone, Copy, Debug, PartialEq, Eq, Structural)]
pub enum UiaStep {
    /// Read the selection of the focused element.
    ReadFocused,
    /// Fetch the parent of the element read last (`depth` ancestors read so far).
    FindParent(u32),
    /// Read the selection of the ancestor just fetched (the `depth + 1`-th).
    ReadParent(u32),
    /// Fetch the first child of the focused element.
    FindFirstChild,
    /// Read the selection of child number `index` (from 0).
    ReadChild(u32),
    /// Fetch the next sibling of child number `index`.
    FindNextSibling(u32),
    /// A selection was found.
    Found,
    /// The search is over without a selection.
    NotFound,
}

/// A selection read from the tree counts when it is not blank.
pub open spec fn selection_counts(text: Option<Seq<char>>) -> bool {
    match text {
        Some(t) => trim_ws(t).len() > 0,
        None => false,
    }
}

/// The step after reading a selection (`None` when the element offers none).
pub open spec fn uia_after_read(step: UiaStep, text: Option<Seq<char>>) -> UiaStep {
    if selection_counts(text) {
        UiaStep::Found
    } else {
        match step {
            UiaStep::ReadFocused => UiaStep::FindParent(0),
            UiaStep::ReadParent(depth) => if depth + 1 < UIA_MAX_ANCESTORS {
                UiaStep::FindParent((depth + 1) as u32)
            } else {
                UiaStep::FindFirstChild
            },
            UiaStep::ReadChild(index) => UiaStep::FindNextSibling(index),
            _ => step,
        }
    }
}

/// The step after fetching an element (`found` tells whether there was one).
pub open spec fn uia_after_find(step: UiaStep, found: bool) -> UiaStep {
    match step {
        UiaStep::FindParent(depth) => if found {
            UiaStep::ReadParent(depth)
        } else {
            UiaStep::FindFirstChild
        },
        UiaStep::FindFirstChild => if found {
            UiaStep::ReadChild(0)
        } else {
            UiaStep::NotFound
        },
        UiaStep::FindNextSibling(index) => if found && index + 1 < UIA_MAX_CHILDREN {
            UiaStep::ReadChild((index + 1) as u32)
        } else {
            UiaStep::NotFound
        },
        _ => step,
    }
}

fn is_blank(text: &str) -> (r: bool)
    ensures
        r == (trim_ws(text@).len() == 0),
{
    let t = trim(text);
    t.as_str().unicode_len() == 0
}

/// The step after reading a selection at `step`.
pub fn uia_next_after_read(step: UiaStep, text: Option<&str>) -> (r: UiaStep)
    ensures
        r == uia_after_read(
            step,
            match text {
                Some(t) => Some(t@),
                None => None,
            },
        ),
{
    let counts = match text {
        Some(t) => !is_blank(t),
        None => false,
    };
    if counts {
        return UiaStep::Found;
    }
    match step {
        UiaStep::ReadFocused => UiaStep::FindParent(0),
        UiaStep::ReadParent(depth) => {
            if depth < UIA_MAX_ANCESTORS - 1 {
                UiaStep::FindParent(depth + 1)
            } else {
                UiaStep::FindFirstChild
            }
        },
        UiaStep::ReadChild(index) => UiaStep::FindNextSibling(index),
        _ => step,
    }
}

/// The step after fetching an element at `step`.
pub fn uia_next_after_find(step: UiaStep, found: bool) -> (r: UiaStep)
    ensures
        r == uia_after_find(step, found),
{
    match step {
        UiaStep::FindParent(depth) => {
            if found {
                UiaStep::ReadParent(depth)
            } else {
                UiaStep::FindFirstChild
            }
        },
        UiaStep::FindFirstChild => {
            if found {
                UiaStep::ReadChild(0)
            } else {
                UiaStep::NotFound
            }
        },
        UiaStep::FindNextSibling(index) => {
            if found && index < UIA_MAX_CHILDREN - 1 {
                UiaStep::ReadChild(index + 1)
            } else {
                UiaStep::NotFound
            }
        },
        _ => step,
    }
}

/// A step that the search can reach: ancestor depths stay below 15 and
/// child indices below 20.
pub open spec fn uia_step_ok(step: UiaStep) -> bool {
    match step {
        UiaStep::FindParent(d) => d < UIA_MAX_ANCESTORS,
        UiaStep::ReadParent(d) => d < UIA_MAX_ANCESTORS,
        UiaStep::ReadChild(i) => i < UIA_MAX_CHILDREN,
        UiaStep::FindNextSibling(i) => i < UIA_MAX_CHILDREN,
        _ => true,
    }
}

/// Distance of a step to the end of the search.
pub open spec fn uia_steps_left(step: UiaStep) -> int {
    match step {
        UiaStep::ReadFocused => 100,
        UiaStep::FindParent(d) => 60 + 2 * (UIA_MAX_ANCESTORS - d),
        UiaStep::ReadParent(d) => 59 + 2 * (UIA_MAX_ANCESTORS - d),
        UiaStep::FindFirstChild => 50,
        UiaStep::ReadChild(i) => 2 * (UIA_MAX_CHILDREN - i) + 1,
        UiaStep::FindNextSibling(i) => 2 * (UIA_MAX_CHILDREN - i),
        UiaStep::Found => 0,
        UiaStep::NotFound => 0,
    }
}

/// The search visits the focused element, then at most 15 ancestors, then
/// at most 20 children, and always ends: every step from a reachable step
/// reaches a reachable step nearer the end, until `Found` or `NotFound`.
pub proof fn lemma_uia_search_ends(step: UiaStep, text: Option<Seq<char>>, found: bool)
    requires
        uia_step_ok(step),
    ensures
        uia_step_ok(uia_after_read(step, text)),
        uia_step_ok(uia_after_find(step, found)),
        (step is ReadFocused || step is ReadParent || step is ReadChild) ==> 0 <= uia_steps_left(
            uia_after_read(step, text),
        ) < uia_steps_left(step),
        (step is FindParent || step is FindFirstChild || step is FindNextSibling) ==> 0
            <= uia_steps_left(uia_after_find(step, found)) < uia_steps_left(step),
{
}

} // verus!
