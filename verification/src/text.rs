use vstd::prelude::*;
use vstd::string::*;

verus! {

/// `c` is an ASCII letter (`A`..=`Z` or `a`..=`z`).
pub open spec fn is_ascii_letter(c: char) -> bool {
    ('a' <= c && c <= 'z') || ('A' <= c && c <= 'Z')
}

/// `c` is an ASCII decimal digit.
pub open spec fn is_ascii_digit(c: char) -> bool {
    '0' <= c && c <= '9'
}

/// Every character of `s` is in the ASCII range.
pub open spec fn all_ascii(s: Seq<char>) -> bool {
    forall|i: int| 0 <= i < s.len() ==> (#[trigger] s[i] as u32) < 0x80
}

/// ASCII lower-casing of one character: `A`..=`Z` become `a`..=`z`.
pub open spec fn ascii_lower_char(c: char) -> char {
    if 'A' <= c && c <= 'Z' {
        ((c as u32) + 32) as char
    } else {
        c
    }
}

/// ASCII lower-casing of every character of `s`.
pub open spec fn ascii_lower(s: Seq<char>) -> Seq<char> {
    s.map_values(|c: char| ascii_lower_char(c))
}

/// ASCII upper-casing of one character: `a`..=`z` become `A`..=`Z`.
pub open spec fn ascii_upper_char(c: char) -> char {
    if 'a' <= c && c <= 'z' {
        ((c as u32) - 32) as char
    } else {
        c
    }
}

/// ASCII upper-casing of every character of `s`.
pub open spec fn ascii_upper(s: Seq<char>) -> Seq<char> {
    s.map_values(|c: char| ascii_upper_char(c))
}

/// The Unicode `White_Space` property, which `char::is_whitespace` tests.
pub open spec fn is_unicode_whitespace(c: char) -> bool {
    let u = c as u32;
    ||| 0x09 <= u <= 0x0d
    ||| u == 0x20
    ||| u == 0x85
    ||| u == 0xa0
    ||| u == 0x1680
    ||| 0x2000 <= u <= 0x200a
    ||| u == 0x2028
    ||| u == 0x2029
    ||| u == 0x202f
    ||| u == 0x205f
    ||| u == 0x3000
}

/// `s` without its leading white space.
pub open spec fn trim_start_ws(s: Seq<char>) -> Seq<char>
    decreases s.len(),
{
    if s.len() > 0 && is_unicode_whitespace(s[0]) {
        trim_start_ws(s.drop_first())
    } else {
        s
    }
}

/// `s` without its trailing white space.
pub open spec fn trim_end_ws(s: Seq<char>) -> Seq<char>
    decreases s.len(),
{
    if s.len() > 0 && is_unicode_whitespace(s.last()) {
        trim_end_ws(s.drop_last())
    } else {
        s
    }
}

/// `s` without leading and trailing white space, as `str::trim` gives it.
pub open spec fn trim_ws(s: Seq<char>) -> Seq<char> {
    trim_end_ws(trim_start_ws(s))
}

/// What `str::to_lowercase` returns for a string with these characters.
pub uninterp spec fn lowercase(s: Seq<char>) -> Seq<char>;

/// Calls `str::to_lowercase`. Its result is a function of the characters
/// alone, named `lowercase`. For ASCII input it is the ASCII lower-casing
/// (the Unicode lower-case mapping of `A`..=`Z` is `a`..=`z`, and other
/// ASCII characters map to themselves), so lower-casing that result again
/// leaves it as it is. Nothing is stated of the mapping of other characters.
#[verifier::external_body]
pub fn to_lower(s: &str) -> (r: String)
    ensures
        r@ == lowercase(s@),
        all_ascii(s@) ==> r@ == ascii_lower(s@),
        all_ascii(s@) ==> lowercase(r@) == r@,
{
    s.to_lowercase()
}

/// Calls `String::push`, which appends one character.
#[verifier::external_body]
pub fn push_char(s: &mut String, c: char)
    ensures
        final(s)@ == old(s)@.push(c),
{
    s.push(c)
}

/// Whether `c` has the Unicode `White_Space` property.
pub fn is_whitespace(c: char) -> (r: bool)
    ensures
        r == is_unicode_whitespace(c),
{
    let u = c as u32;
    (0x09 <= u && u <= 0x0d) || u == 0x20 || u == 0x85 || u == 0xa0 || u == 0x1680 || (0x2000
        <= u && u <= 0x200a) || u == 0x2028 || u == 0x2029 || u == 0x202f || u == 0x205f || u
        == 0x3000
}

/// The characters of `s`, in order.
pub fn chars_of(s: &str) -> (r: Vec<char>)
    ensures
        r@ == s@,
{
    broadcast use vstd::string::group_string_axioms;
    let mut v: Vec<char> = Vec::new();
    for c in it: s.chars()
        invariant
            v@ == it.seq().take(it.index() as int),
    {
        v.push(c);
    }
    assert(v@ =~= s@);
    v
}

/// Whether two strings hold the same characters.
pub fn str_eq(a: &str, b: &str) -> (r: bool)
    ensures
        r == (a@ == b@),
{
    let av = chars_of(a);
    let bv = chars_of(b);
    if av.len() != bv.len() {
        return false;
    }
    let mut i: usize = 0;
    while i < av.len()
        invariant
            av@ == a@,
            bv@ == b@,
            av.len() == bv.len(),
            i <= av.len(),
            forall|k: int| 0 <= k < i ==> av@[k] == bv@[k],
        decreases av.len() - i,
    {
        if av[i] != bv[i] {
            return false;
        }
        i = i + 1;
    }
    assert(a@ =~= b@);
    true
}

proof fn lemma_trim_start_skip(s: Seq<char>, i: int)
    requires
        0 <= i < s.len(),
        is_unicode_whitespace(s[i]),
    ensures
        trim_start_ws(s.subrange(i, s.len() as int)) == trim_start_ws(s.subrange(i + 1, s.len() as int)),
{
    assert(s.subrange(i, s.len() as int).drop_first() =~= s.subrange(i + 1, s.len() as int));
}

proof fn lemma_trim_end_skip(s: Seq<char>, j: int)
    requires
        0 < j <= s.len(),
        is_unicode_whitespace(s[j - 1]),
    ensures
        trim_end_ws(s.subrange(0, j)) == trim_end_ws(s.subrange(0, j - 1)),
{
    assert(s.subrange(0, j).drop_last() =~= s.subrange(0, j - 1));
}

proof fn lemma_trim_start_ws(s: Seq<char>)
    ensures
        exists|i: int|
            0 <= i <= s.len() && trim_start_ws(s) == s.subrange(i, s.len() as int) && (forall|k: int|
                0 <= k < i ==> is_unicode_whitespace(#[trigger] s[k])),
        trim_start_ws(s).len() > 0 ==> !is_unicode_whitespace(trim_start_ws(s)[0]),
    decreases s.len(),
{
    if s.len() > 0 && is_unicode_whitespace(s[0]) {
        let t = s.drop_first();
        lemma_trim_start_ws(t);
        let i = choose|i: int|
            0 <= i <= t.len() && trim_start_ws(t) == t.subrange(i, t.len() as int) && (forall|k: int|
                0 <= k < i ==> is_unicode_whitespace(#[trigger] t[k]));
        assert(t.subrange(i, t.len() as int) =~= s.subrange(i + 1, s.len() as int));
        assert forall|k: int| 0 <= k < i + 1 implies is_unicode_whitespace(#[trigger] s[k]) by {
            if k > 0 {
                assert(s[k] == t[k - 1]);
            }
        }
    } else {
        assert(s.subrange(0, s.len() as int) =~= s);
    }
}

proof fn lemma_trim_end_ws(s: Seq<char>)
    ensures
        exists|j: int|
            0 <= j <= s.len() && trim_end_ws(s) == s.subrange(0, j) && (forall|k: int|
                j <= k < s.len() ==> is_unicode_whitespace(#[trigger] s[k])),
        trim_end_ws(s).len() > 0 ==> !is_unicode_whitespace(trim_end_ws(s).last()),
        trim_end_ws(s).len() > 0 && s.len() > 0 && !is_unicode_whitespace(s[0]) ==> trim_end_ws(s)[0] == s[0],
        s.len() > 0 && !is_unicode_whitespace(s[0]) ==> trim_end_ws(s).len() > 0,
    decreases s.len(),
{
    if s.len() > 0 && is_unicode_whitespace(s.last()) {
        let t = s.drop_last();
        lemma_trim_end_ws(t);
        let j = choose|j: int|
            0 <= j <= t.len() && trim_end_ws(t) == t.subrange(0, j) && (forall|k: int|
                j <= k < t.len() ==> is_unicode_whitespace(#[trigger] t[k]));
        assert(t.subrange(0, j) =~= s.subrange(0, j));
        assert forall|k: int| j <= k < s.len() implies is_unicode_whitespace(#[trigger] s[k]) by {
            if k < t.len() {
                assert(s[k] == t[k]);
            }
        }
        if s.len() > 1 {
            assert(t[0] == s[0]);
        }
    } else {
        assert(s.subrange(0, s.len() as int) =~= s);
    }
}

/// Trimming cuts white space, and only white space, from both ends: the
/// result is a stretch `s[i..j]` of `s` with white space before `i` and
/// after `j`, and it neither starts nor ends with white space.
pub proof fn lemma_trim_cuts_white_space(s: Seq<char>)
    ensures
        exists|i: int, j: int|
            0 <= i <= j <= s.len() && trim_ws(s) == s.subrange(i, j) && (forall|k: int|
                0 <= k < i ==> is_unicode_whitespace(#[trigger] s[k])) && (forall|k: int|
                j <= k < s.len() ==> is_unicode_whitespace(#[trigger] s[k])),
        trim_ws(s).len() > 0 ==> !is_unicode_whitespace(trim_ws(s)[0]) && !is_unicode_whitespace(
            trim_ws(s).last(),
        ),
{
    lemma_trim_start_ws(s);
    let t = trim_start_ws(s);
    let i = choose|i: int|
        0 <= i <= s.len() && t == s.subrange(i, s.len() as int) && (forall|k: int|
            0 <= k < i ==> is_unicode_whitespace(#[trigger] s[k]));
    lemma_trim_end_ws(t);
    let j = choose|j: int|
        0 <= j <= t.len() && trim_end_ws(t) == t.subrange(0, j) && (forall|k: int|
            j <= k < t.len() ==> is_unicode_whitespace(#[trigger] t[k]));
    assert(t.subrange(0, j) =~= s.subrange(i, i + j));
    assert forall|k: int| i + j <= k < s.len() implies is_unicode_whitespace(#[trigger] s[k]) by {
        assert(s[k] == t[k - i]);
    }
    assert(exists|a: int, b: int|
        0 <= a <= b <= s.len() && trim_ws(s) == s.subrange(a, b) && (forall|k: int|
            0 <= k < a ==> is_unicode_whitespace(#[trigger] s[k])) && (forall|k: int|
            b <= k < s.len() ==> is_unicode_whitespace(#[trigger] s[k]))) by {
        assert(trim_ws(s) == s.subrange(i, i + j));
    }
}

/// `s` with leading and trailing Unicode white space removed (`str::trim`).
pub fn trim(s: &str) -> (r: String)
    ensures
        r@ == trim_ws(s@),
{
    let v = chars_of(s);
    let n = v.len();
    let mut i: usize = 0;
    assert(s@.subrange(0, n as int) =~= s@);
    while i < n && is_whitespace(v[i])
        invariant
            v@ == s@,
            n == v.len(),
            i <= n,
            trim_start_ws(s@) == trim_start_ws(s@.subrange(i as int, n as int)),
        decreases n - i,
    {
        proof {
            lemma_trim_start_skip(s@, i as int);
        }
        i = i + 1;
    }
    let ghost t = s@.subrange(i as int, n as int);
    assert(trim_start_ws(s@) == t);
    let mut j: usize = n;
    assert(t.subrange(0, j - i) =~= t);
    while j > i && is_whitespace(v[j - 1])
        invariant
            v@ == s@,
            n == v.len(),
            i <= j <= n,
            t == s@.subrange(i as int, n as int),
            trim_end_ws(t) == trim_end_ws(t.subrange(0, j - i)),
        decreases j,
    {
        proof {
            assert(t[j - i - 1] == s@[j - 1]);
            lemma_trim_end_skip(t, j - i);
        }
        j = j - 1;
    }
    assert(trim_end_ws(t.subrange(0, j - i)) == t.subrange(0, j - i));
    let mut out = String::new();
    let mut k: usize = i;
    while k < j
        invariant
            v@ == s@,
            n == v.len(),
            i <= k <= j <= n,
            out@ == s@.subrange(i as int, k as int),
        decreases j - k,
    {
        push_char(&mut out, v[k]);
        k = k + 1;
    }
    assert(out@ =~= t.subrange(0, j - i));
    out
}

} // verus!
