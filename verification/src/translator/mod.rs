use vstd::prelude::*;
use vstd::string::*;
use crate::text::{is_ascii_letter, is_ascii_digit, chars_of, push_char};
use crate::types::TranslationSource;

pub mod google;
pub mod bing;
pub mod mymemory;

verus! {

/// Characters that stand for themselves in a URL query value.
pub open spec fn is_unreserved(c: char) -> bool {
    is_ascii_letter(c) || is_ascii_digit(c) || c == '-' || c == '_' || c == '.' || c == '~'
}

/// Upper-case hexadecimal digit of `d` (below 16).
pub open spec fn hex_digit(d: nat) -> char {
    if d < 10 {
        (48 + d) as char
    } else {
        (55 + d) as char
    }
}

/// Upper-case hexadecimal numeral of `n`, without leading zeros.
pub open spec fn hex_upper(n: nat) -> Seq<char>
    decreases n,
{
    if n < 16 {
        seq![hex_digit(n)]
    } else {
        hex_upper(n / 16).push(hex_digit(n % 16))
    }
}

/// Upper-case hexadecimal numeral of `n`, padded to at least two digits.
pub open spec fn hex_two(n: nat) -> Seq<char> {
    if n < 16 {
        seq!['0', hex_digit(n)]
    } else {
        hex_upper(n)
    }
}

/// How one character is written in the query: as itself when unreserved,
/// else `%` and the hexadecimal numeral of its code point.
pub open spec fn encode_char(c: char) -> Seq<char> {
    if is_unreserved(c) {
        seq![c]
    } else {
        seq!['%'] + hex_two(c as nat)
    }
}

/// The query encoding of a character sequence, character by character.
pub open spec fn url_encode(s: Seq<char>) -> Seq<char>
    decreases s.len(),
{
    if s.len() == 0 {
        Seq::empty()
    } else {
        url_encode(s.drop_last()) + encode_char(s.last())
    }
}

/// The pronunciation URL of a word.
pub open spec fn audio_url_of(word: Seq<char>) -> Seq<char> {
    "https://dict.youdao.com/dictvoice?audio="@ + url_encode(word) + "&type=2"@
}

fn hex_digit_char(d: u32) -> (r: char)
    requires
        d < 16,
    ensures
        r == hex_digit(d as nat),
{
    if d < 10 {
        ((48 + d) as u8) as char
    } else {
        ((55 + d) as u8) as char
    }
}

fn push_hex(out: &mut String, n: u32)
    ensures
        final(out)@ == old(out)@ + hex_upper(n as nat),
    decreases n,
{
    if n >= 16 {
        push_hex(out, n / 16);
    }
    push_char(out, hex_digit_char(n % 16));
    assert(final(out)@ =~= old(out)@ + hex_upper(n as nat));
}

fn push_encoded_char(out: &mut String, c: char)
    ensures
        final(out)@ == old(out)@ + encode_char(c),
{
    if ('A' <= c && c <= 'Z') || ('a' <= c && c <= 'z') || ('0' <= c && c <= '9') || c == '-'
        || c == '_' || c == '.' || c == '~' {
        push_char(out, c);
        assert(final(out)@ =~= old(out)@ + encode_char(c));
    } else {
        let code = c as u32;
        push_char(out, '%');
        if code < 16 {
            push_char(out, '0');
        }
        push_hex(out, code);
        assert(final(out)@ =~= old(out)@ + encode_char(c));
    }
}

/// Percent-encodes `s` for a URL query: letters, digits and `-_.~` stay,
/// every other character becomes `%` and at least two upper-case hex
/// digits of its code point.
pub fn urlencoded(s: &str) -> (r: String)
    ensures
        r@ == url_encode(s@),
{
    let v = chars_of(s);
    let mut out = String::new();
    let mut i: usize = 0;
    while i < v.len()
        invariant
            v@ == s@,
            i <= v.len(),
            out@ == url_encode(v@.subrange(0, i as int)),
        decreases v.len() - i,
    {
        proof {
            assert(v@.subrange(0, i + 1).drop_last() =~= v@.subrange(0, i as int));
        }
        push_encoded_char(&mut out, v[i]);
        i = i + 1;
    }
    assert(v@.subrange(0, v@.len() as int) =~= v@);
    out
}

/// The URL of the spoken pronunciation of `word`.
pub fn get_audio_url(word: &str) -> (r: String)
    ensures
        r@ == audio_url_of(word@),
{
    let encoded = urlencoded(word);
    let mut url = String::from_str("https://dict.youdao.com/dictvoice?audio=");
    url.append(encoded.as_str());
    url.append("&type=2");
    url
}

/// A string of unreserved characters is its own query encoding.
pub proof fn lemma_url_encode_unreserved(s: Seq<char>)
    requires
        forall|i: int| 0 <= i < s.len() ==> is_unreserved(#[trigger] s[i]),
    ensures
        url_encode(s) == s,
    decreases s.len(),
{
    if s.len() > 0 {
        lemma_url_encode_unreserved(s.drop_last());
        assert(s.drop_last().push(s.last()) =~= s);
    }
}

/// Encoding works character by character: the encoding of `a` followed by
/// `b` is the encoding of `a` followed by that of `b`; a character is kept
/// when unreserved and otherwise written as `%` followed by hexadecimal
/// digits, two of them for a code point below 256.
pub proof fn lemma_url_encode_by_character(a: Seq<char>, b: Seq<char>, c: char)
    ensures
        url_encode(a + b) == url_encode(a) + url_encode(b),
        url_encode(seq![c]) == encode_char(c),
        is_unreserved(c) ==> encode_char(c) == seq![c],
        !is_unreserved(c) ==> encode_char(c)[0] == '%',
        !is_unreserved(c) && (c as nat) < 256 ==> encode_char(c) == seq![
            '%',
            hex_digit(c as nat / 16),
            hex_digit(c as nat % 16),
        ],
    decreases b.len(),
{
    if b.len() == 0 {
        assert(a + b =~= a);
        assert(url_encode(a) + url_encode(b) =~= url_encode(a));
    } else {
        lemma_url_encode_by_character(a, b.drop_last(), c);
        assert((a + b).drop_last() =~= a + b.drop_last());
        assert((a + b).last() == b.last());
        assert(url_encode(a) + url_encode(b.drop_last()) + encode_char(b.last()) =~= url_encode(a)
            + (url_encode(b.drop_last()) + encode_char(b.last())));
    }
    assert(seq![c].drop_last() =~= Seq::<char>::empty());
    assert(url_encode(Seq::<char>::empty()) == Seq::<char>::empty());
    assert(seq![c].last() == c);
    assert(Seq::<char>::empty() + encode_char(c) =~= encode_char(c));
    if !is_unreserved(c) && (c as nat) < 256 {
        let n = c as nat;
        if n >= 16 {
            assert(n / 16 < 16);
            assert(hex_upper(n / 16) == seq![hex_digit(n / 16)]);
        }
        assert(encode_char(c) =~= seq!['%', hex_digit(n / 16), hex_digit(n % 16)]);
    }
}

/// The chain of sources tried for a selected source: the selected source
/// first, then each source of the fallback list that is not in the chain yet.
pub open spec fn chain_of(source: TranslationSource, fallback: Seq<TranslationSource>) -> Seq<
    TranslationSource,
>
    decreases fallback.len(),
{
    if fallback.len() == 0 {
        seq![source]
    } else {
        let prev = chain_of(source, fallback.drop_last());
        if prev.contains(fallback.last()) {
            prev
        } else {
            prev.push(fallback.last())
        }
    }
}

fn contains_source(v: &Vec<TranslationSource>, s: TranslationSource) -> (r: bool)
    ensures
        r == v@.contains(s),
{
    let mut i: usize = 0;
    while i < v.len()
        invariant
            i <= v.len(),
            forall|k: int| 0 <= k < i ==> v@[k] != s,
        decreases v.len() - i,
    {
        if v[i] == s {
            assert(v@[i as int] == s);
            return true;
        }
        i = i + 1;
    }
    false
}

/// The order in which sources are tried for `source`: `source` first, then
/// the fallback sources, each once.
pub fn effective_chain(source: TranslationSource, fallback: &[TranslationSource]) -> (r: Vec<
    TranslationSource,
>)
    ensures
        r@ == chain_of(source, fallback@),
{
    let mut chain: Vec<TranslationSource> = Vec::new();
    chain.push(source);
    let mut i: usize = 0;
    assert(fallback@.subrange(0, 0) =~= Seq::<TranslationSource>::empty());
    while i < fallback.len()
        invariant
            i <= fallback@.len(),
            chain@ == chain_of(source, fallback@.subrange(0, i as int)),
        decreases fallback@.len() - i,
    {
        let s = fallback[i];
        proof {
            assert(fallback@.subrange(0, i + 1).drop_last() =~= fallback@.subrange(0, i as int));
        }
        if !contains_source(&chain, s) {
            chain.push(s);
        }
        i = i + 1;
    }
    assert(fallback@.subrange(0, fallback@.len() as int) =~= fallback@);
    chain
}

/// The chain starts with the selected source, holds no source twice, and
/// holds exactly the selected source and the fallback sources.
pub proof fn lemma_chain_of(source: TranslationSource, fallback: Seq<TranslationSource>)
    ensures
        chain_of(source, fallback).len() >= 1,
        chain_of(source, fallback)[0] == source,
        chain_of(source, fallback).no_duplicates(),
        forall|s: TranslationSource|
            #[trigger] chain_of(source, fallback).contains(s) <==> (s == source || fallback.contains(
                s,
            )),
    decreases fallback.len(),
{
    if fallback.len() > 0 {
        let prev = chain_of(source, fallback.drop_last());
        lemma_chain_of(source, fallback.drop_last());
        assert forall|s: TranslationSource|
            #[trigger] fallback.contains(s) <==> (fallback.drop_last().contains(s) || s
                == fallback.last()) by {
            if fallback.contains(s) {
                let k = choose|k: int| 0 <= k < fallback.len() && fallback[k] == s;
                if k < fallback.len() - 1 {
                    assert(fallback.drop_last()[k] == s);
                }
            }
            if fallback.drop_last().contains(s) {
                let k = choose|k: int| 0 <= k < fallback.drop_last().len() && fallback.drop_last()[k] == s;
                assert(fallback[k] == s);
            }
            if s == fallback.last() {
                assert(fallback[fallback.len() - 1] == s);
            }
        }
        if !prev.contains(fallback.last()) {
            let next = prev.push(fallback.last());
            assert forall|s: TranslationSource| #[trigger] next.contains(s) <==> (prev.contains(s)
                || s == fallback.last()) by {
                if next.contains(s) {
                    let k = choose|k: int| 0 <= k < next.len() && next[k] == s;
                    if k < prev.len() {
                        assert(prev[k] == s);
                    }
                }
                if prev.contains(s) {
                    let k = choose|k: int| 0 <= k < prev.len() && prev[k] == s;
                    assert(next[k] == s);
                }
                if s == fallback.last() {
                    assert(next[prev.len() as int] == s);
                }
            }
            assert(next.no_duplicates()) by {
                assert forall|a: int, b: int|
                    0 <= a < next.len() && 0 <= b < next.len() && a != b implies next[a]
                    != next[b] by {
                    if a < prev.len() && b == prev.len() {
                        assert(prev.contains(prev[a]));
                    }
                    if b < prev.len() && a == prev.len() {
                        assert(prev.contains(prev[b]));
                    }
                }
            }
        }
    }
}

/// Progress through the chain of sources while translating one word: the
/// next source to try and the error of the last failure.
pub struct TranslationAttempts {
    chain: Vec<TranslationSource>,
    next: usize,
    last_error: Option<String>,
    finished: bool,
}

pub struct TranslationAttemptsView {
    pub chain: Seq<TranslationSource>,
    /// How many sources have failed so far.
    pub next: nat,
    pub last_error: Option<Seq<char>>,
    /// A source has answered; nothing more is tried.
    pub finished: bool,
}

impl View for TranslationAttempts {
    type V = TranslationAttemptsView;

    closed spec fn view(&self) -> TranslationAttemptsView {
        TranslationAttemptsView {
            chain: self.chain@,
            next: self.next as nat,
            last_error: match self.last_error {
                Some(e) => Some(e@),
                None => None,
            },
            finished: self.finished,
        }
    }
}

/// What is reported when every source has failed without an error message.
pub open spec fn all_sources_failed_message() -> Seq<char> {
    "所有翻译源均失败"@
}

impl TranslationAttempts {
    /// Starts translating with `source` selected and `fallback` behind it.
    pub fn new(source: TranslationSource, fallback: &[TranslationSource]) -> (r: Self)
        ensures
            r@.chain == chain_of(source, fallback@),
            r@.next == 0,
            r@.last_error is None,
            !r@.finished,
    {
        TranslationAttempts {
            chain: effective_chain(source, fallback),
            next: 0,
            last_error: None,
            finished: false,
        }
    }

    /// The source to try now, or `None` once a source has answered or every
    /// source has failed.
    pub fn next_source(&self) -> (r: Option<TranslationSource>)
        ensures
            r == if !self@.finished && self@.next < self@.chain.len() {
                Some(self@.chain[self@.next as int])
            } else {
                None
            },
    {
        if !self.finished && self.next < self.chain.len() {
            Some(self.chain[self.next])
        } else {
            None
        }
    }

    /// The answer of the source just tried. A success ends the attempts
    /// and is handed back as the result; a failure keeps its error and moves
    /// on to the next source.
    pub fn record_outcome<T>(&mut self, outcome: Result<T, String>) -> (r: Option<T>)
        requires
            !old(self)@.finished,
            old(self)@.next < old(self)@.chain.len(),
        ensures
            final(self)@.chain == old(self)@.chain,
            match outcome {
                Ok(v) => {
                    &&& r == Some(v)
                    &&& final(self)@.finished
                    &&& final(self)@.next == old(self)@.next
                    &&& final(self)@.last_error == old(self)@.last_error
                },
                Err(e) => {
                    &&& r is None
                    &&& !final(self)@.finished
                    &&& final(self)@.next == old(self)@.next + 1
                    &&& final(self)@.last_error == Some(e@)
                },
            },
    {
        match outcome {
            Ok(v) => {
                self.finished = true;
                Some(v)
            },
            Err(e) => {
                assert(self.next < self.chain.len());
                self.next = self.next + 1;
                self.last_error = Some(e);
                None
            },
        }
    }

    /// The error reported once every source has failed: the last failure,
    /// or a fixed message when there was none.
    pub fn final_error(&self) -> (r: String)
        ensures
            r@ == match self@.last_error {
                Some(e) => e,
                None => all_sources_failed_message(),
            },
    {
        match &self.last_error {
            Some(e) => e.clone(),
            None => String::from_str("所有翻译源均失败"),
        }
    }
}

} // verus!
