use vstd::prelude::*;
use vstd::string::*;
use crate::text::{all_ascii, lowercase, to_lower, str_eq};
use crate::types::{WordEntry, WordEntryView, strings_view, clone_strings};

verus! {

/// An entry is filed under `key` when its word and `key` lower-case alike.
pub open spec fn entry_matches(e: WordEntryView, key: Seq<char>) -> bool {
    lowercase(e.word) == lowercase(key)
}

/// `i` is the first entry filed under `key`.
pub open spec fn is_first_match(ws: Seq<WordEntryView>, key: Seq<char>, i: int) -> bool {
    &&& 0 <= i < ws.len()
    &&& entry_matches(ws[i], key)
    &&& forall|j: int| 0 <= j < i ==> !entry_matches(#[trigger] ws[j], key)
}

/// Some entry is filed under `key`.
pub open spec fn has_match(ws: Seq<WordEntryView>, key: Seq<char>) -> bool {
    exists|i: int| 0 <= i < ws.len() && entry_matches(#[trigger] ws[i], key)
}

/// The index of the first entry filed under `key`, if any.
pub open spec fn find_first(ws: Seq<WordEntryView>, key: Seq<char>) -> Option<int> {
    if exists|i: int| is_first_match(ws, key, i) {
        Some(choose|i: int| is_first_match(ws, key, i))
    } else {
        None
    }
}

/// The entries not filed under `key`, in their order.
pub open spec fn without_matches(ws: Seq<WordEntryView>, key: Seq<char>) -> Seq<WordEntryView>
    decreases ws.len(),
{
    if ws.len() == 0 {
        Seq::empty()
    } else {
        without_matches(ws.drop_last(), key) + if entry_matches(ws.last(), key) {
            Seq::empty()
        } else {
            seq![ws.last()]
        }
    }
}

/// A lookup of `key` can be counted: the entry it finds, if any, has not
/// reached the largest count.
pub open spec fn can_count_lookup(ws: Seq<WordEntryView>, key: Seq<char>) -> bool {
    match find_first(ws, key) {
        Some(i) => ws[i].query_count < u32::MAX,
        None => true,
    }
}

/// A new entry for a word looked up for the first time at `now`.
pub open spec fn new_entry(
    word: Seq<char>,
    translation: Seq<char>,
    phonetic: Seq<char>,
    examples: Seq<Seq<char>>,
    source_context: Seq<char>,
    now: Seq<char>,
) -> WordEntryView {
    WordEntryView {
        word: lowercase(word),
        translation,
        phonetic,
        examples,
        query_time: now,
        last_query_time: now,
        source_context,
        query_count: 1,
        mastered: false,
        favorited: false,
    }
}

/// An entry looked up once more at `now`: one more lookup, the new time,
/// and the context filled in when it had none.
pub open spec fn counted_entry(e: WordEntryView, source_context: Seq<char>, now: Seq<char>) -> WordEntryView {
    WordEntryView {
        query_count: (e.query_count + 1) as u32,
        last_query_time: now,
        source_context: if source_context.len() > 0 && e.source_context.len() == 0 {
            source_context
        } else {
            e.source_context
        },
        ..e
    }
}

/// The word book after looking up `word` at `now`.
pub open spec fn after_lookup(
    ws: Seq<WordEntryView>,
    word: Seq<char>,
    translation: Seq<char>,
    phonetic: Seq<char>,
    examples: Seq<Seq<char>>,
    source_context: Seq<char>,
    now: Seq<char>,
) -> Seq<WordEntryView> {
    match find_first(ws, word) {
        Some(i) => ws.update(i, counted_entry(ws[i], source_context, now)),
        None => ws.push(new_entry(word, translation, phonetic, examples, source_context, now)),
    }
}

/// An entry with its favourite mark set to `favorited`.
pub open spec fn with_favorited(e: WordEntryView, favorited: bool) -> WordEntryView {
    WordEntryView { favorited, ..e }
}

/// An entry with its mastered mark set to `mastered`.
pub open spec fn with_mastered(e: WordEntryView, mastered: bool) -> WordEntryView {
    WordEntryView { mastered, ..e }
}

/// An entry with its translation replaced by `translation`.
pub open spec fn with_translation(e: WordEntryView, translation: Seq<char>) -> WordEntryView {
    WordEntryView { translation, ..e }
}

/// Entries `a` and `b` agree on every field but the marks and the translation.
pub open spec fn same_lookups(a: WordEntryView, b: WordEntryView) -> bool {
    &&& a.word == b.word
    &&& a.phonetic == b.phonetic
    &&& a.examples == b.examples
    &&& a.query_time == b.query_time
    &&& a.last_query_time == b.last_query_time
    &&& a.source_context == b.source_context
    &&& a.query_count == b.query_count
}

/// Each update sets its own field to the given value and leaves every other
/// field of the entry as it was.
pub proof fn lemma_updates_set_one_field(e: WordEntryView, mark: bool, translation: Seq<char>)
    ensures
        with_favorited(e, mark).favorited == mark,
        same_lookups(with_favorited(e, mark), e),
        with_favorited(e, mark).mastered == e.mastered,
        with_favorited(e, mark).translation == e.translation,
        with_mastered(e, mark).mastered == mark,
        same_lookups(with_mastered(e, mark), e),
        with_mastered(e, mark).favorited == e.favorited,
        with_mastered(e, mark).translation == e.translation,
        with_translation(e, translation).translation == translation,
        same_lookups(with_translation(e, translation), e),
        with_translation(e, translation).favorited == e.favorited,
        with_translation(e, translation).mastered == e.mastered,
{
}

/// The word book after setting, on the entry filed under `word`, one field
/// with `set`.
pub open spec fn after_update(
    ws: Seq<WordEntryView>,
    word: Seq<char>,
    set: spec_fn(WordEntryView) -> WordEntryView,
) -> Seq<WordEntryView> {
    match find_first(ws, word) {
        Some(i) => ws.update(i, set(ws[i])),
        None => ws,
    }
}

proof fn lemma_first_match_unique(ws: Seq<WordEntryView>, key: Seq<char>, i: int)
    requires
        is_first_match(ws, key, i),
    ensures
        find_first(ws, key) == Some(i),
{
    let k = choose|k: int| is_first_match(ws, key, k);
    assert(is_first_match(ws, key, k));
    if k < i {
        assert(!entry_matches(ws[k], key));
    }
    if i < k {
        assert(!entry_matches(ws[i], key));
    }
}

proof fn lemma_without_matches_len(ws: Seq<WordEntryView>, key: Seq<char>)
    ensures
        without_matches(ws, key).len() <= ws.len(),
        without_matches(ws, key).len() < ws.len() <==> has_match(ws, key),
    decreases ws.len(),
{
    if ws.len() > 0 {
        let init = ws.drop_last();
        lemma_without_matches_len(init, key);
        if has_match(init, key) {
            let k = choose|k: int| 0 <= k < init.len() && entry_matches(#[trigger] init[k], key);
            assert(entry_matches(ws[k], key));
        }
        if has_match(ws, key) && !entry_matches(ws.last(), key) {
            let k = choose|k: int| 0 <= k < ws.len() && entry_matches(#[trigger] ws[k], key);
            assert(k < ws.len() - 1);
            assert(entry_matches(init[k], key));
        }
        if entry_matches(ws.last(), key) {
            assert(entry_matches(ws[ws.len() - 1], key));
        }
    }
}

/// Lookups ignore case: two keys that lower-case alike find the same entry.
pub proof fn lemma_lookup_ignores_case(ws: Seq<WordEntryView>, a: Seq<char>, b: Seq<char>)
    ensures
        lowercase(a) == lowercase(b) ==> find_first(ws, a) == find_first(ws, b),
{
    if lowercase(a) == lowercase(b) {
        assert forall|i: int| is_first_match(ws, a, i) <==> is_first_match(ws, b, i) by {}
    }
}

/// `find_first` finds an entry exactly when some entry is filed under the key.
pub proof fn lemma_find_first_iff_match(ws: Seq<WordEntryView>, key: Seq<char>)
    ensures
        find_first(ws, key) is Some <==> has_match(ws, key),
        find_first(ws, key) matches Some(i) ==> is_first_match(ws, key, i),
    decreases ws.len(),
{
    if has_match(ws, key) {
        let k = choose|k: int| 0 <= k < ws.len() && entry_matches(#[trigger] ws[k], key);
        lemma_first_match_below(ws, key, k);
    }
    if find_first(ws, key) is Some {
        let i = find_first(ws, key)->0;
        assert(is_first_match(ws, key, i));
        assert(entry_matches(ws[i], key));
    }
}

proof fn lemma_first_match_below(ws: Seq<WordEntryView>, key: Seq<char>, k: int)
    requires
        0 <= k < ws.len(),
        entry_matches(ws[k], key),
    ensures
        exists|i: int| is_first_match(ws, key, i),
    decreases k,
{
    if forall|j: int| 0 <= j < k ==> !entry_matches(#[trigger] ws[j], key) {
        assert(is_first_match(ws, key, k));
    } else {
        let j = choose|j: int| 0 <= j < k && entry_matches(#[trigger] ws[j], key);
        lemma_first_match_below(ws, key, j);
    }
}

/// A lookup is recorded where a later lookup finds it: a word already in
/// the book keeps its place and counts one more lookup at `now`, fills in an
/// empty context, and keeps everything else it had (word, translation,
/// phonetic, examples, first lookup time, mastered and favourite marks),
/// with nothing else of the book changed; a new word (whose lower-cased form
/// lower-cases to itself) is added at the end, counted once, first and last
/// looked up at `now`, and is what the next lookup of the word finds.
pub proof fn lemma_lookup_then_find(
    ws: Seq<WordEntryView>,
    word: Seq<char>,
    translation: Seq<char>,
    phonetic: Seq<char>,
    examples: Seq<Seq<char>>,
    source_context: Seq<char>,
    now: Seq<char>,
)
    ensures
        ({
            let after = after_lookup(ws, word, translation, phonetic, examples, source_context, now);
            &&& has_match(ws, word) ==> {
                let i = find_first(ws, word)->0;
                &&& after.len() == ws.len()
                &&& find_first(after, word) == Some(i)
                &&& after[i].query_count == ws[i].query_count + 1
                    || ws[i].query_count == u32::MAX
                &&& after[i].last_query_time == now
                &&& after[i].word == ws[i].word
                &&& after[i].translation == ws[i].translation
                &&& after[i].phonetic == ws[i].phonetic
                &&& after[i].examples == ws[i].examples
                &&& after[i].query_time == ws[i].query_time
                &&& after[i].mastered == ws[i].mastered
                &&& after[i].favorited == ws[i].favorited
                &&& (ws[i].source_context.len() > 0 ==> after[i].source_context
                    == ws[i].source_context)
                &&& (ws[i].source_context.len() == 0 ==> after[i].source_context
                    == source_context)
                &&& forall|j: int| 0 <= j < ws.len() && j != i ==> after[j] == ws[j]
            }
            &&& (!has_match(ws, word) && lowercase(lowercase(word)) == lowercase(word)) ==> {
                &&& after.len() == ws.len() + 1
                &&& find_first(after, word) == Some(ws.len() as int)
                &&& after[ws.len() as int].query_count == 1
                &&& after[ws.len() as int].query_time == now
                &&& after[ws.len() as int].last_query_time == now
                &&& after[ws.len() as int].word == lowercase(word)
                &&& after[ws.len() as int].translation == translation
                &&& after[ws.len() as int].phonetic == phonetic
                &&& after[ws.len() as int].examples == examples
                &&& after[ws.len() as int].source_context == source_context
                &&& !after[ws.len() as int].mastered
                &&& !after[ws.len() as int].favorited
                &&& after.subrange(0, ws.len() as int) == ws
            }
        }),
{
    let after = after_lookup(ws, word, translation, phonetic, examples, source_context, now);
    lemma_find_first_iff_match(ws, word);
    if has_match(ws, word) {
        let i = find_first(ws, word)->0;
        assert(is_first_match(after, word, i));
        lemma_first_match_unique(after, word, i);
    } else if lowercase(lowercase(word)) == lowercase(word) {
        let n = ws.len() as int;
        assert forall|j: int| 0 <= j < n implies !entry_matches(#[trigger] after[j], word) by {
            assert(after[j] == ws[j]);
            if entry_matches(ws[j], word) {
                assert(has_match(ws, word));
            }
        }
        assert(is_first_match(after, word, n));
        lemma_first_match_unique(after, word, n);
        assert(after.subrange(0, n) =~= ws);
    }
}

/// After a delete no entry is filed under the word, and every entry that
/// was not filed under it is still there, in order.
pub proof fn lemma_delete_then_absent(ws: Seq<WordEntryView>, word: Seq<char>)
    ensures
        !has_match(without_matches(ws, word), word),
        find_first(without_matches(ws, word), word) is None,
        !has_match(ws, word) ==> without_matches(ws, word) == ws,
    decreases ws.len(),
{
    let r = without_matches(ws, word);
    if ws.len() > 0 {
        let init = ws.drop_last();
        lemma_delete_then_absent(init, word);
        let ri = without_matches(init, word);
        if has_match(r, word) {
            let k = choose|k: int| 0 <= k < r.len() && entry_matches(#[trigger] r[k], word);
            if k < ri.len() {
                assert(r[k] == ri[k]);
                assert(has_match(ri, word));
            }
        }
        if !has_match(ws, word) {
            assert forall|j: int| 0 <= j < init.len() implies !entry_matches(#[trigger] init[j], word) by {
                assert(init[j] == ws[j]);
            }
            assert(!entry_matches(ws[ws.len() - 1], word));
            assert(init.push(ws.last()) =~= ws);
        }
    }
    lemma_find_first_iff_match(r, word);
}

/// No two entries are filed under the same key.
pub open spec fn distinct_keys(ws: Seq<WordEntryView>) -> bool {
    forall|i: int, j: int|
        #![trigger ws[i], ws[j]]
        0 <= i < j < ws.len() ==> lowercase(ws[i].word) != lowercase(ws[j].word)
}

/// Recording a lookup never files two entries under one key: an existing
/// entry keeps its word, and a new word (whose lower-cased form lower-cases
/// to itself) is filed under a key no entry had.
pub proof fn lemma_lookup_keeps_keys_distinct(
    ws: Seq<WordEntryView>,
    word: Seq<char>,
    translation: Seq<char>,
    phonetic: Seq<char>,
    examples: Seq<Seq<char>>,
    source_context: Seq<char>,
    now: Seq<char>,
)
    ensures
        distinct_keys(ws) && (has_match(ws, word) || lowercase(lowercase(word)) == lowercase(word))
            ==> distinct_keys(
            after_lookup(ws, word, translation, phonetic, examples, source_context, now),
        ),
{
    let after = after_lookup(ws, word, translation, phonetic, examples, source_context, now);
    lemma_find_first_iff_match(ws, word);
    if distinct_keys(ws) && has_match(ws, word) {
        let k = find_first(ws, word)->0;
        assert forall|i: int, j: int|
            #![trigger after[i], after[j]]
            0 <= i < j < after.len() implies lowercase(after[i].word) != lowercase(after[j].word) by {
            assert(after[i].word == ws[i].word);
            assert(after[j].word == ws[j].word);
            assert(lowercase(ws[i].word) != lowercase(ws[j].word));
        }
    } else if distinct_keys(ws) && lowercase(lowercase(word)) == lowercase(word) {
        let n = ws.len() as int;
        assert forall|i: int, j: int|
            #![trigger after[i], after[j]]
            0 <= i < j < after.len() implies lowercase(after[i].word) != lowercase(after[j].word) by {
            assert(after[i] == ws[i]);
            if j < n {
                assert(after[j] == ws[j]);
                assert(lowercase(ws[i].word) != lowercase(ws[j].word));
            } else {
                if lowercase(ws[i].word) == lowercase(word) {
                    assert(entry_matches(ws[i], word));
                    assert(has_match(ws, word));
                }
            }
        }
    }
}

/// Setting a field of the entry filed under a word changes that entry only,
/// and a later lookup of the word finds the changed entry.
pub proof fn lemma_update_then_find(
    ws: Seq<WordEntryView>,
    word: Seq<char>,
    set: spec_fn(WordEntryView) -> WordEntryView,
)
    ensures
        ({
            let after = after_update(ws, word, set);
            &&& after.len() == ws.len()
            &&& (has_match(ws, word) && (forall|e: WordEntryView| #[trigger] set(e).word == e.word))
                ==> {
                let i = find_first(ws, word)->0;
                &&& find_first(after, word) == Some(i)
                &&& after[i] == set(ws[i])
                &&& forall|j: int| 0 <= j < ws.len() && j != i ==> after[j] == ws[j]
            }
            &&& !has_match(ws, word) ==> after == ws
        }),
{
    lemma_find_first_iff_match(ws, word);
    if has_match(ws, word) && (forall|e: WordEntryView| #[trigger] set(e).word == e.word) {
        let i = find_first(ws, word)->0;
        let after = after_update(ws, word, set);
        assert(after[i].word == ws[i].word);
        assert(is_first_match(after, word, i));
        lemma_first_match_unique(after, word, i);
    }
}

/// The words looked up, in the order they were first looked up.
pub struct Wordbook {
    words: Vec<WordEntry>,
}

impl View for Wordbook {
    type V = Seq<WordEntryView>;

    closed spec fn view(&self) -> Seq<WordEntryView> {
        self.words@.map_values(|e: WordEntry| e@)
    }
}

impl Wordbook {
    /// A word book holding `words`, as loaded from storage.
    pub fn new(words: Vec<WordEntry>) -> (r: Self)
        ensures
            r@ == words@.map_values(|e: WordEntry| e@),
    {
        Wordbook { words }
    }

    /// Index of the first entry filed under `word`.
    fn find_index(&self, word: &str) -> (r: Option<usize>)
        ensures
            match r {
                Some(i) => find_first(self@, word@) == Some(i as int) && i < self@.len(),
                None => find_first(self@, word@) is None && !has_match(self@, word@),
            },
    {
        let key = to_lower(word);
        let mut i: usize = 0;
        while i < self.words.len()
            invariant
                key@ == lowercase(word@),
                i <= self.words@.len(),
                self@.len() == self.words@.len(),
                forall|j: int| 0 <= j < self@.len() ==> #[trigger] self@[j] == self.words@[j]@,
                forall|j: int| 0 <= j < i ==> !entry_matches(#[trigger] self@[j], word@),
            decreases self.words.len() - i,
        {
            let lw = to_lower(self.words[i].word.as_str());
            if str_eq(lw.as_str(), key.as_str()) {
                proof {
                    assert(is_first_match(self@, word@, i as int));
                    lemma_first_match_unique(self@, word@, i as int);
                }
                return Some(i);
            }
            i = i + 1;
        }
        proof {
            if exists|k: int| is_first_match(self@, word@, k) {
                let k = choose|k: int| is_first_match(self@, word@, k);
                assert(!entry_matches(self@[k], word@));
            }
            if has_match(self@, word@) {
                let k = choose|k: int| 0 <= k < self@.len() && entry_matches(#[trigger] self@[k], word@);
                assert(!entry_matches(self@[k], word@));
            }
        }
        None
    }

    /// The entry filed under `word` (compared ignoring case), if any.
    pub fn get_word(&self, word: &str) -> (r: Option<WordEntry>)
        ensures
            match find_first(self@, word@) {
                Some(i) => r matches Some(e) && e@ == self@[i],
                None => r is None,
            },
    {
        match self.find_index(word) {
            Some(i) => Some(self.words[i].clone()),
            None => None,
        }
    }

    /// Every entry, in order.
    pub fn list_words(&self) -> (r: Vec<WordEntry>)
        ensures
            r@.map_values(|e: WordEntry| e@) == self@,
    {
        let mut out: Vec<WordEntry> = Vec::new();
        let mut i: usize = 0;
        while i < self.words.len()
            invariant
                i <= self.words@.len(),
                out@.len() == i,
                forall|k: int| 0 <= k < i ==> (#[trigger] out@[k])@ == self.words@[k]@,
            decreases self.words.len() - i,
        {
            out.push(self.words[i].clone());
            i = i + 1;
        }
        assert(out@.map_values(|e: WordEntry| e@) =~= self@);
        out
    }

    /// Replaces the entry at index `i`.
    fn set_entry(&mut self, i: usize, entry: WordEntry)
        requires
            i < old(self)@.len(),
        ensures
            final(self)@ == old(self)@.update(i as int, entry@),
    {
        let ghost before = self.words@;
        self.words.set(i, entry);
        assert(self@ =~= before.map_values(|e: WordEntry| e@).update(i as int, entry@));
    }

    /// Sets the favourite mark of the entry filed under `word`; `false` when
    /// there is none.
    pub fn update_favorited(&mut self, word: &str, favorited: bool) -> (r: bool)
        ensures
            r == has_match(old(self)@, word@),
            final(self)@ == after_update(
                old(self)@,
                word@,
                |e: WordEntryView| with_favorited(e, favorited),
            ),
    {
        match self.find_index(word) {
            Some(i) => {
                let mut entry = self.words[i].clone();
                entry.favorited = favorited;
                self.set_entry(i, entry);
                true
            },
            None => false,
        }
    }

    /// Sets the mastered mark of the entry filed under `word`; `false` when
    /// there is none.
    pub fn update_mastered(&mut self, word: &str, mastered: bool) -> (r: bool)
        ensures
            r == has_match(old(self)@, word@),
            final(self)@ == after_update(
                old(self)@,
                word@,
                |e: WordEntryView| with_mastered(e, mastered),
            ),
    {
        match self.find_index(word) {
            Some(i) => {
                let mut entry = self.words[i].clone();
                entry.mastered = mastered;
                self.set_entry(i, entry);
                true
            },
            None => false,
        }
    }

    /// Replaces the translation of the entry filed under `word`; `false`
    /// when there is none.
    pub fn update_translation(&mut self, word: &str, translation: &str) -> (r: bool)
        ensures
            r == has_match(old(self)@, word@),
            final(self)@ == after_update(
                old(self)@,
                word@,
                |e: WordEntryView| with_translation(e, translation@),
            ),
    {
        match self.find_index(word) {
            Some(i) => {
                let mut entry = self.words[i].clone();
                entry.translation = String::from_str(translation);
                self.set_entry(i, entry);
                true
            },
            None => false,
        }
    }

    /// Removes every entry filed under `word`; `true` when one was removed.
    pub fn delete_word(&mut self, word: &str) -> (r: bool)
        ensures
            r == has_match(old(self)@, word@),
            final(self)@ == without_matches(old(self)@, word@),
    {
        let key = to_lower(word);
        let len_before = self.words.len();
        let mut kept: Vec<WordEntry> = Vec::new();
        let mut i: usize = 0;
        while i < self.words.len()
            invariant
                key@ == lowercase(word@),
                i <= self.words@.len(),
                len_before == self.words@.len(),
                self@.len() == self.words@.len(),
                forall|j: int| 0 <= j < self@.len() ==> #[trigger] self@[j] == self.words@[j]@,
                kept@.map_values(|e: WordEntry| e@) == without_matches(self@.subrange(0, i as int), word@),
            decreases self.words.len() - i,
        {
            proof {
                assert(self@.subrange(0, i + 1).drop_last() =~= self@.subrange(0, i as int));
            }
            let lw = to_lower(self.words[i].word.as_str());
            let ghost before = kept@;
            if !str_eq(lw.as_str(), key.as_str()) {
                kept.push(self.words[i].clone());
                assert(kept@.map_values(|e: WordEntry| e@) =~= before.map_values(|e: WordEntry| e@).push(self@[i as int]));
            }
            i = i + 1;
        }
        assert(self@.subrange(0, self@.len() as int) =~= self@);
        let ghost old_view = self@;
        self.words = kept;
        proof {
            lemma_without_matches_len(old_view, word@);
        }
        self.words.len() < len_before
    }

    /// Records a lookup of `word` at `now`: the entry filed under `word`
    /// counts one more lookup at `now` and takes `source_context` if it had
    /// none; a word not in the book yet gets a new entry, in lower case.
    pub fn add_word(
        &mut self,
        word: &str,
        translation: &str,
        phonetic: &str,
        examples: &[String],
        source_context: &str,
        now: String,
    )
        requires
            can_count_lookup(old(self)@, word@),
        ensures
            final(self)@ == after_lookup(
                old(self)@,
                word@,
                translation@,
                phonetic@,
                strings_view(examples@),
                source_context@,
                now@,
            ),
            all_ascii(word@) ==> find_first(final(self)@, word@) is Some,
            all_ascii(word@) && distinct_keys(old(self)@) ==> distinct_keys(final(self)@),
    {
        let ghost before_view = self@;
        proof {
            lemma_find_first_iff_match(before_view, word@);
            lemma_lookup_then_find(
                before_view,
                word@,
                translation@,
                phonetic@,
                strings_view(examples@),
                source_context@,
                now@,
            );
            lemma_lookup_keeps_keys_distinct(
                before_view,
                word@,
                translation@,
                phonetic@,
                strings_view(examples@),
                source_context@,
                now@,
            );
        }
        match self.find_index(word) {
            Some(i) => {
                let old_entry = &self.words[i];
                let keep_context = source_context.unicode_len() == 0
                    || old_entry.source_context.as_str().unicode_len() > 0;
                let entry = WordEntry {
                    word: old_entry.word.clone(),
                    translation: old_entry.translation.clone(),
                    phonetic: old_entry.phonetic.clone(),
                    examples: clone_strings(&old_entry.examples),
                    query_time: old_entry.query_time.clone(),
                    last_query_time: now,
                    source_context: if keep_context {
                        old_entry.source_context.clone()
                    } else {
                        String::from_str(source_context)
                    },
                    query_count: old_entry.query_count + 1,
                    mastered: old_entry.mastered,
                    favorited: old_entry.favorited,
                };
                let ghost before = self.words@;
                self.words.set(i, entry);
                assert(self@ =~= before.map_values(|e: WordEntry| e@).update(
                    i as int,
                    counted_entry(before[i as int]@, source_context@, now@),
                ));
            },
            None => {
                let mut examples_copy: Vec<String> = Vec::new();
                let mut k: usize = 0;
                while k < examples.len()
                    invariant
                        k <= examples@.len(),
                        examples_copy@ == examples@.subrange(0, k as int),
                    decreases examples.len() - k,
                {
                    examples_copy.push(examples[k].clone());
                    k = k + 1;
                }
                assert(examples_copy@ =~= examples@);
                let lowered = to_lower(word);
                let entry = WordEntry {
                    word: lowered,
                    translation: String::from_str(translation),
                    phonetic: String::from_str(phonetic),
                    examples: examples_copy,
                    query_time: now.clone(),
                    last_query_time: now,
                    source_context: String::from_str(source_context),
                    query_count: 1,
                    mastered: false,
                    favorited: false,
                };
                let ghost before = self.words@;
                self.words.push(entry);
                assert(self@ =~= before.map_values(|e: WordEntry| e@).push(
                    new_entry(
                        word@,
                        translation@,
                        phonetic@,
                        strings_view(examples@),
                        source_context@,
                        now@,
                    ),
                ));
            },
        }
    }

    /// Records a lookup of `word` at `now` when it can be counted, and
    /// returns `true`; returns `false`, leaving the book as it is, when the
    /// entry filed under `word` has already reached the largest count.
    pub fn try_add_word(
        &mut self,
        word: &str,
        translation: &str,
        phonetic: &str,
        examples: &[String],
        source_context: &str,
        now: String,
    ) -> (r: bool)
        ensures
            r == can_count_lookup(old(self)@, word@),
            r ==> final(self)@ == after_lookup(
                old(self)@,
                word@,
                translation@,
                phonetic@,
                strings_view(examples@),
                source_context@,
                now@,
            ),
            !r ==> final(self)@ == old(self)@,
    {
        if let Some(i) = self.find_index(word) {
            if self.words[i].query_count == u32::MAX {
                return false;
            }
        }
        self.add_word(word, translation, phonetic, examples, source_context, now);
        true
    }
}

} // verus!
