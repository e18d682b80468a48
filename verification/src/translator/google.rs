use vstd::prelude::*;
use vstd::string::*;
use crate::json::{JsonValue, json_at, json_str, opt_str, opt_at, opt_array, str_or_empty};
use crate::types::{Definition, DefinitionView, TranslationResult, TranslationResultView, definitions_view};
use crate::translator::{audio_url_of, get_audio_url};

verus! {

/// The first element of `item`, when it is a string.
pub open spec fn segment_text(item: JsonValue) -> Seq<char> {
    str_or_empty(opt_str(json_at(item, 0)))
}

/// The translated text: the first string of every segment, joined.
pub open spec fn joined_segments(items: Seq<JsonValue>) -> Seq<char>
    decreases items.len(),
{
    if items.len() == 0 {
        Seq::empty()
    } else {
        joined_segments(items.drop_last()) + segment_text(items.last())
    }
}

/// A definition for every string among `meanings`, all with part of speech `pos`.
pub open spec fn meaning_definitions(pos: Seq<char>, meanings: Seq<JsonValue>) -> Seq<DefinitionView>
    decreases meanings.len(),
{
    if meanings.len() == 0 {
        Seq::empty()
    } else {
        meaning_definitions(pos, meanings.drop_last()) + match json_str(meanings.last()) {
            Some(m) => seq![DefinitionView { part_of_speech: pos, meaning: m }],
            None => Seq::empty(),
        }
    }
}

/// The definitions of one dictionary entry `[pos, [meaning, ...], ...]`.
pub open spec fn entry_definitions(entry: JsonValue) -> Seq<DefinitionView> {
    let pos = str_or_empty(opt_str(json_at(entry, 0)));
    match opt_array(json_at(entry, 1)) {
        Some(meanings) => meaning_definitions(pos, meanings),
        None => Seq::empty(),
    }
}

/// The definitions of all dictionary entries, in order.
pub open spec fn dictionary_definitions(entries: Seq<JsonValue>) -> Seq<DefinitionView>
    decreases entries.len(),
{
    if entries.len() == 0 {
        Seq::empty()
    } else {
        dictionary_definitions(entries.drop_last()) + entry_definitions(entries.last())
    }
}

/// What a Google Translate answer `data` says of `word`: the joined first
/// strings of `data[0]`'s segments, the phonetic `data[0][1][3]`, and the
/// definitions of the dictionary `data[1]`.
pub open spec fn google_result(word: Seq<char>, data: JsonValue) -> TranslationResultView {
    let segments = json_array_at(data, 0);
    TranslationResultView {
        word,
        phonetic: match segments {
            Some(items) => str_or_empty(opt_str(opt_at(json_at_seq(items, 1), 3))),
            None => Seq::empty(),
        },
        translation: match segments {
            Some(items) => joined_segments(items),
            None => Seq::empty(),
        },
        definitions: match json_array_at(data, 1) {
            Some(entries) => dictionary_definitions(entries),
            None => Seq::empty(),
        },
        examples: Seq::empty(),
        audio_url: audio_url_of(word),
    }
}

/// `data[i]`, when it is an array.
pub open spec fn json_array_at(data: JsonValue, i: int) -> Option<Seq<JsonValue>> {
    opt_array(json_at(data, i))
}

/// The element at `i` of a sequence of values, if any.
pub open spec fn json_at_seq(items: Seq<JsonValue>, i: int) -> Option<JsonValue> {
    if 0 <= i < items.len() {
        Some(items[i])
    } else {
        None
    }
}

fn optional_text(v: Option<&JsonValue>) -> (r: String)
    ensures
        r@ == str_or_empty(match v {
            Some(x) => json_str(*x),
            None => None,
        }),
{
    match v {
        Some(x) => match x.as_str() {
            Some(s) => String::from_str(s),
            None => String::new(),
        },
        None => String::new(),
    }
}

fn push_entry_definitions(defs: &mut Vec<Definition>, entry: &JsonValue)
    ensures
        definitions_view(final(defs)@) == definitions_view(old(defs)@)
            + entry_definitions(*entry),
{
    let pos = optional_text(entry.get_index(0));
    let ghost start = definitions_view(defs@);
    match entry.get_index(1) {
        Some(m) => match m.as_array() {
            Some(meanings) => {
                let mut j: usize = 0;
                while j < meanings.len()
                    invariant
                        j <= meanings.len(),
                        definitions_view(defs@) == start + meaning_definitions(
                            pos@,
                            meanings@.subrange(0, j as int),
                        ),
                    decreases meanings.len() - j,
                {
                    proof {
                        assert(meanings@.subrange(0, j + 1).drop_last() =~= meanings@.subrange(
                            0,
                            j as int,
                        ));
                    }
                    let ghost before = defs@;
                    if let Some(text) = meanings[j].as_str() {
                        defs.push(
                            Definition {
                                part_of_speech: pos.clone(),
                                meaning: String::from_str(text),
                            },
                        );
                        assert(definitions_view(defs@) =~= definitions_view(before) + seq![defs@.last()@]);
                    } else {
                        assert(definitions_view(defs@) =~= definitions_view(before));
                    }
                    j = j + 1;
                }
                assert(meanings@.subrange(0, meanings@.len() as int) =~= meanings@);
            },
            None => {
                assert(start + entry_definitions(*entry) =~= start);
            },
        },
        None => {
            assert(start + entry_definitions(*entry) =~= start);
        },
    }
}

/// Reads a Google Translate answer for `word`.
pub fn parse_response(word: &str, data: &JsonValue) -> (r: TranslationResult)
    ensures
        r@ == google_result(word@, *data),
{
    let mut translation = String::new();
    let mut phonetic = String::new();
    let mut definitions: Vec<Definition> = Vec::new();

    if let Some(first) = data.get_index(0) {
        if let Some(items) = first.as_array() {
            let mut i: usize = 0;
            while i < items.len()
                invariant
                    i <= items.len(),
                    translation@ == joined_segments(items@.subrange(0, i as int)),
                decreases items.len() - i,
            {
                proof {
                    assert(items@.subrange(0, i + 1).drop_last() =~= items@.subrange(0, i as int));
                }
                if let Some(head) = items[i].get_index(0) {
                    if let Some(s) = head.as_str() {
                        translation.append(s);
                    }
                }
                i = i + 1;
            }
            assert(items@.subrange(0, items@.len() as int) =~= items@);
            if items.len() > 1 {
                if let Some(ph) = items[1].get_index(3) {
                    if let Some(s) = ph.as_str() {
                        phonetic = String::from_str(s);
                    }
                }
            }
        }
    }
    if let Some(second) = data.get_index(1) {
        if let Some(entries) = second.as_array() {
            let mut i: usize = 0;
            while i < entries.len()
                invariant
                    i <= entries.len(),
                    definitions_view(definitions@) == dictionary_definitions(
                        entries@.subrange(0, i as int),
                    ),
                decreases entries.len() - i,
            {
                proof {
                    assert(entries@.subrange(0, i + 1).drop_last() =~= entries@.subrange(
                        0,
                        i as int,
                    ));
                }
                push_entry_definitions(&mut definitions, &entries[i]);
                i = i + 1;
            }
            assert(entries@.subrange(0, entries@.len() as int) =~= entries@);
        }
    }
    let r = TranslationResult {
        word: String::from_str(word),
        phonetic,
        translation,
        definitions,
        examples: Vec::new(),
        audio_url: get_audio_url(word),
    };
    assert(r@.examples =~= Seq::<Seq<char>>::empty());
    let ghost g = google_result(word@, *data);
    assert(r@.word == g.word);
    assert(r@.phonetic == g.phonetic);
    assert(r@.translation == g.translation);
    assert(r@.definitions == g.definitions);
    assert(r@.audio_url == g.audio_url);
    r
}

/// The part of speech of a dictionary entry: its element 0 when that is a
/// string, else empty.
pub open spec fn entry_pos(entry: JsonValue) -> Seq<char> {
    str_or_empty(opt_str(json_at(entry, 0)))
}

/// The meanings of a dictionary entry: its element 1 when that is an array.
pub open spec fn entry_meanings(entry: JsonValue) -> Option<Seq<JsonValue>> {
    opt_array(json_at(entry, 1))
}

/// `d` is meaning `j` of entry `i` of `entries`, with that entry's part of
/// speech.
pub open spec fn is_meaning_of(entries: Seq<JsonValue>, i: int, j: int, d: DefinitionView) -> bool {
    &&& 0 <= i < entries.len()
    &&& entry_meanings(entries[i]) is Some
    &&& 0 <= j < entry_meanings(entries[i])->0.len()
    &&& json_str(entry_meanings(entries[i])->0[j]) == Some(d.meaning)
    &&& d.part_of_speech == entry_pos(entries[i])
}

/// `d` is some meaning of some entry of `entries`, with that entry's part
/// of speech.
pub open spec fn is_entry_meaning(entries: Seq<JsonValue>, d: DefinitionView) -> bool {
    exists|i: int, j: int| is_meaning_of(entries, i, j, d)
}

proof fn lemma_meaning_definitions(pos: Seq<char>, ms: Seq<JsonValue>)
    ensures
        forall|k: int|
            0 <= k < meaning_definitions(pos, ms).len() ==> {
                &&& (#[trigger] meaning_definitions(pos, ms)[k]).part_of_speech == pos
                &&& exists|j: int|
                    0 <= j < ms.len() && json_str(#[trigger] ms[j]) == Some(
                        meaning_definitions(pos, ms)[k].meaning,
                    )
            },
        forall|j: int|
            0 <= j < ms.len() && json_str(#[trigger] ms[j]) is Some ==> meaning_definitions(
                pos,
                ms,
            ).contains(DefinitionView { part_of_speech: pos, meaning: json_str(ms[j])->0 }),
        (forall|j: int| 0 <= j < ms.len() ==> json_str(#[trigger] ms[j]) is Some) ==> meaning_definitions(
            pos,
            ms,
        ) == ms.map_values(|m: JsonValue| DefinitionView { part_of_speech: pos, meaning: json_str(m)->0 }),
    decreases ms.len(),
{
    if ms.len() > 0 {
        let init = ms.drop_last();
        lemma_meaning_definitions(pos, init);
        let a = meaning_definitions(pos, init);
        let md = meaning_definitions(pos, ms);
        let tail = match json_str(ms.last()) {
            Some(m) => seq![DefinitionView { part_of_speech: pos, meaning: m }],
            None => Seq::<DefinitionView>::empty(),
        };
        assert(md == a + tail);
        assert forall|k: int| 0 <= k < md.len() implies {
            &&& (#[trigger] md[k]).part_of_speech == pos
            &&& exists|j: int| 0 <= j < ms.len() && json_str(#[trigger] ms[j]) == Some(md[k].meaning)
        } by {
            if k < a.len() {
                assert(md[k] == a[k]);
                let j = choose|j: int| 0 <= j < init.len() && json_str(#[trigger] init[j]) == Some(a[k].meaning);
                assert(ms[j] == init[j]);
            } else {
                assert(md[k] == tail[k - a.len()]);
                assert(ms[ms.len() - 1] == ms.last());
            }
        }
        assert forall|j: int| 0 <= j < ms.len() && json_str(#[trigger] ms[j]) is Some implies md.contains(
            DefinitionView { part_of_speech: pos, meaning: json_str(ms[j])->0 },
        ) by {
            let d = DefinitionView { part_of_speech: pos, meaning: json_str(ms[j])->0 };
            if j < init.len() {
                assert(init[j] == ms[j]);
                assert(a.contains(d));
                let k = choose|k: int| 0 <= k < a.len() && a[k] == d;
                assert(md[k] == d);
            } else {
                assert(ms[j] == ms.last());
                assert(md[a.len() as int] == d);
            }
        }
        if forall|j: int| 0 <= j < ms.len() ==> json_str(#[trigger] ms[j]) is Some {
            assert forall|j: int| 0 <= j < init.len() implies json_str(#[trigger] init[j]) is Some by {
                assert(init[j] == ms[j]);
            }
            assert(json_str(ms[ms.len() - 1]) is Some);
            assert(md =~= ms.map_values(
                |m: JsonValue| DefinitionView { part_of_speech: pos, meaning: json_str(m)->0 },
            ));
        }
    } else {
        assert(meaning_definitions(pos, ms) =~= ms.map_values(
            |m: JsonValue| DefinitionView { part_of_speech: pos, meaning: json_str(m)->0 },
        ));
    }
}

proof fn lemma_dictionary_definitions(entries: Seq<JsonValue>)
    ensures
        forall|i: int, j: int|
            #![trigger entries[i], is_meaning_of(entries, i, j, DefinitionView { part_of_speech: entry_pos(entries[i]), meaning: json_str(entry_meanings(entries[i])->0[j])->0 })]
            is_meaning_of(
                entries,
                i,
                j,
                DefinitionView {
                    part_of_speech: entry_pos(entries[i]),
                    meaning: json_str(entry_meanings(entries[i])->0[j])->0,
                },
            ) ==> dictionary_definitions(entries).contains(
                DefinitionView {
                    part_of_speech: entry_pos(entries[i]),
                    meaning: json_str(entry_meanings(entries[i])->0[j])->0,
                },
            ),
        forall|k: int|
            0 <= k < dictionary_definitions(entries).len() ==> is_entry_meaning(
                entries,
                #[trigger] dictionary_definitions(entries)[k],
            ),
    decreases entries.len(),
{
    if entries.len() > 0 {
        let init = entries.drop_last();
        let last = entries.last();
        lemma_dictionary_definitions(init);
        let a = dictionary_definitions(init);
        let b = entry_definitions(last);
        let dd = dictionary_definitions(entries);
        assert(dd == a + b);
        let n = entries.len() - 1;
        assert(entries[n] == last);
        if let Some(ms) = entry_meanings(last) {
            lemma_meaning_definitions(entry_pos(last), ms);
        }
        assert forall|i: int, j: int|
            #![trigger entries[i], is_meaning_of(entries, i, j, DefinitionView { part_of_speech: entry_pos(entries[i]), meaning: json_str(entry_meanings(entries[i])->0[j])->0 })]
            is_meaning_of(
                entries,
                i,
                j,
                DefinitionView {
                    part_of_speech: entry_pos(entries[i]),
                    meaning: json_str(entry_meanings(entries[i])->0[j])->0,
                },
            ) implies dd.contains(
                DefinitionView {
                    part_of_speech: entry_pos(entries[i]),
                    meaning: json_str(entry_meanings(entries[i])->0[j])->0,
                },
            ) by {
            let d = DefinitionView {
                part_of_speech: entry_pos(entries[i]),
                meaning: json_str(entry_meanings(entries[i])->0[j])->0,
            };
            if i < n {
                assert(init[i] == entries[i]);
                assert(is_meaning_of(init, i, j, d));
                assert(a.contains(d));
                let k = choose|k: int| 0 <= k < a.len() && a[k] == d;
                assert(dd[k] == d);
            } else {
                let ms = entry_meanings(last)->0;
                assert(json_str(ms[j]) is Some);
                assert(b.contains(d));
                let k = choose|k: int| 0 <= k < b.len() && b[k] == d;
                assert(dd[a.len() + k] == d);
            }
        }
        assert forall|k: int| 0 <= k < dd.len() implies is_entry_meaning(entries, #[trigger] dd[k]) by {
            if k < a.len() {
                assert(dd[k] == a[k]);
                assert(is_entry_meaning(init, a[k]));
                let (i, j) = choose|i: int, j: int| is_meaning_of(init, i, j, a[k]);
                assert(init[i] == entries[i]);
                assert(is_meaning_of(entries, i, j, dd[k]));
            } else {
                let ms = entry_meanings(last)->0;
                assert(dd[k] == b[k - a.len()]);
                assert(entry_meanings(last) is Some);
                let j = choose|j: int| 0 <= j < ms.len() && json_str(#[trigger] ms[j]) == Some(b[k - a.len()].meaning);
                assert(is_meaning_of(entries, n, j, dd[k]));
            }
        }
    } else {
        assert(dictionary_definitions(entries).len() == 0);
    }
}

/// Every meaning of every dictionary entry of a Google answer is read, with
/// that entry's part of speech; every definition read is such a meaning;
/// and an answer whose dictionary is one entry with string meanings gives
/// exactly those meanings, in order, all with the entry's part of speech.
pub proof fn lemma_google_definitions_keep_part_of_speech(word: Seq<char>, data: JsonValue)
    ensures
        ({
            let defs = google_result(word, data).definitions;
            &&& json_array_at(data, 1) matches Some(entries) ==> {
                &&& forall|i: int, j: int|
                    #![trigger entries[i], is_meaning_of(entries, i, j, DefinitionView { part_of_speech: entry_pos(entries[i]), meaning: json_str(entry_meanings(entries[i])->0[j])->0 })]
                    is_meaning_of(
                        entries,
                        i,
                        j,
                        DefinitionView {
                            part_of_speech: entry_pos(entries[i]),
                            meaning: json_str(entry_meanings(entries[i])->0[j])->0,
                        },
                    ) ==> defs.contains(
                        DefinitionView {
                            part_of_speech: entry_pos(entries[i]),
                            meaning: json_str(entry_meanings(entries[i])->0[j])->0,
                        },
                    )
                &&& forall|k: int| 0 <= k < defs.len() ==> is_entry_meaning(entries, #[trigger] defs[k])
                &&& entries.len() == 1 ==> (entry_meanings(entries[0]) matches Some(ms) ==> (
                (forall|j: int| 0 <= j < ms.len() ==> json_str(#[trigger] ms[j]) is Some) ==> defs
                    == ms.map_values(
                    |m: JsonValue|
                        DefinitionView {
                            part_of_speech: entry_pos(entries[0]),
                            meaning: json_str(m)->0,
                        },
                )))
            }
            &&& json_array_at(data, 1) is None ==> defs.len() == 0
        }),
{
    if let Some(entries) = json_array_at(data, 1) {
        lemma_dictionary_definitions(entries);
        if entries.len() == 1 {
            if let Some(ms) = entry_meanings(entries[0]) {
                lemma_meaning_definitions(entry_pos(entries[0]), ms);
                assert(entries.drop_last() =~= Seq::<JsonValue>::empty());
                assert(dictionary_definitions(entries.drop_last()) =~= Seq::<DefinitionView>::empty());
                assert(entries.last() == entries[0]);
                assert(dictionary_definitions(entries) =~= entry_definitions(entries[0]));
            }
        }
    }
}

/// A Google answer is read for the looked-up word: the result names that
/// word, has no examples, and its pronunciation URL depends on the word
/// alone, whatever the answer holds.
pub proof fn lemma_google_result_names_word(word: Seq<char>, data: JsonValue, other: JsonValue)
    ensures
        google_result(word, data).word == word,
        google_result(word, data).examples.len() == 0,
        google_result(word, data).audio_url == google_result(word, other).audio_url,
        google_result(word, data).audio_url == audio_url_of(word),
{
}

proof fn lemma_joined_segments_append(a: Seq<JsonValue>, b: Seq<JsonValue>)
    ensures
        joined_segments(a + b) == joined_segments(a) + joined_segments(b),
    decreases b.len(),
{
    if b.len() == 0 {
        assert(a + b =~= a);
        assert(joined_segments(a) + Seq::<char>::empty() =~= joined_segments(a));
    } else {
        lemma_joined_segments_append(a, b.drop_last());
        assert((a + b).drop_last() =~= a + b.drop_last());
        assert((a + b).last() == b.last());
        assert(joined_segments(a) + joined_segments(b.drop_last()) + segment_text(b.last())
            =~= joined_segments(a) + (joined_segments(b.drop_last()) + segment_text(b.last())));
    }
}

/// The translation of a Google answer is the text of its segments, joined
/// in order: a segment `[s, ...]` contributes `s`, a segment without a
/// leading string contributes nothing, and the text of segments `a` then
/// `b` is the text of `a` followed by the text of `b`. The phonetic is the
/// string at `data[0][1][3]`.
pub proof fn lemma_google_translation_joins_segments(
    word: Seq<char>,
    data: JsonValue,
    a: Seq<JsonValue>,
    b: Seq<JsonValue>,
    item: JsonValue,
)
    ensures
        joined_segments(a + b) == joined_segments(a) + joined_segments(b),
        joined_segments(seq![item]) == match json_at(item, 0) {
            Some(head) => match json_str(head) {
                Some(t) => t,
                None => Seq::empty(),
            },
            None => Seq::empty(),
        },
        json_array_at(data, 0) matches Some(items) ==> google_result(word, data).translation
            == joined_segments(items),
        json_array_at(data, 0) is None ==> google_result(word, data).translation.len() == 0,
        json_array_at(data, 0) matches Some(items) ==> (items.len() > 1 ==> (json_str_at(
            items[1],
            3,
        ) matches Some(p) ==> google_result(word, data).phonetic == p)),
{
    lemma_joined_segments_append(a, b);
    assert(seq![item].drop_last() =~= Seq::<JsonValue>::empty());
    assert(joined_segments(Seq::<JsonValue>::empty()) + segment_text(item) =~= segment_text(item));
}

/// Element `i` of `v`, when it is a string.
pub open spec fn json_str_at(v: JsonValue, i: int) -> Option<Seq<char>> {
    opt_str(json_at(v, i))
}

} // verus!
