use vstd::prelude::*;
use vstd::string::*;
use crate::json::{JsonValue, opt_deref, json_array, json_field, opt_str, opt_field, opt_array, str_or_empty};
use crate::types::{TranslationResult, TranslationResultView};
use crate::translator::{audio_url_of, get_audio_url};

verus! {

/// The first element of an optional array.
pub open spec fn first_of(o: Option<Seq<JsonValue>>) -> Option<JsonValue> {
    match o {
        Some(items) => if items.len() > 0 {
            Some(items[0])
        } else {
            None
        },
        None => None,
    }
}

/// The translated text of a Bing answer: `data[0].translations[0].text`.
pub open spec fn bing_translation(data: JsonValue) -> Seq<char> {
    let item = first_of(json_array(data));
    let translation = first_of(opt_array(opt_field(item, "translations"@)));
    str_or_empty(opt_str(opt_field(translation, "text"@)))
}

/// What a Bing Translator answer `data` says of `word`.
pub open spec fn bing_result(word: Seq<char>, data: JsonValue) -> TranslationResultView {
    TranslationResultView {
        word,
        phonetic: Seq::empty(),
        translation: bing_translation(data),
        definitions: Seq::empty(),
        examples: Seq::empty(),
        audio_url: audio_url_of(word),
    }
}

fn first_element(v: Option<&JsonValue>) -> (r: Option<&JsonValue>)
    ensures
        opt_deref(r) == match v {
            Some(x) => first_of(json_array(*x)),
            None => None,
        },
{
    match v {
        Some(x) => match x.as_array() {
            Some(items) => {
                if items.len() > 0 {
                    Some(&items[0])
                } else {
                    None
                }
            },
            None => None,
        },
        None => None,
    }
}

fn member<'a>(v: Option<&'a JsonValue>, key: &str) -> (r: Option<&'a JsonValue>)
    ensures
        opt_deref(r) == match v {
            Some(x) => json_field(*x, key@),
            None => None,
        },
{
    match v {
        Some(x) => x.get_key(key),
        None => None,
    }
}

/// Reads a Bing Translator answer for `word`.
pub fn parse_response(word: &str, data: &JsonValue) -> (r: TranslationResult)
    ensures
        r@ == bing_result(word@, *data),
{
    let item = first_element(Some(data));
    let translations = member(item, "translations");
    let translation = first_element(translations);
    let text = member(translation, "text");
    let translation_text = match text {
        Some(t) => match t.as_str() {
            Some(s) => String::from_str(s),
            None => String::new(),
        },
        None => String::new(),
    };
    let r = TranslationResult {
        word: String::from_str(word),
        phonetic: String::new(),
        translation: translation_text,
        definitions: Vec::new(),
        examples: Vec::new(),
        audio_url: get_audio_url(word),
    };
    let ghost g = bing_result(word@, *data);
    assert(r@.definitions =~= g.definitions);
    assert(r@.examples =~= g.examples);
    assert(r@.translation == g.translation);
    r
}

/// A Bing Translator answer is read for the looked-up word: the result names that
/// word, and its pronunciation URL depends on the word alone, whatever the
/// answer holds (it is the word's URL, not the translation's); such answers
/// carry no phonetic, definitions or examples.
pub proof fn lemma_bing_result_names_word(word: Seq<char>, data: JsonValue, other: JsonValue)
    ensures
        bing_result(word, data).word == word,
        bing_result(word, data).word == bing_result(word, other).word,
        bing_result(word, data).audio_url == bing_result(word, other).audio_url,
        bing_result(word, data).audio_url == audio_url_of(word),
        bing_result(word, data).phonetic.len() == 0,
        bing_result(word, data).definitions.len() == 0,
        bing_result(word, data).examples.len() == 0,
{
}

/// An answer `[{"translations": [{"text": t, ...}, ...], ...}, ...]` is
/// read as the translation `t`; an answer without that text gives an empty
/// translation.
pub proof fn lemma_bing_reads_first_text(
    word: Seq<char>,
    data: JsonValue,
    items: Seq<JsonValue>,
    translations: Seq<JsonValue>,
    t: Seq<char>,
)
    ensures
        (json_array(data) == Some(items) && items.len() > 0 && opt_array(
            json_field(items[0], "translations"@),
        ) == Some(translations) && translations.len() > 0 && opt_str(
            json_field(translations[0], "text"@),
        ) == Some(t)) ==> bing_result(word, data).translation == t,
        json_array(data) is None ==> bing_result(word, data).translation.len() == 0,
{
}

} // verus!
