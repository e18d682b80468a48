use vstd::prelude::*;
use vstd::string::*;
use crate::json::{JsonValue, json_field, opt_str, opt_field, str_or_empty};
use crate::types::{TranslationResult, TranslationResultView};
use crate::translator::{audio_url_of, get_audio_url};

verus! {

/// The translated text of a MyMemory answer: `data.responseData.translatedText`.
pub open spec fn mymemory_translation(data: JsonValue) -> Seq<char> {
    str_or_empty(opt_str(opt_field(json_field(data, "responseData"@), "translatedText"@)))
}

/// What a MyMemory answer `data` says of `word`.
pub open spec fn mymemory_result(word: Seq<char>, data: JsonValue) -> TranslationResultView {
    TranslationResultView {
        word,
        phonetic: Seq::empty(),
        translation: mymemory_translation(data),
        definitions: Seq::empty(),
        examples: Seq::empty(),
        audio_url: audio_url_of(word),
    }
}

/// Reads a MyMemory answer for `word`.
pub fn parse_response(word: &str, data: &JsonValue) -> (r: TranslationResult)
    ensures
        r@ == mymemory_result(word@, *data),
{
    let translation_text = match data.get_key("responseData") {
        Some(rd) => match rd.get_key("translatedText") {
            Some(t) => match t.as_str() {
                Some(s) => String::from_str(s),
                None => String::new(),
            },
            None => String::new(),
        },
        None => String::new(),
    };
    let r = TranslationResult {
        word: String::from_str(word),
        phonetic: String::new(),
        translation: translation_text,
        definitions: Vec::new(),
        examples: Vec::new(),
        audio_url: get_audio_url(word),
    };
    let ghost g = mymemory_result(word@, *data);
    assert(r@.definitions =~= g.definitions);
    assert(r@.examples =~= g.examples);
    assert(r@.translation == g.translation);
    r
}

/// A MyMemory answer is read for the looked-up word: the result names that
/// word, and its pronunciation URL depends on the word alone, whatever the
/// answer holds (it is the word's URL, not the translation's); such answers
/// carry no phonetic, definitions or examples.
pub proof fn lemma_mymemory_result_names_word(word: Seq<char>, data: JsonValue, other: JsonValue)
    ensures
        mymemory_result(word, data).word == word,
        mymemory_result(word, data).word == mymemory_result(word, other).word,
        mymemory_result(word, data).audio_url == mymemory_result(word, other).audio_url,
        mymemory_result(word, data).audio_url == audio_url_of(word),
        mymemory_result(word, data).phonetic.len() == 0,
        mymemory_result(word, data).definitions.len() == 0,
        mymemory_result(word, data).examples.len() == 0,
{
}

/// An answer `{"responseData": {"translatedText": t, ...}, ...}` is read as
/// the translation `t`; an answer without that text gives an empty
/// translation.
pub proof fn lemma_mymemory_reads_translated_text(
    word: Seq<char>,
    data: JsonValue,
    response: JsonValue,
    t: Seq<char>,
)
    ensures
        (json_field(data, "responseData"@) == Some(response) && opt_str(
            json_field(response, "translatedText"@),
        ) == Some(t)) ==> mymemory_result(word, data).translation == t,
        json_field(data, "responseData"@) is None ==> mymemory_result(word, data).translation.len()
            == 0,
{
}

} // verus!
