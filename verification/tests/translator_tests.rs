use catchword::json::JsonValue;
use catchword::translator::{
    bing, effective_chain, get_audio_url, google, mymemory, urlencoded, TranslationAttempts,
};
use catchword::types::TranslationSource::{self, Bing, Google, MyMemory};

fn s(t: &str) -> JsonValue {
    JsonValue::Str(t.to_string())
}

fn arr(items: Vec<JsonValue>) -> JsonValue {
    JsonValue::Array(items)
}

fn obj(members: Vec<(&str, JsonValue)>) -> JsonValue {
    JsonValue::Object(members.into_iter().map(|(k, v)| (k.to_string(), v)).collect())
}

#[test]
fn urlencoded_keeps_unreserved() {
    assert_eq!(urlencoded("hello"), "hello");
    assert_eq!(urlencoded("A-z_0.9~"), "A-z_0.9~");
    assert_eq!(urlencoded(""), "");
}

#[test]
fn urlencoded_escapes_code_points() {
    assert_eq!(urlencoded("a b"), "a%20b");
    assert_eq!(urlencoded("it's"), "it%27s");
    assert_eq!(urlencoded("\n"), "%0A");
    assert_eq!(urlencoded("é"), "%E9");
    assert_eq!(urlencoded("中"), "%4E2D");
    assert_eq!(urlencoded("😀"), "%1F600");
}

#[test]
fn audio_url_formula() {
    assert_eq!(get_audio_url("hello"), "https://dict.youdao.com/dictvoice?audio=hello&type=2");
    assert_eq!(
        get_audio_url("ice cream"),
        "https://dict.youdao.com/dictvoice?audio=ice%20cream&type=2"
    );
}

#[test]
fn chain_puts_selected_source_first_without_repeats() {
    assert_eq!(effective_chain(Bing, &[Google, Bing, MyMemory]), vec![Bing, Google, MyMemory]);
    assert_eq!(effective_chain(Google, &[Google, Bing, MyMemory]), vec![Google, Bing, MyMemory]);
    assert_eq!(effective_chain(MyMemory, &[Bing, MyMemory]), vec![MyMemory, Bing]);
    assert_eq!(effective_chain(Google, &[]), vec![Google]);
    assert_eq!(effective_chain(Google, &[Bing, Bing, Google]), vec![Google, Bing]);
}

#[test]
fn attempts_walk_the_chain_once() {
    let mut a = TranslationAttempts::new(Bing, &[Google, Bing, MyMemory]);
    let mut tried: Vec<TranslationSource> = Vec::new();
    while let Some(src) = a.next_source() {
        tried.push(src);
        let outcome: Result<u32, String> = Err(format!("{:?} failed", src));
        assert_eq!(a.record_outcome(outcome), None);
    }
    assert_eq!(tried, vec![Bing, Google, MyMemory]);
    assert_eq!(a.final_error(), "MyMemory failed");
}

#[test]
fn first_success_ends_attempts() {
    let mut a = TranslationAttempts::new(Google, &[Google, Bing, MyMemory]);
    let mut tried: Vec<TranslationSource> = Vec::new();
    let mut result = None;
    while let Some(src) = a.next_source() {
        tried.push(src);
        let outcome: Result<&str, String> =
            if src == Bing { Ok("bing answer") } else { Err("down".to_string()) };
        if let Some(r) = a.record_outcome(outcome) {
            result = Some(r);
        }
    }
    assert_eq!(tried, vec![Google, Bing]);
    assert_eq!(result, Some("bing answer"));
    assert_eq!(a.next_source(), None);
}

#[test]
fn attempts_without_failure_report_fixed_message() {
    let a = TranslationAttempts::new(Google, &[]);
    assert_eq!(a.next_source(), Some(Google));
    assert_eq!(a.final_error(), "所有翻译源均失败");
}

#[test]
fn google_response_parsed() {
    let data = arr(vec![
        arr(vec![
            arr(vec![s("你好"), s("hello"), JsonValue::Null]),
            arr(vec![JsonValue::Null, JsonValue::Null, s("Nǐ hǎo"), s("həˈlō")]),
        ]),
        arr(vec![
            arr(vec![s("感叹词"), arr(vec![s("你好!"), s("喂!"), JsonValue::Number("3".to_string())])]),
            arr(vec![JsonValue::Bool(true), arr(vec![s("招呼")])]),
        ]),
    ]);
    let r = google::parse_response("hello", &data);
    assert_eq!(r.word, "hello");
    assert_eq!(r.translation, "你好");
    assert_eq!(r.phonetic, "həˈlō");
    assert_eq!(r.definitions.len(), 3);
    assert_eq!(r.definitions[0].part_of_speech, "感叹词");
    assert_eq!(r.definitions[0].meaning, "你好!");
    assert_eq!(r.definitions[1].meaning, "喂!");
    assert_eq!(r.definitions[2].part_of_speech, "");
    assert_eq!(r.definitions[2].meaning, "招呼");
    assert!(r.examples.is_empty());
    assert_eq!(r.audio_url, "https://dict.youdao.com/dictvoice?audio=hello&type=2");
}

#[test]
fn google_segments_joined() {
    let data = arr(vec![arr(vec![
        arr(vec![s("一二"), s("one two")]),
        arr(vec![JsonValue::Null]),
        arr(vec![s("三")]),
    ])]);
    let r = google::parse_response("x", &data);
    assert_eq!(r.translation, "一二三");
    assert_eq!(r.phonetic, "");
    assert!(r.definitions.is_empty());
}

#[test]
fn google_unexpected_shape_gives_empty_fields() {
    let r = google::parse_response("word", &obj(vec![("error", s("quota"))]));
    assert_eq!(r.translation, "");
    assert_eq!(r.phonetic, "");
    assert!(r.definitions.is_empty());
    assert_eq!(r.word, "word");
}

#[test]
fn bing_response_parsed() {
    let data = arr(vec![obj(vec![
        ("detectedLanguage", obj(vec![("language", s("en"))])),
        ("translations", arr(vec![obj(vec![("text", s("你好")), ("to", s("zh-Hans"))])])),
    ])]);
    let r = bing::parse_response("hello", &data);
    assert_eq!(r.translation, "你好");
    assert_eq!(r.phonetic, "");
    assert!(r.definitions.is_empty());
    assert_eq!(r.audio_url, get_audio_url("hello"));
}

#[test]
fn bing_missing_text_gives_empty() {
    let data = arr(vec![obj(vec![("translations", arr(vec![]))])]);
    assert_eq!(bing::parse_response("hello", &data).translation, "");
    assert_eq!(bing::parse_response("hello", &arr(vec![])).translation, "");
}

#[test]
fn mymemory_response_parsed() {
    let data = obj(vec![
        ("responseData", obj(vec![("translatedText", s("你好")), ("match", JsonValue::Number("1".to_string()))])),
        ("responseStatus", JsonValue::Number("200".to_string())),
    ]);
    let r = mymemory::parse_response("hello", &data);
    assert_eq!(r.translation, "你好");
    assert_eq!(r.word, "hello");
    assert_eq!(mymemory::parse_response("hello", &obj(vec![])).translation, "");
}

#[test]
fn json_object_first_member_wins() {
    let data = obj(vec![("k", s("first")), ("k", s("second"))]);
    assert!(matches!(data.get_key("k"), Some(JsonValue::Str(t)) if t == "first"));
    assert!(data.get_key("missing").is_none());
    assert!(data.get_index(0).is_none());
}
