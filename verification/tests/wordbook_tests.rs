use catchword::types::WordEntry;
use catchword::wordbook::Wordbook;

fn entry(word: &str, count: u32) -> WordEntry {
    WordEntry {
        word: word.to_string(),
        translation: "t".to_string(),
        phonetic: String::new(),
        examples: Vec::new(),
        query_time: "t0".to_string(),
        last_query_time: "t0".to_string(),
        source_context: String::new(),
        query_count: count,
        mastered: false,
        favorited: false,
    }
}

#[test]
fn new_word_added_lowercase_once() {
    let mut wb = Wordbook::new(Vec::new());
    let examples = vec!["Hello, how are you?".to_string()];
    wb.add_word("Hello", "你好", "həˈlō", &examples, "ctx", "2024-01-01T00:00:00+00:00".to_string());
    let words = wb.list_words();
    assert_eq!(words.len(), 1);
    let e = &words[0];
    assert_eq!(e.word, "hello");
    assert_eq!(e.translation, "你好");
    assert_eq!(e.phonetic, "həˈlō");
    assert_eq!(e.examples, examples);
    assert_eq!(e.query_time, "2024-01-01T00:00:00+00:00");
    assert_eq!(e.last_query_time, "2024-01-01T00:00:00+00:00");
    assert_eq!(e.source_context, "ctx");
    assert_eq!(e.query_count, 1);
    assert!(!e.mastered && !e.favorited);
}

#[test]
fn repeated_lookup_counts_without_new_entry() {
    let mut wb = Wordbook::new(Vec::new());
    wb.add_word("hello", "你好", "", &[], "", "t1".to_string());
    wb.add_word("HELLO", "other", "p", &[], "found in text", "t2".to_string());
    wb.add_word("Hello", "x", "", &[], "later", "t3".to_string());
    let words = wb.list_words();
    assert_eq!(words.len(), 1);
    assert_eq!(words[0].query_count, 3);
    assert_eq!(words[0].query_time, "t1");
    assert_eq!(words[0].last_query_time, "t3");
    assert_eq!(words[0].translation, "你好");
    assert_eq!(words[0].source_context, "found in text");
}

#[test]
fn add_word_stamps_given_time() {
    let mut wb = Wordbook::new(Vec::new());
    wb.add_word("cat", "猫", "", &[], "", "2025-05-05T05:05:05+00:00".to_string());
    let e = wb.get_word("Cat").expect("entry present");
    assert_eq!(e.query_count, 1);
    assert_eq!(e.query_time, "2025-05-05T05:05:05+00:00");
    assert_eq!(e.query_time, e.last_query_time);
}

#[test]
fn mixed_case_lookups_share_one_entry() {
    let mut wb = Wordbook::new(Vec::new());
    for (i, w) in ["Dog", "DOG", "dog", "dOg"].iter().enumerate() {
        wb.add_word(w, "狗", "", &[], "", format!("t{}", i));
    }
    let words = wb.list_words();
    assert_eq!(words.len(), 1);
    assert_eq!(words[0].word, "dog");
    assert_eq!(words[0].query_count, 4);
    assert_eq!(words[0].last_query_time, "t3");
}

#[test]
fn get_word_ignores_case() {
    let wb = Wordbook::new(vec![entry("Apple", 1), entry("banana", 2)]);
    assert_eq!(wb.get_word("APPLE").unwrap().word, "Apple");
    assert_eq!(wb.get_word("Banana").unwrap().query_count, 2);
    assert!(wb.get_word("cherry").is_none());
}

#[test]
fn get_word_finds_first_of_duplicates() {
    let wb = Wordbook::new(vec![entry("dog", 1), entry("DOG", 7)]);
    assert_eq!(wb.get_word("dog").unwrap().query_count, 1);
}

#[test]
fn updates_change_only_the_entry() {
    let mut wb = Wordbook::new(vec![entry("one", 1), entry("two", 1)]);
    assert!(wb.update_favorited("TWO", true));
    assert!(wb.update_mastered("two", true));
    assert!(wb.update_translation("Two", "二"));
    let two = wb.get_word("two").unwrap();
    assert!(two.favorited && two.mastered);
    assert_eq!(two.translation, "二");
    let one = wb.get_word("one").unwrap();
    assert!(!one.favorited && !one.mastered);
    assert_eq!(one.translation, "t");
}

#[test]
fn updates_of_missing_word_report_false() {
    let mut wb = Wordbook::new(vec![entry("one", 1)]);
    assert!(!wb.update_favorited("zero", true));
    assert!(!wb.update_mastered("zero", true));
    assert!(!wb.update_translation("zero", "零"));
    assert_eq!(wb.list_words().len(), 1);
}

#[test]
fn delete_removes_every_match() {
    let mut wb = Wordbook::new(vec![entry("a", 1), entry("B", 1), entry("b", 1), entry("c", 1)]);
    assert!(wb.delete_word("b"));
    let words: Vec<String> = wb.list_words().into_iter().map(|e| e.word).collect();
    assert_eq!(words, vec!["a".to_string(), "c".to_string()]);
    assert!(wb.get_word("B").is_none());
    assert!(!wb.delete_word("b"));
}

#[test]
fn count_at_limit_is_refused() {
    let mut wb = Wordbook::new(vec![entry("max", u32::MAX)]);
    assert!(!wb.try_add_word("MAX", "", "", &[], "", "t".to_string()));
    assert_eq!(wb.get_word("max").unwrap().query_count, u32::MAX);
    assert!(wb.try_add_word("min", "", "", &[], "", "t".to_string()));
    assert_eq!(wb.list_words().len(), 2);
}

#[test]
fn list_words_in_order() {
    let wb = Wordbook::new(vec![entry("z", 1), entry("a", 2)]);
    let words = wb.list_words();
    assert_eq!(words[0].word, "z");
    assert_eq!(words[1].word, "a");
}

#[test]
fn entries_clone_equal() {
    let e = entry("x", 4);
    let c = e.clone();
    assert_eq!(c.word, e.word);
    assert_eq!(c.query_count, 4);
}
