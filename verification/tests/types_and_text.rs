use catchword::types::{AppConfig, TranslationMode, TranslationSource};
use catchword::text::{str_eq, to_lower, trim};
use catchword::config::Config;

#[test]
fn source_names_and_menu_ids() {
    assert_eq!(TranslationSource::Google.display_name(), "Google Translate");
    assert_eq!(TranslationSource::Bing.display_name(), "Bing Translator");
    assert_eq!(TranslationSource::MyMemory.display_name(), "MyMemory");
    assert_eq!(TranslationSource::Google.menu_id(), "source_google");
    assert_eq!(TranslationSource::Bing.menu_id(), "source_bing");
    assert_eq!(TranslationSource::MyMemory.menu_id(), "source_mymemory");
}

#[test]
fn source_menu_id_round_trip() {
    for s in TranslationSource::all() {
        assert_eq!(TranslationSource::from_menu_id(s.menu_id()), Some(*s));
    }
    assert_eq!(TranslationSource::from_menu_id("source_deepl"), None);
    assert_eq!(TranslationSource::from_menu_id(""), None);
    assert_eq!(TranslationSource::from_menu_id("Source_Google"), None);
}

#[test]
fn all_sources_in_order() {
    assert_eq!(
        TranslationSource::all(),
        &[TranslationSource::Google, TranslationSource::Bing, TranslationSource::MyMemory]
    );
}

#[test]
fn mode_tables() {
    assert_eq!(TranslationMode::Overseas.default_source(), TranslationSource::Google);
    assert_eq!(TranslationMode::Mainland.default_source(), TranslationSource::Bing);
    assert_eq!(
        TranslationMode::Overseas.fallback_chain(),
        vec![TranslationSource::Google, TranslationSource::Bing, TranslationSource::MyMemory]
    );
    assert_eq!(
        TranslationMode::Mainland.fallback_chain(),
        vec![TranslationSource::Bing, TranslationSource::MyMemory]
    );
    assert_eq!(TranslationMode::Overseas.display_name(), "海外模式");
    assert_eq!(TranslationMode::Mainland.display_name(), "大陆模式");
    assert_eq!(TranslationMode::Overseas.menu_id(), "mode_overseas");
    assert_eq!(TranslationMode::Mainland.menu_id(), "mode_mainland");
}

#[test]
fn mode_menu_id_round_trip() {
    for m in [TranslationMode::Overseas, TranslationMode::Mainland] {
        assert_eq!(TranslationMode::from_menu_id(m.menu_id()), Some(m));
        assert_eq!(m.fallback_chain()[0], m.default_source());
    }
    assert_eq!(TranslationMode::from_menu_id("mode_moon"), None);
    assert_eq!(TranslationMode::from_menu_id("source_google"), None);
}

#[test]
fn default_config_is_overseas_google() {
    let c = AppConfig::default();
    assert_eq!(c.mode, TranslationMode::Overseas);
    assert_eq!(c.source, TranslationSource::Google);
}

#[test]
fn config_defaults_when_nothing_stored() {
    let c = Config::new(None);
    assert_eq!(c.get(), AppConfig::default());
    let stored = AppConfig { mode: TranslationMode::Mainland, source: TranslationSource::MyMemory };
    assert_eq!(Config::new(Some(stored)).get(), stored);
}

#[test]
fn config_set_mode_selects_default_source() {
    let mut c = Config::new(None);
    c.set_source(TranslationSource::MyMemory);
    c.set_mode(TranslationMode::Mainland);
    assert_eq!(c.get(), AppConfig { mode: TranslationMode::Mainland, source: TranslationSource::Bing });
    c.set_mode(TranslationMode::Overseas);
    assert_eq!(c.get().source, TranslationSource::Google);
}

#[test]
fn config_set_source_keeps_mode() {
    let mut c = Config::new(Some(AppConfig { mode: TranslationMode::Mainland, source: TranslationSource::Bing }));
    c.set_source(TranslationSource::Google);
    assert_eq!(c.get(), AppConfig { mode: TranslationMode::Mainland, source: TranslationSource::Google });
}

#[test]
fn trim_removes_unicode_white_space() {
    assert_eq!(trim("  hello \n"), "hello");
    assert_eq!(trim("\u{3000}word\u{a0}"), "word");
    assert_eq!(trim("\t a b \r"), "a b");
    assert_eq!(trim("   "), "");
    assert_eq!(trim(""), "");
    assert_eq!(trim("x"), "x");
    for s in ["  hello \n", "\u{2003}x y\u{85}", "\u{200b}z"] {
        assert_eq!(trim(s), s.trim());
    }
}

#[test]
fn str_eq_compares_characters() {
    assert!(str_eq("abc", "abc"));
    assert!(!str_eq("abc", "abd"));
    assert!(!str_eq("abc", "ab"));
    assert!(str_eq("", ""));
    assert!(str_eq("中文", "中文"));
}

#[test]
fn lower_case_mapping() {
    assert_eq!(to_lower("Hello"), "hello");
    assert_eq!(to_lower("HELLO-World's"), "hello-world's");
    assert_eq!(to_lower("ÀB"), "àb");
    assert_eq!(to_lower(&to_lower("MiXeD")), to_lower("MiXeD"));
}
