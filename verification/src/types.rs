use vstd::prelude::*;
use crate::text::str_eq;

verus! {

/// The translation services the application can query.
#[derive(Clone, Copy, Debug, PartialEq, Eq, Structural)]
pub enum TranslationSource {
    Google,
    Bing,
    MyMemory,
}

/// Human readable name of a source.
pub open spec fn source_display_name(s: TranslationSource) -> Seq<char> {
    match s {
        TranslationSource::Google => "Google Translate"@,
        TranslationSource::Bing => "Bing Translator"@,
        TranslationSource::MyMemory => "MyMemory"@,
    }
}

/// Menu identifier of a source.
pub open spec fn source_menu_id(s: TranslationSource) -> Seq<char> {
    match s {
        TranslationSource::Google => "source_google"@,
        TranslationSource::Bing => "source_bing"@,
        TranslationSource::MyMemory => "source_mymemory"@,
    }
}

/// The source whose menu identifier is `id`, if any.
pub open spec fn source_from_menu_id(id: Seq<char>) -> Option<TranslationSource> {
    if id == "source_google"@ {
        Some(TranslationSource::Google)
    } else if id == "source_bing"@ {
        Some(TranslationSource::Bing)
    } else if id == "source_mymemory"@ {
        Some(TranslationSource::MyMemory)
    } else {
        None
    }
}

impl TranslationSource {
    pub fn display_name(&self) -> (r: &str)
        ensures
            r@ == source_display_name(*self),
    {
        match self {
            TranslationSource::Google => "Google Translate",
            TranslationSource::Bing => "Bing Translator",
            TranslationSource::MyMemory => "MyMemory",
        }
    }

    pub fn menu_id(&self) -> (r: &str)
        ensures
            r@ == source_menu_id(*self),
    {
        match self {
            TranslationSource::Google => "source_google",
            TranslationSource::Bing => "source_bing",
            TranslationSource::MyMemory => "source_mymemory",
        }
    }

    pub fn from_menu_id(id: &str) -> (r: Option<Self>)
        ensures
            r == source_from_menu_id(id@),
    {
        if str_eq(id, "source_google") {
            Some(TranslationSource::Google)
        } else if str_eq(id, "source_bing") {
            Some(TranslationSource::Bing)
        } else if str_eq(id, "source_mymemory") {
            Some(TranslationSource::MyMemory)
        } else {
            None
        }
    }

    pub fn all() -> (r: &'static [TranslationSource])
        ensures
            r@ == seq![TranslationSource::Google, TranslationSource::Bing, TranslationSource::MyMemory],
    {
        &[TranslationSource::Google, TranslationSource::Bing, TranslationSource::MyMemory]
    }
}

/// Which network the application runs in; it decides the default source
/// and the order in which sources are tried.
#[derive(Clone, Copy, Debug, PartialEq, Eq, Structural)]
pub enum TranslationMode {
    Overseas,
    Mainland,
}

pub open spec fn mode_default_source(m: TranslationMode) -> TranslationSource {
    match m {
        TranslationMode::Overseas => TranslationSource::Google,
        TranslationMode::Mainland => TranslationSource::Bing,
    }
}

pub open spec fn mode_fallback_chain(m: TranslationMode) -> Seq<TranslationSource> {
    match m {
        TranslationMode::Overseas => seq![
            TranslationSource::Google,
            TranslationSource::Bing,
            TranslationSource::MyMemory,
        ],
        TranslationMode::Mainland => seq![TranslationSource::Bing, TranslationSource::MyMemory],
    }
}

pub open spec fn mode_display_name(m: TranslationMode) -> Seq<char> {
    match m {
        TranslationMode::Overseas => "海外模式"@,
        TranslationMode::Mainland => "大陆模式"@,
    }
}

pub open spec fn mode_menu_id(m: TranslationMode) -> Seq<char> {
    match m {
        TranslationMode::Overseas => "mode_overseas"@,
        TranslationMode::Mainland => "mode_mainland"@,
    }
}

pub open spec fn mode_from_menu_id(id: Seq<char>) -> Option<TranslationMode> {
    if id == "mode_overseas"@ {
        Some(TranslationMode::Overseas)
    } else if id == "mode_mainland"@ {
        Some(TranslationMode::Mainland)
    } else {
        None
    }
}

impl TranslationMode {
    pub fn default_source(&self) -> (r: TranslationSource)
        ensures
            r == mode_default_source(*self),
    {
        match self {
            TranslationMode::Overseas => TranslationSource::Google,
            TranslationMode::Mainland => TranslationSource::Bing,
        }
    }

    pub fn fallback_chain(&self) -> (r: Vec<TranslationSource>)
        ensures
            r@ == mode_fallback_chain(*self),
    {
        match self {
            TranslationMode::Overseas => vec![
                TranslationSource::Google,
                TranslationSource::Bing,
                TranslationSource::MyMemory,
            ],
            TranslationMode::Mainland => vec![TranslationSource::Bing, TranslationSource::MyMemory],
        }
    }

    pub fn display_name(&self) -> (r: &str)
        ensures
            r@ == mode_display_name(*self),
    {
        match self {
            TranslationMode::Overseas => "海外模式",
            TranslationMode::Mainland => "大陆模式",
        }
    }

    pub fn menu_id(&self) -> (r: &str)
        ensures
            r@ == mode_menu_id(*self),
    {
        match self {
            TranslationMode::Overseas => "mode_overseas",
            TranslationMode::Mainland => "mode_mainland",
        }
    }

    pub fn from_menu_id(id: &str) -> (r: Option<Self>)
        ensures
            r == mode_from_menu_id(id@),
    {
        if str_eq(id, "mode_overseas") {
            Some(TranslationMode::Overseas)
        } else if str_eq(id, "mode_mainland") {
            Some(TranslationMode::Mainland)
        } else {
            None
        }
    }
}

/// The persisted settings: the mode and the selected source.
#[derive(Clone, Copy, Debug, PartialEq, Eq, Structural)]
pub struct AppConfig {
    pub mode: TranslationMode,
    pub source: TranslationSource,
}

impl Default for AppConfig {
    fn default() -> (r: Self)
        ensures
            r.mode == TranslationMode::Overseas,
            r.source == TranslationSource::Google,
    {
        AppConfig { mode: TranslationMode::Overseas, source: TranslationSource::Google }
    }
}

/// One meaning of a word, with its part of speech.
#[derive(Debug)]
pub struct Definition {
    pub part_of_speech: String,
    pub meaning: String,
}

pub struct DefinitionView {
    pub part_of_speech: Seq<char>,
    pub meaning: Seq<char>,
}

impl View for Definition {
    type V = DefinitionView;

    open spec fn view(&self) -> DefinitionView {
        DefinitionView { part_of_speech: self.part_of_speech@, meaning: self.meaning@ }
    }
}

impl Clone for Definition {
    fn clone(&self) -> (r: Self)
        ensures
            r@ == self@,
    {
        Definition { part_of_speech: self.part_of_speech.clone(), meaning: self.meaning.clone() }
    }
}

/// The views of a list of strings.
pub open spec fn strings_view(v: Seq<String>) -> Seq<Seq<char>> {
    v.map_values(|s: String| s@)
}

/// The views of a list of definitions.
pub open spec fn definitions_view(v: Seq<Definition>) -> Seq<DefinitionView> {
    v.map_values(|d: Definition| d@)
}

/// What a translation service answered for a word.
#[derive(Debug)]
pub struct TranslationResult {
    pub word: String,
    pub phonetic: String,
    pub translation: String,
    pub definitions: Vec<Definition>,
    pub examples: Vec<String>,
    pub audio_url: String,
}

pub struct TranslationResultView {
    pub word: Seq<char>,
    pub phonetic: Seq<char>,
    pub translation: Seq<char>,
    pub definitions: Seq<DefinitionView>,
    pub examples: Seq<Seq<char>>,
    pub audio_url: Seq<char>,
}

impl View for TranslationResult {
    type V = TranslationResultView;

    open spec fn view(&self) -> TranslationResultView {
        TranslationResultView {
            word: self.word@,
            phonetic: self.phonetic@,
            translation: self.translation@,
            definitions: definitions_view(self.definitions@),
            examples: strings_view(self.examples@),
            audio_url: self.audio_url@,
        }
    }
}

/// A copy of a list of strings.
pub fn clone_strings(v: &Vec<String>) -> (r: Vec<String>)
    ensures
        r@ == v@,
{
    let mut out: Vec<String> = Vec::new();
    let mut i: usize = 0;
    while i < v.len()
        invariant
            i <= v.len(),
            out@ == v@.subrange(0, i as int),
        decreases v.len() - i,
    {
        out.push(v[i].clone());
        i = i + 1;
    }
    assert(out@ =~= v@);
    out
}

/// A copy of a list of definitions.
pub fn clone_definitions(v: &Vec<Definition>) -> (r: Vec<Definition>)
    ensures
        definitions_view(r@) == definitions_view(v@),
{
    let mut out: Vec<Definition> = Vec::new();
    let mut i: usize = 0;
    while i < v.len()
        invariant
            i <= v.len(),
            out@.len() == i,
            forall|k: int| 0 <= k < i ==> (#[trigger] out@[k])@ == v@[k]@,
        decreases v.len() - i,
    {
        out.push(v[i].clone());
        i = i + 1;
    }
    assert(definitions_view(out@) =~= definitions_view(v@));
    out
}

impl Clone for TranslationResult {
    fn clone(&self) -> (r: Self)
        ensures
            r@ == self@,
    {
        TranslationResult {
            word: self.word.clone(),
            phonetic: self.phonetic.clone(),
            translation: self.translation.clone(),
            definitions: clone_definitions(&self.definitions),
            examples: clone_strings(&self.examples),
            audio_url: self.audio_url.clone(),
        }
    }
}

/// One word of the word book.
#[derive(Debug)]
pub struct WordEntry {
    pub word: String,
    pub translation: String,
    pub phonetic: String,
    pub examples: Vec<String>,
    pub query_time: String,
    pub last_query_time: String,
    pub source_context: String,
    pub query_count: u32,
    pub mastered: bool,
    pub favorited: bool,
}

pub struct WordEntryView {
    pub word: Seq<char>,
    pub translation: Seq<char>,
    pub phonetic: Seq<char>,
    pub examples: Seq<Seq<char>>,
    pub query_time: Seq<char>,
    pub last_query_time: Seq<char>,
    pub source_context: Seq<char>,
    pub query_count: u32,
    pub mastered: bool,
    pub favorited: bool,
}

impl View for WordEntry {
    type V = WordEntryView;

    open spec fn view(&self) -> WordEntryView {
        WordEntryView {
            word: self.word@,
            translation: self.translation@,
            phonetic: self.phonetic@,
            examples: strings_view(self.examples@),
            query_time: self.query_time@,
            last_query_time: self.last_query_time@,
            source_context: self.source_context@,
            query_count: self.query_count,
            mastered: self.mastered,
            favorited: self.favorited,
        }
    }
}

impl Clone for WordEntry {
    fn clone(&self) -> (r: Self)
        ensures
            r@ == self@,
    {
        WordEntry {
            word: self.word.clone(),
            translation: self.translation.clone(),
            phonetic: self.phonetic.clone(),
            examples: clone_strings(&self.examples),
            query_time: self.query_time.clone(),
            last_query_time: self.last_query_time.clone(),
            source_context: self.source_context.clone(),
            query_count: self.query_count,
            mastered: self.mastered,
            favorited: self.favorited,
        }
    }
}

/// Menu identifiers name their source: reading back the identifier of a
/// source gives that source, and an identifier that names a source is that
/// source's identifier.
pub proof fn lemma_source_menu_id_round_trip(s: TranslationSource, id: Seq<char>)
    ensures
        source_from_menu_id(source_menu_id(s)) == Some(s),
        source_from_menu_id(id) matches Some(t) ==> id == source_menu_id(t),
{
    reveal_strlit("source_google");
    reveal_strlit("source_bing");
    reveal_strlit("source_mymemory");
    assert("source_google"@.len() == 13);
    assert("source_bing"@.len() == 11);
    assert("source_mymemory"@.len() == 15);
}

/// Menu identifiers name their mode: reading back the identifier of a mode
/// gives that mode, and an identifier that names a mode is that mode's
/// identifier.
pub proof fn lemma_mode_menu_id_round_trip(m: TranslationMode, id: Seq<char>)
    ensures
        mode_from_menu_id(mode_menu_id(m)) == Some(m),
        mode_from_menu_id(id) matches Some(t) ==> id == mode_menu_id(t),
{
    reveal_strlit("mode_overseas");
    reveal_strlit("mode_mainland");
    assert("mode_overseas"@[5] == 'o');
    assert("mode_mainland"@[5] == 'm');
}

/// The default source of a mode is the first source of its fallback chain.
pub proof fn lemma_default_source_leads_chain(m: TranslationMode)
    ensures
        mode_fallback_chain(m).len() > 0,
        mode_fallback_chain(m)[0] == mode_default_source(m),
{
}

} // verus!
