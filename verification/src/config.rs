use vstd::prelude::*;
use crate::types::{AppConfig, TranslationMode, TranslationSource, mode_default_source};

verus! {

/// The settings in effect when nothing was stored, or what was stored could
/// not be read.
pub open spec fn default_config() -> AppConfig {
    AppConfig { mode: TranslationMode::Overseas, source: TranslationSource::Google }
}

/// The settings held while the application runs.
pub struct Config {
    config: AppConfig,
}

impl View for Config {
    type V = AppConfig;

    closed spec fn view(&self) -> AppConfig {
        self.config
    }
}

impl Config {
    /// Settings as loaded from storage: `stored`, or the defaults when there
    /// were none to read.
    pub fn new(stored: Option<AppConfig>) -> (r: Self)
        ensures
            r@ == match stored {
                Some(c) => c,
                None => default_config(),
            },
    {
        match stored {
            Some(c) => Config { config: c },
            None => Config { config: AppConfig::default() },
        }
    }

    /// The current settings.
    pub fn get(&self) -> (r: AppConfig)
        ensures
            r == self@,
    {
        self.config
    }

    /// Switches to `mode`, which also selects that mode's default source.
    pub fn set_mode(&mut self, mode: TranslationMode)
        ensures
            final(self)@ == (AppConfig { mode, source: mode_default_source(mode) }),
    {
        self.config.mode = mode;
        self.config.source = mode.default_source();
    }

    /// Selects `source`, keeping the mode.
    pub fn set_source(&mut self, source: TranslationSource)
        ensures
            final(self)@ == (AppConfig { mode: old(self)@.mode, source }),
    {
        self.config.source = source;
    }
}

} // verus!
