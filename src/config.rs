//! The user's settings and the state of the settings form.
use vstd::prelude::*;
use crate::backup::{all_filter, effective_filter};

verus! {

/// Where to back up from, and which files to take.
pub struct AppConfig {
    pub source_dir: String,
    /// An extension without the dot; empty takes every file.
    pub file_extension: String,
}

impl Default for AppConfig {
    fn default() -> (r: Self)
        ensures
            r.source_dir@.len() == 0,
            r.file_extension@.len() == 0,
    {
        AppConfig { source_dir: String::new(), file_extension: String::new() }
    }
}

impl AppConfig {
    /// The filter that a backup under these settings applies.
    pub fn filter(&self) -> (r: String)
        ensures
            r@ == if self.file_extension@.len() == 0 {
                all_filter()
            } else {
                self.file_extension@
            },
    {
        effective_filter(self.file_extension.as_str())
    }
}

/// The settings form: the saved settings and the values being edited.
pub struct MyApp {
    pub config: AppConfig,
    pub selected_source: String,
    pub selected_extension: String,
}

impl MyApp {
    /// A form showing the saved settings.
    pub fn new(config: AppConfig) -> (r: Self)
        ensures
            r.config == config,
            r.selected_source@ == config.source_dir@,
            r.selected_extension@ == config.file_extension@,
    {
        let selected_source = config.source_dir.clone();
        let selected_extension = config.file_extension.clone();
        MyApp { config, selected_source, selected_extension }
    }

    /// Takes the edited values as the settings.
    pub fn confirm(&mut self)
        ensures
            final(self).config.source_dir@ == old(self).selected_source@,
            final(self).config.file_extension@ == old(self).selected_extension@,
            final(self).selected_source@ == old(self).selected_source@,
            final(self).selected_extension@ == old(self).selected_extension@,
    {
        self.config.source_dir = self.selected_source.clone();
        self.config.file_extension = self.selected_extension.clone();
    }
}

} // verus!
