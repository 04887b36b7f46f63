//! The application root: the job queue, the optional search engine, and
//! the configuration values the request handlers read.

use vstd::prelude::*;

use crate::config::{AppConfig, Config};
use crate::jobs::Worker;
use crate::search::SearchEngine;

verus! {

/// The components and configuration of one running clipper.
pub struct App {
    pub clipper: Worker,
    pub search: Option<SearchEngine>,
    pub app_name: String,
    pub out_path: String,
    pub public_link_prefix: String,
    pub max_clip_duration: u64,
}

impl App {
    /// Assemble the application from its configuration: a fresh job
    /// queue with the configured capacity, and a search engine exactly
    /// when source directories are configured. The engine starts with an
    /// empty index; the caller drives the initial build through the
    /// refresh cycle before serving queries.
    pub fn new(config: AppConfig, source_dirs: Vec<String>, allowed_exts: Vec<String>) -> (app: App)
        requires
            config.wf(),
        ensures
            app.clipper.wf(),
            app.clipper.capacity() == config.max_queue_size,
            app.clipper.pending() == Seq::<Seq<char>>::empty(),
            app.clipper.failure_log() == Seq::<Seq<char>>::empty(),
            app.search is Some <==> source_dirs.deep_view().len() > 0,
            app.search matches Some(e) ==> e.wf() && e.entries().len() == 0
                && !e.refreshing_flag() && e.dirs() == source_dirs.deep_view() && e.exts()
                == allowed_exts.deep_view(),
            app.app_name == config.app_name,
            app.out_path == config.out_path,
            app.public_link_prefix == config.public_link_prefix,
            app.max_clip_duration == config.max_clip_duration,
    {
        let search = if source_dirs.len() == 0 {
            None
        } else {
            Some(SearchEngine::new(source_dirs, allowed_exts))
        };
        App {
            clipper: Worker::new(config.max_queue_size),
            search,
            app_name: config.app_name,
            out_path: config.out_path,
            public_link_prefix: config.public_link_prefix,
            max_clip_duration: config.max_clip_duration,
        }
    }

    /// The configuration summary served to the web tier: the display
    /// name, and whether search is available.
    pub fn get_config(&self) -> (c: Config)
        ensures
            c.app_name@ == self.app_name@,
            c.search_enabled == (self.search is Some),
    {
        Config { app_name: self.app_name.clone(), search_enabled: self.search.is_some() }
    }
}

} // verus!
