//! The crawler's settings, as read from its command line.
use vstd::prelude::*;
use crate::method::ScrapeMethod;

verus! {

/// The crawler's settings.
#[derive(Debug, Clone)]
pub struct AppArgs {
    /// What to scrape.
    pub scrape_method: ScrapeMethod,
    /// Clear the output directory first.
    pub clear: bool,
    /// Resume: take pages already in the archive instead of fetching them.
    pub ignore_existing: bool,
    /// Run without the companion server.
    pub force: bool,
    /// The port of the companion server.
    pub port: u32,
    /// Log to standard output.
    pub verbose: bool,
    /// A file for a separate log.
    pub output_log: Option<String>,
    /// The archive's root directory.
    pub output: String,
}

} // verus!
