//! The kinds of scrape the crawler can run.
use vstd::prelude::*;
use crate::bindings::{lowercase, to_lowercase};
use crate::text::str_eq;

verus! {

/// What the crawler is asked to do.
#[derive(Debug, Clone, Copy, PartialEq, Eq, Structural)]
pub enum ScrapeMethod {
    /// Crawl the whole knowledge base.
    Standard,
    /// Fetch again what changed since the last complete scrape.
    RecentChanges,
    /// Build a PDF of the knowledge base.
    Pdf,
    /// Build PDFs for each language.
    PdfLangs,
}

impl Default for ScrapeMethod {
    fn default() -> (r: Self)
        ensures
            r == ScrapeMethod::Standard,
    {
        ScrapeMethod::Standard
    }
}

impl ScrapeMethod {
    /// Whether a run of this kind brings the whole archive up to date, after
    /// which the time of the update is recorded.
    pub open spec fn spec_is_complete_scrape(self) -> bool {
        self is Standard || self is RecentChanges
    }

    /// Whether a run of this kind brings the whole archive up to date.
    pub fn is_complete_scrape(self) -> (r: bool)
        ensures
            r == self.spec_is_complete_scrape(),
    {
        match self {
            ScrapeMethod::Standard | ScrapeMethod::RecentChanges => true,
            _ => false,
        }
    }
}

/// The scrape named by an already lowercased argument: `""` and `"standard"`,
/// `"recent"`, `"pdf"`, `"pdf_langs"`; any other name names none.
pub open spec fn spec_scrape_method_named(name: Seq<char>) -> Option<ScrapeMethod> {
    if name == ""@ || name == "standard"@ {
        Some(ScrapeMethod::Standard)
    } else if name == "recent"@ {
        Some(ScrapeMethod::RecentChanges)
    } else if name == "pdf"@ {
        Some(ScrapeMethod::Pdf)
    } else if name == "pdf_langs"@ {
        Some(ScrapeMethod::PdfLangs)
    } else {
        None
    }
}

/// The scrape named by a lowercased argument.
pub fn scrape_method_named(name: &str) -> (r: Option<ScrapeMethod>)
    ensures
        r == spec_scrape_method_named(name@),
{
    if str_eq(name, "") || str_eq(name, "standard") {
        Some(ScrapeMethod::Standard)
    } else if str_eq(name, "recent") {
        Some(ScrapeMethod::RecentChanges)
    } else if str_eq(name, "pdf") {
        Some(ScrapeMethod::Pdf)
    } else if str_eq(name, "pdf_langs") {
        Some(ScrapeMethod::PdfLangs)
    } else {
        None
    }
}

/// The scrape named by a command-line argument, read without regard to case;
/// `None` for an unknown name.
pub fn parse_scrape_method(arg: &str) -> (r: Option<ScrapeMethod>)
    ensures
        r == spec_scrape_method_named(lowercase(arg@)),
{
    let lower = to_lowercase(arg);
    scrape_method_named(lower.as_str())
}

} // verus!
