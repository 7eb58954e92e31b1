//! The crawl itself: which URL to fetch next, which to pass over, where a
//! fetched page and a redirect are written, and which links a page adds.
use vstd::prelude::*;
use vstd::hash_set::StringHashSet;
use std::collections::VecDeque;
use crate::bindings::utf8_text;
use crate::paths::{spec_url_to_path, url_to_path};
use crate::redirect::{create, lemma_redirect_round_trip, spec_create, spec_redirect_target};
use crate::text::starts_with;
use crate::scrape::{scrape_urls, spec_filter_urls, spec_raw_urls};
use crate::text::str_eq;

verus! {

/// What the crawl does with the next URL its queue yields.
#[derive(Debug)]
pub enum CrawlStep {
    /// The queue is empty: the crawl is over.
    Finish,
    /// The URL was already processed: pass it over.
    Skip,
    /// Process the URL.
    Visit(String),
}

/// The step for the next URL, given the URLs already processed.
pub open spec fn spec_crawl_step(completed: Set<Seq<char>>, next: Option<Seq<char>>) -> Option<Option<Seq<char>>> {
    match next {
        None => None,
        Some(u) => if completed.contains(u) {
            Some(None)
        } else {
            Some(Some(u))
        },
    }
}

/// The step as plain values: `None` to finish, `Some(None)` to skip, `Some(Some(u))` to visit `u`.
pub open spec fn step_view(s: CrawlStep) -> Option<Option<Seq<char>>> {
    match s {
        CrawlStep::Finish => None,
        CrawlStep::Skip => Some(None),
        CrawlStep::Visit(u) => Some(Some(u@)),
    }
}

/// The URLs a crawl has processed.
pub struct CrawlLog {
    completed: StringHashSet,
}

impl CrawlLog {
    /// The URLs processed so far.
    pub closed spec fn completed(&self) -> Set<Seq<char>> {
        self.completed@
    }

    /// A log of a crawl that has processed nothing.
    pub fn new() -> (r: Self)
        ensures
            r.completed() == Set::<Seq<char>>::empty(),
    {
        CrawlLog { completed: StringHashSet::new() }
    }

    /// What to do with the URL the queue yielded (`None` where it is empty).
    pub fn step(&self, next: Option<String>) -> (r: CrawlStep)
        ensures
            step_view(r) == spec_crawl_step(
                self.completed(),
                match next {
                    Some(u) => Some(u@),
                    None => None,
                },
            ),
    {
        match next {
            None => CrawlStep::Finish,
            Some(u) => if self.completed.contains(u.as_str()) {
                CrawlStep::Skip
            } else {
                CrawlStep::Visit(u)
            },
        }
    }

    /// Records that `url` was processed.
    pub fn complete(&mut self, url: String)
        ensures
            final(self).completed() == old(self).completed().insert(url@),
    {
        self.completed.insert(url);
    }
}

/// Once a URL is recorded as processed, the crawl passes over it whenever the
/// queue yields it again: no URL is processed twice.
pub proof fn lemma_completed_url_is_skipped(completed: Set<Seq<char>>, url: Seq<char>, later: Set<Seq<char>>)
    requires
        completed.insert(url).subset_of(later),
    ensures
        spec_crawl_step(later, Some(url)) == Some(None::<Seq<char>>),
{
    assert(later.contains(url));
}

/// The crawl ends exactly when the queue is empty, and visits every URL it
/// yields that was not processed before; only processed URLs are passed over.
pub proof fn lemma_crawl_step_visits_new_urls(completed: Set<Seq<char>>, next: Option<Seq<char>>)
    ensures
        next is None <==> spec_crawl_step(completed, next) is None,
        forall|u: Seq<char>|
            next == Some(u) && !#[trigger] completed.contains(u) ==> spec_crawl_step(completed, next) == Some(Some(u)),
        forall|u: Seq<char>|
            next == Some(u) && #[trigger] completed.contains(u) ==> spec_crawl_step(completed, next) == Some(
                None::<Seq<char>>,
            ),
{
}

/// The files written for a fetched page: where the request was redirected, a
/// redirect file at the requested URL's place, naming the target; and the
/// page itself, at the place of the URL it was served from.
#[derive(Debug)]
pub struct ArchiveWrites {
    /// The path and text of the redirect file, if any.
    pub redirect: Option<(String, String)>,
    /// The path the page's content is written to.
    pub content_path: String,
}

/// The files written for `url`, fetched from `directed_url`, under `root`: as
/// the redirect file's path and text, if any, and the page's path.
pub open spec fn spec_archive_writes(root: Seq<char>, url: Seq<char>, directed_url: Seq<char>) -> (
    Option<(Seq<char>, Seq<char>)>,
    Seq<char>,
) {
    if url == directed_url {
        (None, spec_url_to_path(root, url))
    } else {
        (
            Some((spec_url_to_path(root, url), spec_create(directed_url))),
            spec_url_to_path(root, directed_url),
        )
    }
}

/// The planned writes as plain values.
pub open spec fn writes_view(w: ArchiveWrites) -> (Option<(Seq<char>, Seq<char>)>, Seq<char>) {
    (
        match w.redirect {
            Some((p, t)) => Some((p@, t@)),
            None => None,
        },
        w.content_path@,
    )
}

/// The files written for `url`, fetched from `directed_url`, under `root`.
pub fn plan_archive_writes(root: &str, url: &str, directed_url: &str) -> (r: ArchiveWrites)
    ensures
        writes_view(r) == spec_archive_writes(root@, url@, directed_url@),
{
    let path = url_to_path(root, url);
    if str_eq(directed_url, url) {
        ArchiveWrites { redirect: None, content_path: path }
    } else {
        let directed_path = url_to_path(root, directed_url);
        ArchiveWrites { redirect: Some((path, create(directed_url))), content_path: directed_path }
    }
}

/// The archive's files (path to bytes) after the writes for a fetched page:
/// the redirect file, as the UTF-8 bytes of its text, then the page's bytes.
pub open spec fn files_after_writes(
    files: Map<Seq<char>, Seq<u8>>,
    writes: (Option<(Seq<char>, Seq<char>)>, Seq<char>),
    content: Seq<u8>,
) -> Map<Seq<char>, Seq<u8>> {
    let with_redirect = match writes.0 {
        Some((p, t)) => files.insert(p, vstd::utf8::encode_utf8(t)),
        None => files,
    };
    with_redirect.insert(writes.1, content)
}

/// A page the crawl fetched and wrote reads back from the archive: the file at
/// the requested URL's place is the page itself, or a redirect whose target's
/// place (by `redirected_path`) holds the page.  This holds where the page is
/// not itself a redirect file and the URL it was served from does not start
/// with `"Redirect "`.
pub proof fn lemma_fetched_page_reads_back(
    files: Map<Seq<char>, Seq<u8>>,
    root: Seq<char>,
    url: Seq<char>,
    directed_url: Seq<char>,
    content: Seq<u8>,
)
    requires
        spec_redirect_target(content) is None,
        !starts_with(directed_url, "Redirect "@),
    ensures
        ({
            let after = files_after_writes(files, spec_archive_writes(root, url, directed_url), content);
            let first = after[spec_url_to_path(root, url)];
            &&& after.dom().contains(spec_url_to_path(root, url))
            &&& match spec_redirect_target(first) {
                Some(t) => after.dom().contains(spec_url_to_path(root, t)) && after[spec_url_to_path(root, t)]
                    == content,
                None => first == content,
            }
        }),
{
    if url != directed_url && spec_url_to_path(root, url) != spec_url_to_path(root, directed_url) {
        lemma_redirect_round_trip(directed_url);
    }
}

/// The texts of a sequence of strings.
pub open spec fn strings_view(q: Seq<String>) -> Seq<Seq<char>> {
    Seq::new(q.len(), |i: int| q[i]@)
}

/// The full crawl: a queue of URLs to fetch, first in first out, whether pages
/// already archived are taken from the archive, and the archive's root.
pub struct StandardCrawler {
    queue: VecDeque<String>,
    resume: bool,
    root: String,
}

impl StandardCrawler {
    /// The URLs still to fetch, in order.
    pub closed spec fn queue(&self) -> Seq<Seq<char>> {
        strings_view(self.queue@)
    }

    /// Whether archived pages are taken from the archive.
    pub closed spec fn resumes(&self) -> bool {
        self.resume
    }

    /// The archive's root.
    pub closed spec fn root_path(&self) -> Seq<char> {
        self.root@
    }

    /// A crawl that starts from `starting_urls`.
    pub fn new(resume: bool, root: String, starting_urls: Vec<String>) -> (r: Self)
        ensures
            r.queue() == starting_urls.deep_view(),
            r.resumes() == resume,
            r.root_path() == root@,
    {
        let mut queue: VecDeque<String> = VecDeque::new();
        let mut i: usize = 0;
        while i < starting_urls.len()
            invariant
                i <= starting_urls.len(),
                strings_view(queue@) == starting_urls.deep_view().take(i as int),
            decreases starting_urls.len() - i,
        {
            let ghost before = queue@;
            let u = starting_urls[i].clone();
            assert(u@ == starting_urls@[i as int]@);
            queue.push_back(u);
            assert(strings_view(queue@) =~= strings_view(before).push(starting_urls@[i as int]@));
            assert(strings_view(queue@) =~= starting_urls.deep_view().take(i + 1));
            i = i + 1;
        }
        assert(starting_urls.deep_view().take(starting_urls.len() as int) =~= starting_urls.deep_view());
        StandardCrawler { queue, resume, root }
    }

    /// Whether archived pages are taken from the archive.
    pub fn resume(&self) -> (r: bool)
        ensures
            r == self.resumes(),
    {
        self.resume
    }

    /// The archive's root.
    pub fn root(&self) -> (r: &str)
        ensures
            r@ == self.root_path(),
    {
        self.root.as_str()
    }

    /// The next URL to fetch: the first one queued.
    pub fn next_url(&mut self) -> (r: Option<String>)
        ensures
            final(self).root_path() == old(self).root_path(),
            final(self).resumes() == old(self).resumes(),
            old(self).queue().len() == 0 ==> r is None && final(self).queue() == old(self).queue(),
            old(self).queue().len() > 0 ==> (r matches Some(u) && u@ == old(self).queue()[0]
                && final(self).queue() == old(self).queue().drop_first()),
    {
        let r = self.queue.pop_front();
        proof {
            if old(self).queue@.len() > 0 {
                assert(strings_view(self.queue@) =~= strings_view(old(self).queue@).drop_first());
            }
        }
        r
    }

    /// Queues the links of a fetched page: where its bytes are UTF-8 text, the
    /// URLs that `scrape_urls` finds in it go to the back of the queue, in order.
    /// Returns `false` only where the link pattern cannot be used.
    pub fn take_links(&mut self, content: &[u8]) -> (r: bool)
        ensures
            final(self).root_path() == old(self).root_path(),
            final(self).resumes() == old(self).resumes(),
            !vstd::utf8::valid_utf8(content@) ==> r && final(self).queue() == old(self).queue(),
            vstd::utf8::valid_utf8(content@) ==> match spec_raw_urls(vstd::utf8::decode_utf8(content@)) {
                Some(raw) => r && final(self).queue() == old(self).queue() + spec_filter_urls(raw),
                None => !r && final(self).queue() == old(self).queue(),
            },
    {
        let text = match utf8_text(content) {
            Some(t) => t,
            None => return true,
        };
        let urls = match scrape_urls(text) {
            Some(u) => u,
            None => return false,
        };
        let ghost start = self.queue();
        let mut i: usize = 0;
        while i < urls.len()
            invariant
                i <= urls.len(),
                self.root_path() == old(self).root_path(),
                self.resumes() == old(self).resumes(),
                self.queue() == start + urls.deep_view().take(i as int),
            decreases urls.len() - i,
        {
            let ghost before = self.queue@;
            let u = urls[i].clone();
            assert(u@ == urls@[i as int]@);
            self.queue.push_back(u);
            assert(strings_view(self.queue@) =~= strings_view(before).push(u@));
            assert(self.queue() =~= start + urls.deep_view().take(i + 1));
            i = i + 1;
        }
        assert(urls.deep_view().take(urls.len() as int) =~= urls.deep_view());
        true
    }
}

} // verus!
