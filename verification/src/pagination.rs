//! The paginated fetch protocol: a continuation loop that issues one
//! request per page and stops on the first page strictly smaller than the
//! requested size. The caller performs the requests; this state machine
//! decides the offsets and when to stop, so each request depends on the
//! previous response.
use vstd::prelude::*;
use crate::errors::BuildError;

verus! {

/// The sum of the binding counts of the pages received so far.
pub open spec fn total_of(counts: Seq<usize>) -> int
    decreases counts.len(),
{
    if counts.len() == 0 {
        0
    } else {
        total_of(counts.drop_last()) + counts.last()
    }
}

/// Where the fetch loop stands.
#[derive(PartialEq, Eq, Structural)]
pub enum FetchPhase {
    /// One more request must be issued.
    Fetching,
    /// A short page arrived (or pagination was never requested): complete.
    Done,
    /// The endpoint answered with a non-success status: aborted.
    Failed,
}

/// Drives one query's fetch: `Fetching(offset)` advances by each full
/// page's binding count and completes on the first short page.
pub struct Fetcher {
    page_size: Option<usize>,
    offset: usize,
    pages: usize,
    phase: FetchPhase,
    counts: Ghost<Seq<usize>>,
}

impl Fetcher {
    /// The page size under pagination, `None` when pagination was not
    /// requested.
    pub closed spec fn page_size(&self) -> Option<usize> {
        self.page_size
    }

    pub closed spec fn phase(&self) -> FetchPhase {
        self.phase
    }

    /// The binding count of each page received so far, in arrival order.
    pub closed spec fn counts(&self) -> Seq<usize> {
        self.counts@
    }

    pub closed spec fn wf(&self) -> bool {
        &&& self.offset == total_of(self.counts())
        &&& self.pages == self.counts().len()
        &&& (match self.page_size() {
            Some(n) => {
                &&& n >= 1
                // every page but the last was full, else the loop would
                // already have stopped
                &&& (forall|i: int|
                    0 <= i < self.counts().len() - 1 ==> #[trigger] self.counts()[i] >= n)
                // the loop goes on only after a full page
                &&& (self.phase() == FetchPhase::Fetching && self.counts().len() > 0
                    ==> self.counts().last() >= n)
                // it completes exactly on the first short page
                &&& (self.phase() == FetchPhase::Done ==> self.counts().len() > 0
                    && self.counts().last() < n)
            },
            None => {
                &&& self.counts().len() <= 1
                &&& (self.phase() == FetchPhase::Fetching ==> self.counts().len() == 0)
                &&& (self.phase() == FetchPhase::Done ==> self.counts().len() == 1)
            },
        })
    }

    /// Starts a fetch at offset zero.
    pub fn begin(page_size: Option<usize>) -> (r: Fetcher)
        requires
            page_size matches Some(n) ==> n >= 1,
        ensures
            r.wf(),
            r.page_size() == page_size,
            r.phase() == FetchPhase::Fetching,
            r.counts() == Seq::<usize>::empty(),
    {
        Fetcher {
            page_size,
            offset: 0,
            pages: 0,
            phase: FetchPhase::Fetching,
            counts: Ghost(Seq::empty()),
        }
    }

    /// The offset the next request must use: the number of bindings
    /// received so far.
    pub fn next_offset(&self) -> (r: usize)
        requires
            self.wf(),
        ensures
            r == total_of(self.counts()),
    {
        self.offset
    }

    /// The number of requests issued so far.
    pub fn num_pages(&self) -> (r: usize)
        requires
            self.wf(),
        ensures
            r == self.counts().len(),
    {
        self.pages
    }

    /// Records one successful page of `count` bindings. The loop goes on
    /// exactly when pagination is requested and the page was full: a page
    /// strictly smaller than the requested size (zero included) completes
    /// the fetch, and a fetch without pagination completes after its single
    /// page.
    pub fn on_page(&mut self, count: usize)
        requires
            old(self).wf(),
            old(self).phase() == FetchPhase::Fetching,
            total_of(old(self).counts()) + count < usize::MAX,
        ensures
            final(self).wf(),
            final(self).page_size() == old(self).page_size(),
            final(self).counts() == old(self).counts().push(count),
            final(self).phase() == (match old(self).page_size() {
                Some(n) => if count < n {
                    FetchPhase::Done
                } else {
                    FetchPhase::Fetching
                },
                None => FetchPhase::Done,
            }),
    {
        proof {
            assert(self.counts@.push(count).drop_last() =~= self.counts@);
            lemma_total_nonneg(self.counts@);
            if self.counts@.len() > 0 {
                assert(forall|i: int|
                    0 <= i < self.counts@.len() ==> #[trigger] self.counts@[i] >= 1);
                lemma_total_ge_len(self.counts@);
            }
        }
        self.offset = self.offset + count;
        self.pages = self.pages + 1;
        self.counts = Ghost(self.counts@.push(count));
        match self.page_size {
            Some(n) => {
                if count < n {
                    self.phase = FetchPhase::Done;
                }
            },
            None => {
                self.phase = FetchPhase::Done;
            },
        }
    }

    /// Records a non-success response: the fetch aborts, no page of this
    /// request is referenced, and the response body is carried verbatim as
    /// the failure reason.
    pub fn on_transport_error(&mut self, status: u16, body: String) -> (e: BuildError)
        requires
            old(self).wf(),
            old(self).phase() == FetchPhase::Fetching,
        ensures
            final(self).wf(),
            final(self).page_size() == old(self).page_size(),
            final(self).counts() == old(self).counts(),
            final(self).phase() == FetchPhase::Failed,
            e matches BuildError::TransportError { status: s, body: b } && s == status && b@
                == body@,
    {
        self.phase = FetchPhase::Failed;
        BuildError::TransportError { status, body }
    }

    /// Whether one more request must be issued.
    pub fn is_fetching(&self) -> (r: bool)
        ensures
            r == (self.phase() == FetchPhase::Fetching),
    {
        self.phase == FetchPhase::Fetching
    }

    /// Whether the fetch completed on a short page.
    pub fn is_done(&self) -> (r: bool)
        ensures
            r == (self.phase() == FetchPhase::Done),
    {
        self.phase == FetchPhase::Done
    }

    /// The total number of bindings over all received pages.
    pub fn total_bindings(&self) -> (r: usize)
        requires
            self.wf(),
        ensures
            r == total_of(self.counts()),
    {
        self.offset
    }
}

/// Law: pagination issues one more request after any full page and stops
/// only on the first page strictly smaller than the requested size (zero
/// included). In any well-formed paginated fetch, every page but the last
/// was full; while the loop still fetches, the last page was full too; and
/// the fetch is complete exactly when a short page arrived.
pub proof fn lemma_stops_only_on_short_page(f: Fetcher, n: usize)
    requires
        f.wf(),
        f.page_size() == Some(n),
    ensures
        forall|i: int| 0 <= i < f.counts().len() - 1 ==> #[trigger] f.counts()[i] >= n,
        f.phase() == FetchPhase::Fetching && f.counts().len() > 0 ==> f.counts().last() >= n,
        f.phase() == FetchPhase::Done ==> f.counts().len() > 0 && f.counts().last() < n,
{
}

/// Law: a fetch without pagination issues exactly one request.
pub proof fn lemma_single_page_without_pagination(f: Fetcher)
    requires
        f.wf(),
        f.page_size() is None,
    ensures
        f.counts().len() <= 1,
        f.phase() == FetchPhase::Done ==> f.counts().len() == 1,
{
}

/// A history of pages that each hold at least one binding has a total at
/// least its length.
proof fn lemma_total_ge_len(counts: Seq<usize>)
    requires
        forall|i: int| 0 <= i < counts.len() ==> #[trigger] counts[i] >= 1,
    ensures
        total_of(counts) >= counts.len(),
    decreases counts.len(),
{
    if counts.len() > 0 {
        assert forall|i: int|
            0 <= i < counts.drop_last().len() implies #[trigger] counts.drop_last()[i] >= 1 by {
            assert(counts.drop_last()[i] == counts[i]);
        }
        lemma_total_ge_len(counts.drop_last());
    }
}

/// The total of a history of counts is never negative.
proof fn lemma_total_nonneg(counts: Seq<usize>)
    ensures
        total_of(counts) >= 0,
    decreases counts.len(),
{
    if counts.len() > 0 {
        lemma_total_nonneg(counts.drop_last());
    }
}

} // verus!
