//! Pagination that always ends.
//!
//! A page names the next one, and the last page names none. A server that never stops naming pages,
//! or that names one again, would be followed for ever.

use vstd::prelude::*;
use vstd::string::*;
use crate::collection::has_text;
use crate::massive::error::MassiveError;
use crate::text;

verus! {

/// How many pages a fetch follows. It is a backstop, well above any legitimate result.
pub const MAX_PAGES: usize = 10_000;

/// The progress of one paginated fetch.
#[derive(Debug)]
pub struct PaginationGuard {
    pages: usize,
    visited: Vec<String>,
}

/// What comes of a page that is about to be fetched: an error for one too many and for one that was accepted before, and
/// otherwise one page more that was.
pub open spec fn observes(
    before: PaginationGuard,
    url: Seq<char>,
    after: PaginationGuard,
    r: Result<(), MassiveError>,
) -> bool {
    if before.pages() >= MAX_PAGES {
        &&& r matches Err(MassiveError::PaginationLimitExceeded { pages, limit })
        &&& pages == before.pages() + 1
        &&& limit == MAX_PAGES
        &&& after.visited() == before.visited()
    } else if before.visited().contains(url) {
        &&& r matches Err(MassiveError::CyclicPagination { url: again })
        &&& again@ == url
        &&& after.visited() == before.visited()
    } else {
        &&& r is Ok
        &&& after.visited() == before.visited().push(url)
    }
}

impl PaginationGuard {
    /// How many pages were observed.
    pub closed spec fn pages(self) -> nat {
        self.pages as nat
    }

    /// The pages that were accepted, in order.
    pub closed spec fn visited(self) -> Seq<Seq<char>> {
        text::texts(self.visited@)
    }

    /// Whether the guard has kept its bounds: no page twice, and no more pages than the cap.
    pub open spec fn wf(self) -> bool {
        &&& self.visited().no_duplicates()
        &&& self.visited().len() <= self.pages()
        &&& self.visited().len() <= MAX_PAGES
    }

    /// How many pages were observed.
    pub fn count_pages(&self) -> (r: usize)
        ensures
            r == self.pages(),
    {
        self.pages
    }

    /// Records that a page is about to be fetched.
    ///
    /// Either error ends the fetch.
    pub fn observe(&mut self, url: &str) -> (r: Result<(), MassiveError>)
        requires
            old(self).pages() < usize::MAX,
        ensures
            final(self).pages() == old(self).pages() + 1,
            old(self).wf() ==> final(self).wf(),
            observes(*old(self), url@, *final(self), r),
    {
        self.pages = self.pages + 1;
        if self.pages > MAX_PAGES {
            return Err(MassiveError::PaginationLimitExceeded { pages: self.pages, limit: MAX_PAGES });
        }
        if has_text(&self.visited, url) {
            return Err(MassiveError::CyclicPagination { url: String::from_str(url) });
        }
        self.visited.push(String::from_str(url));
        assert(text::texts(self.visited@) =~= text::texts(old(self).visited@).push(url@));
        Ok(())
    }
}

impl Default for PaginationGuard {
    /// A guard that has seen no page.
    fn default() -> (r: PaginationGuard)
        ensures
            r.pages() == 0,
            r.visited() == Seq::<Seq<char>>::empty(),
            r.wf(),
    {
        let visited: Vec<String> = Vec::new();
        assert(text::texts(visited@) =~= Seq::<Seq<char>>::empty());
        PaginationGuard { pages: 0, visited }
    }
}

/// A page is accepted exactly where fewer pages than the cap were observed and it is none of those accepted; a page that was
/// accepted is refused from then on.
pub proof fn law_no_page_is_accepted_twice(
    before: PaginationGuard,
    url: Seq<char>,
    after: PaginationGuard,
    r: Result<(), MassiveError>,
    again: (PaginationGuard, Result<(), MassiveError>),
)
    requires
        observes(before, url, after, r),
        observes(after, url, again.0, again.1),
    ensures
        r is Ok <==> before.pages() < MAX_PAGES && !before.visited().contains(url),
        r is Ok ==> again.1 is Err,
        r is Err ==> after.visited() == before.visited(),
        r matches Err(e) ==> (e is PaginationLimitExceeded <==> before.pages() >= MAX_PAGES),
{
    if r is Ok {
        assert(after.visited()[before.visited().len() as int] == url);
        assert(after.visited().contains(url));
    }
}

} // verus!
