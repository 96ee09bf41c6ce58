use vstd::prelude::*;
use crate::error::ScrapeError;
use crate::html::{page_records, page_records_of, resolve_page_count, search_page_count};
use crate::table::{record_views, CompanyRecord};
use crate::text::push_char;

verus! {

pub open spec fn digit_char(d: nat) -> char {
    seq!['0', '1', '2', '3', '4', '5', '6', '7', '8', '9'][d as int]
}

/// The decimal rendering of a number, without leading zeros.
pub open spec fn decimal(n: nat) -> Seq<char>
    decreases n,
{
    if n < 10 {
        seq![digit_char(n)]
    } else {
        decimal(n / 10).push(digit_char(n % 10))
    }
}

/// The address of the search endpoint under a site base and a directory path.
pub open spec fn search_url_of(base: Seq<char>, dir: Seq<char>) -> Seq<char> {
    base + dir + "search.ax?"@
}

/// The address of result page `n` from the search endpoint's address.
pub open spec fn page_url_of(search: Seq<char>, n: nat) -> Seq<char> {
    search + "pageNo="@ + decimal(n)
}

fn push_decimal(out: &mut String, n: u64)
    ensures
        final(out)@ == old(out)@ + decimal(n as nat),
    decreases n,
{
    let ds: [char; 10] = ['0', '1', '2', '3', '4', '5', '6', '7', '8', '9'];
    assert(ds@ == seq!['0', '1', '2', '3', '4', '5', '6', '7', '8', '9']);
    if n >= 10 {
        push_decimal(out, n / 10);
    }
    let ghost mid = out@;
    push_char(out, ds[(n % 10) as usize]);
    if n < 10 {
        assert(old(out)@ + decimal(n as nat) =~= mid.push(digit_char(n as nat)));
    } else {
        assert(old(out)@ + decimal(n as nat) =~= mid.push(digit_char((n % 10) as nat)));
    }
}

/// The address of result page `n`.
pub fn page_url(search: &str, n: u64) -> (r: String)
    ensures
        r@ == page_url_of(search@, n as nat),
{
    let mut r = String::from_str(search);
    r.append("pageNo=");
    push_decimal(&mut r, n);
    r
}

/// The address of the search endpoint, which also serves the page counter.
pub fn search_url(base: &str, dir: &str) -> (r: String)
    ensures
        r@ == search_url_of(base@, dir@),
{
    let mut r = String::from_str(base);
    r.append(dir);
    r.append("search.ax?");
    r
}

/// A scrape of the directory in progress. It first asks for the search page, from which
/// it learns the page count, then for pages `1` to that count in turn, collecting the
/// records of each.
pub struct Scrape {
    /// The search endpoint's address.
    pub search_url: String,
    /// The number of result pages; zero until the counter was read.
    pub page_count: u64,
    /// The result page to fetch next.
    pub next_page: u64,
    /// The records collected so far, in page order.
    pub records: Vec<CompanyRecord>,
}

impl Scrape {
    pub open spec fn wf(&self) -> bool {
        &&& self.page_count < u64::MAX
        &&& 1 <= self.next_page <= self.page_count + 1
        &&& self.page_count == 0 ==> self.records@.len() == 0
    }

    pub open spec fn spec_done(&self) -> bool {
        self.page_count > 0 && self.next_page > self.page_count
    }

    /// A scrape that has fetched nothing yet.
    pub fn new(base: &str, dir: &str) -> (r: Scrape)
        ensures
            r.wf(),
            r.search_url@ == search_url_of(base@, dir@),
            r.page_count == 0,
            r.next_page == 1,
            r.records@.len() == 0,
    {
        Scrape { search_url: search_url(base, dir), page_count: 0, next_page: 1, records: Vec::new() }
    }

    /// Whether every result page has been taken in.
    pub fn is_done(&self) -> (r: bool)
        requires
            self.wf(),
        ensures
            r == self.spec_done(),
    {
        self.page_count > 0 && self.next_page > self.page_count
    }

    /// The address to fetch next: the search page while the page count is unknown,
    /// then each result page in increasing order; `None` once all were taken in.
    pub fn next_url(&self) -> (r: Option<String>)
        requires
            self.wf(),
        ensures
            self.page_count == 0 ==> (r matches Some(u) && u@ == self.search_url@),
            self.page_count > 0 && !self.spec_done() ==> (r matches Some(u) && u@ == page_url_of(
                self.search_url@,
                self.next_page as nat,
            )),
            self.spec_done() ==> r is None,
    {
        if self.page_count == 0 {
            Some(self.search_url.clone())
        } else if self.next_page <= self.page_count {
            Some(page_url(self.search_url.as_str(), self.next_page))
        } else {
            None
        }
    }

    /// Takes in the body fetched from `next_url`. The search page sets the page count,
    /// or fails with `Parse`; a result page adds its records and moves to the next page.
    pub fn on_body(&mut self, body: String) -> (r: Result<(), ScrapeError>)
        requires
            old(self).wf(),
            !old(self).spec_done(),
        ensures
            final(self).wf(),
            final(self).search_url == old(self).search_url,
            old(self).page_count == 0 ==> {
                &&& final(self).next_page == 1
                &&& final(self).records@.len() == 0
                &&& match search_page_count(body@) {
                    Ok(n) => r is Ok && final(self).page_count == n,
                    Err(e) => r == Err::<(), ScrapeError>(e) && final(self).page_count == 0,
                }
            },
            old(self).page_count > 0 ==> {
                &&& r is Ok
                &&& final(self).page_count == old(self).page_count
                &&& final(self).next_page == old(self).next_page + 1
                &&& record_views(final(self).records@) == record_views(old(self).records@)
                    + page_records_of(body@)
            },
    {
        if self.page_count == 0 {
            match resolve_page_count(body) {
                Ok(n) => {
                    self.page_count = n;
                    self.next_page = 1;
                    Ok(())
                },
                Err(e) => Err(e),
            }
        } else {
            let mut page = page_records(body);
            let ghost before = self.records@;
            let ghost added = page@;
            self.records.append(&mut page);
            assert(record_views(self.records@) =~= record_views(before) + record_views(added));
            self.next_page = self.next_page + 1;
            Ok(())
        }
    }

    /// Takes in the outcome of fetching `next_url`: the body, or `None` where the fetch
    /// failed. A failed fetch ends the scrape with `Network` and changes nothing.
    pub fn on_response(&mut self, fetched: Option<String>) -> (r: Result<(), ScrapeError>)
        requires
            old(self).wf(),
            !old(self).spec_done(),
        ensures
            final(self).wf(),
            final(self).search_url == old(self).search_url,
            fetched is None ==> r == Err::<(), ScrapeError>(ScrapeError::Network) && *final(self)
                == *old(self),
            fetched is Some && old(self).page_count == 0 ==> {
                let body = fetched->0;
                &&& final(self).next_page == 1
                &&& final(self).records@.len() == 0
                &&& match search_page_count(body@) {
                    Ok(n) => r is Ok && final(self).page_count == n,
                    Err(e) => r == Err::<(), ScrapeError>(e) && final(self).page_count == 0,
                }
            },
            fetched is Some && old(self).page_count > 0 ==> {
                let body = fetched->0;
                &&& r is Ok
                &&& final(self).page_count == old(self).page_count
                &&& final(self).next_page == old(self).next_page + 1
                &&& record_views(final(self).records@) == record_views(old(self).records@)
                    + page_records_of(body@)
            },
    {
        match fetched {
            Some(body) => self.on_body(body),
            None => Err(ScrapeError::Network),
        }
    }
}

} // verus!
