use vstd::prelude::*;

use crate::models::{AddWatchlistRequest, RemoveWatchlistRequest, StoreError, Watchlist};
use crate::quotes::ResearchService;

verus! {

proof fn lemma_index_of_unique(s: Seq<Seq<char>>, t: Seq<char>, i: int)
    requires
        s.no_duplicates(),
        0 <= i < s.len(),
        s[i] == t,
    ensures
        s.contains(t),
        s.index_of(t) == i,
{
    assert(s.contains(t));
    let j = s.index_of(t);
    assert(0 <= j < s.len() && s[j] == t);
}

/// Finds `ticker` among tickers that are distinct.
fn find_ticker(tickers: &Vec<String>, ticker: &String) -> (r: Option<usize>)
    requires
        tickers@.map_values(|t: String| t@).no_duplicates(),
    ensures
        ({
            let s = tickers@.map_values(|t: String| t@);
            match r {
                Some(i) => s.contains(ticker@) && i as int == s.index_of(ticker@),
                None => !s.contains(ticker@),
            }
        }),
{
    let ghost s = tickers@.map_values(|t: String| t@);
    let mut i: usize = 0;
    while i < tickers.len()
        invariant
            i <= tickers@.len(),
            s == tickers@.map_values(|t: String| t@),
            s.no_duplicates(),
            forall|k: int| 0 <= k < i ==> s[k] != ticker@,
        decreases tickers@.len() - i,
    {
        if tickers[i] == *ticker {
            proof {
                lemma_index_of_unique(s, ticker@, i as int);
            }
            return Some(i);
        }
        i = i + 1;
    }
    None
}

/// The watchlist store: the tickers of one backing document, without duplicates.
pub struct WatchlistService {
    file_path: String,
    watchlist: Watchlist,
    research_service: ResearchService,
}

impl View for WatchlistService {
    type V = Seq<Seq<char>>;

    closed spec fn view(&self) -> Seq<Seq<char>> {
        self.watchlist@
    }
}

impl WatchlistService {
    /// Where the store's document lives.
    pub closed spec fn path(&self) -> Seq<char> {
        self.file_path@
    }

    pub open spec fn wf(&self) -> bool {
        self@.no_duplicates()
    }

    /// An empty store backed by `data/watchlist.json`.
    pub fn new() -> (r: Self)
        ensures
            r.wf(),
            r@ == Seq::<Seq<char>>::empty(),
            r.path() == "data/watchlist.json"@,
    {
        let r = WatchlistService {
            file_path: "data/watchlist.json".to_owned(),
            watchlist: Watchlist { tickers: Vec::new() },
            research_service: ResearchService::new(),
        };
        assert(r@ =~= Seq::<Seq<char>>::empty());
        r
    }

    /// A store over a loaded watchlist; refused when that watchlist repeats a ticker.
    pub fn open(file_path: String, watchlist: Watchlist) -> (r: Result<Self, StoreError>)
        ensures
            match r {
                Ok(st) => watchlist@.no_duplicates() && st.wf() && st@ == watchlist@ && st.path()
                    == file_path@,
                Err(e) => !watchlist@.no_duplicates() && e == StoreError::CorruptData,
            },
    {
        let ghost s = watchlist@;
        let n = watchlist.tickers.len();
        let mut i: usize = 0;
        while i < n
            invariant
                n == watchlist.tickers@.len(),
                s == watchlist@,
                i <= n,
                forall|a: int, b: int| 0 <= a < b < n && a < i ==> s[a] != s[b],
            decreases n - i,
        {
            let mut j: usize = i + 1;
            while j < n
                invariant
                    n == watchlist.tickers@.len(),
                    s == watchlist@,
                    i < n,
                    i < j <= n,
                    forall|b: int| i < b < j ==> s[i as int] != s[b],
                decreases n - j,
            {
                if watchlist.tickers[i] == watchlist.tickers[j] {
                    assert(s[i as int] == s[j as int]);
                    return Err(StoreError::CorruptData);
                }
                j = j + 1;
            }
            i = i + 1;
        }
        Ok(WatchlistService { file_path, watchlist, research_service: ResearchService::new() })
    }

    /// The path of the store's document.
    pub fn file_path(&self) -> (r: &String)
        ensures
            r@ == self.path(),
    {
        &self.file_path
    }

    /// The watched tickers, in insertion order.
    pub fn get_watchlist(&self) -> (r: Watchlist)
        ensures
            r@ == self@,
    {
        self.watchlist.duplicate()
    }

    /// Starts watching `request.ticker`, after asking the price source for a
    /// quote of it, and returns the new watchlist. A ticker already watched is
    /// refused and changes nothing.
    pub fn add_ticker(&mut self, request: AddWatchlistRequest) -> (r: Result<Watchlist, StoreError>)
        requires
            old(self).wf(),
        ensures
            final(self).wf(),
            final(self).path() == old(self).path(),
            match r {
                Ok(w) => !old(self)@.contains(request.ticker@) && final(self)@ == old(self)@.push(
                    request.ticker@,
                ) && w@ == final(self)@,
                Err(e) => old(self)@.contains(request.ticker@) && e == StoreError::AlreadyExists
                    && final(self)@ == old(self)@,
            },
    {
        let _quote = self.research_service.get_stock_quote(request.ticker.as_str());
        let ghost s = self@;
        match find_ticker(&self.watchlist.tickers, &request.ticker) {
            Some(_) => Err(StoreError::AlreadyExists),
            None => {
                self.watchlist.tickers.push(request.ticker);
                proof {
                    assert(self@ =~= s.push(request.ticker@));
                    assert forall|a: int, b: int|
                        0 <= a < self@.len() && 0 <= b < self@.len() && a != b implies self@[a]
                        != self@[b] by {
                        if a < s.len() && b < s.len() {
                        } else if a < s.len() {
                            assert(s[a] != request.ticker@);
                        } else {
                            assert(s[b] != request.ticker@);
                        }
                    }
                }
                Ok(self.watchlist.duplicate())
            },
        }
    }

    /// Stops watching `request.ticker` and returns the new watchlist. A ticker
    /// not watched is refused and changes nothing.
    pub fn remove_ticker(&mut self, request: RemoveWatchlistRequest) -> (r: Result<Watchlist, StoreError>)
        requires
            old(self).wf(),
        ensures
            final(self).wf(),
            final(self).path() == old(self).path(),
            match r {
                Ok(w) => old(self)@.contains(request.ticker@) && final(self)@ == old(self)@.remove(
                    old(self)@.index_of(request.ticker@),
                ) && w@ == final(self)@,
                Err(e) => !old(self)@.contains(request.ticker@) && e == StoreError::NotFound
                    && final(self)@ == old(self)@,
            },
    {
        let ghost s = self@;
        match find_ticker(&self.watchlist.tickers, &request.ticker) {
            None => Err(StoreError::NotFound),
            Some(i) => {
                self.watchlist.tickers.remove(i);
                proof {
                    let t = s.remove(i as int);
                    assert(self@ =~= t);
                    assert forall|a: int, b: int|
                        0 <= a < t.len() && 0 <= b < t.len() && a != b implies t[a] != t[b] by {
                        let a2 = if a < i { a } else { a + 1 };
                        let b2 = if b < i { b } else { b + 1 };
                        assert(t[a] == s[a2] && t[b] == s[b2]);
                    }
                }
                Ok(self.watchlist.duplicate())
            },
        }
    }
}

/// Once a ticker has been added, the watchlist holds it, so adding it a second
/// time is refused; the first addition keeps the tickers distinct and grows the
/// list by one.
pub proof fn lemma_add_twice_refused(s: Seq<Seq<char>>, t: Seq<char>)
    requires
        s.no_duplicates(),
        !s.contains(t),
    ensures
        s.push(t).no_duplicates(),
        s.push(t).contains(t),
        s.push(t).len() == s.len() + 1,
{
    assert(s.push(t)[s.len() as int] == t);
    assert forall|a: int, b: int|
        0 <= a < s.push(t).len() && 0 <= b < s.push(t).len() && a != b implies s.push(t)[a] != s.push(
        t,
    )[b] by {
        if a < s.len() && b < s.len() {
        } else if a < s.len() {
            assert(s[a] != t);
        } else {
            assert(s[b] != t);
        }
    }
}

} // verus!
