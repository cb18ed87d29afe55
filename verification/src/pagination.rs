//! Draining the paginated remote listing of failed executions.
//!
//! The remote service hands the listing back one bounded page at a time,
//! chained by an opaque continuation token. The catalog below folds each
//! fetched page in — filtered through the date window — and finishes exactly
//! when a page carries no token. The caller fetches pages and must stop at
//! the first fetch failure, discarding the catalog (all-or-nothing).

use crate::model::StateMachineExecution;
use crate::window::{filter_executions, window_pred, DateWindow};
use vstd::prelude::*;

verus! {

/// One page of the remote listing, already converted to plain values: its
/// items, and the continuation token that chains to the next page.
pub struct ExecutionPage {
    pub executions: Vec<StateMachineExecution>,
    pub next_token: Option<String>,
}

/// The in-memory catalog of failed executions for one machine, accumulated
/// page by page while the listing is drained.
pub struct ExecutionCatalog {
    pub window: DateWindow,
    pub executions: Vec<StateMachineExecution>,
    pub finished: bool,
}

impl ExecutionCatalog {
    /// Starts an empty catalog for one drain.
    pub fn new(window: DateWindow) -> (r: Self)
        ensures
            r.window == window,
            r.executions@ == Seq::<StateMachineExecution>::empty(),
            !r.finished,
    {
        let executions: Vec<StateMachineExecution> = Vec::new();
        proof {
            assert(executions@ =~= Seq::<StateMachineExecution>::empty());
        }
        ExecutionCatalog { window, executions, finished: false }
    }

    /// Folds one fetched page in: the page's items that fall in the window
    /// go after the items already gathered, in page order, and the drain
    /// finishes exactly when the page carries no continuation token.
    pub fn absorb_page(&mut self, page: ExecutionPage)
        requires
            !old(self).finished,
            old(self).window.well_formed(),
            forall|i: int|
                0 <= i < page.executions@.len() ==> (#[trigger] page.executions@[i])
                    .start_date.well_formed(),
        ensures
            final(self).window == old(self).window,
            final(self).executions@ == old(self).executions@ + page.executions@.filter(
                window_pred(old(self).window),
            ),
            final(self).finished == (page.next_token is None),
    {
        let mut filtered: Vec<StateMachineExecution> = filter_executions(
            page.executions,
            &self.window,
        );
        self.executions.append(&mut filtered);
        self.finished = match page.next_token {
            None => true,
            Some(_) => false,
        };
    }
}

/// Page-by-page accumulation: what the catalog holds after absorbing
/// `pages` in order, having started with `acc`.
pub open spec fn drain_from(
    acc: Seq<StateMachineExecution>,
    pages: Seq<Seq<StateMachineExecution>>,
    w: DateWindow,
) -> Seq<StateMachineExecution>
    decreases pages.len(),
{
    if pages.len() == 0 {
        acc
    } else {
        drain_from(acc + pages[0].filter(window_pred(w)), pages.skip(1), w)
    }
}

/// Draining from `acc` appends the pages' filtered items to `acc`.
pub proof fn lemma_drain_from_appends(
    acc: Seq<StateMachineExecution>,
    pages: Seq<Seq<StateMachineExecution>>,
    w: DateWindow,
)
    ensures
        drain_from(acc, pages, w) == acc + pages.map_values(
            |p: Seq<StateMachineExecution>| p.filter(window_pred(w)),
        ).flatten(),
    decreases pages.len(),
{
    let f = |p: Seq<StateMachineExecution>| p.filter(window_pred(w));
    if pages.len() == 0 {
        assert(pages.map_values(f).len() == 0);
        assert(drain_from(acc, pages, w) =~= acc + pages.map_values(f).flatten());
    } else {
        lemma_drain_from_appends(acc + pages[0].filter(window_pred(w)), pages.skip(1), w);
        assert(pages.map_values(f).drop_first() =~= pages.skip(1).map_values(f));
        assert(pages.map_values(f).first() == pages[0].filter(window_pred(w)));
        assert((acc + pages[0].filter(window_pred(w))) + pages.skip(1).map_values(f).flatten()
            =~= acc + pages.map_values(f).flatten());
    }
}

/// Pagination law: a full drain yields the concatenation of every page's
/// filtered items, in original order.
pub proof fn lemma_pagination_drains(pages: Seq<Seq<StateMachineExecution>>, w: DateWindow)
    ensures
        drain_from(Seq::empty(), pages, w) == pages.map_values(
            |p: Seq<StateMachineExecution>| p.filter(window_pred(w)),
        ).flatten(),
{
    let f = |p: Seq<StateMachineExecution>| p.filter(window_pred(w));
    lemma_drain_from_appends(Seq::empty(), pages, w);
    assert(Seq::empty() + pages.map_values(f).flatten() =~= pages.map_values(f).flatten());
}

} // verus!
