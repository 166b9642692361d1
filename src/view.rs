use vstd::prelude::*;

use crate::item::{ItemView, SortKey, SortOrder};
use crate::ranking::ranks_before;

verus! {

/// Whether a record passes the active filters: it carries the tag (compared
/// exactly), and its playability is the one asked for.
pub open spec fn passes(it: ItemView, tag: Option<Seq<char>>, playable: Option<bool>) -> bool {
    &&& match tag {
        Some(t) => it.tags.contains(t),
        None => true,
    }
    &&& match playable {
        Some(p) => it.is_playable == p,
        None => true,
    }
}

/// How many of the first `n` records pass the filters.
pub open spec fn count_passing(
    items: Seq<ItemView>,
    tag: Option<Seq<char>>,
    playable: Option<bool>,
    n: int,
) -> nat
    decreases n,
{
    if n <= 0 {
        0
    } else {
        count_passing(items, tag, playable, n - 1) + if passes(items[n - 1], tag, playable) {
            1nat
        } else {
            0nat
        }
    }
}

/// `idx` is the derived index: the positions of exactly the records that
/// pass the filters, each once, in the order of `ranks_before` (by the sort
/// key, ties by position).
pub open spec fn is_view_order(
    items: Seq<ItemView>,
    tag: Option<Seq<char>>,
    playable: Option<bool>,
    key: Option<SortKey>,
    order: SortOrder,
    idx: Seq<usize>,
) -> bool {
    &&& idx.len() == count_passing(items, tag, playable, items.len() as int)
    &&& forall|k: int|
        0 <= k < idx.len() ==> #[trigger] idx[k] < items.len() && passes(
            items[idx[k] as int],
            tag,
            playable,
        )
    &&& forall|p: int|
        0 <= p < items.len() && #[trigger] passes(items[p], tag, playable) ==> idx.contains(
            p as usize,
        )
    &&& forall|i: int, j: int|
        0 <= i < j < idx.len() ==> ranks_before(items, key, order, #[trigger] idx[i] as int, #[trigger] idx[j] as int)
}

/// The last page that holds records (0 when there are none).
pub open spec fn last_page(len: nat, page_size: nat) -> nat {
    if len == 0 || page_size == 0 {
        0
    } else {
        ((len - 1) as int / page_size as int) as nat
    }
}

/// The mathematical state of a `ViewEngine`.
pub struct EngineView {
    pub items: Seq<ItemView>,
    pub order: Seq<usize>,
    pub current_page: nat,
    pub page_size: nat,
    pub filter_tag: Option<Seq<char>>,
    pub filter_playable: Option<bool>,
    pub sort_key: Option<SortKey>,
    pub sort_order: SortOrder,
}

/// The mathematical value of a `ViewState` snapshot.
pub struct SnapshotView {
    pub filtered_count: nat,
    pub current_page: nat,
    pub items_per_page: nat,
    pub filter_tag: Option<Seq<char>>,
    pub filter_playable: Option<bool>,
    pub sort_by: Option<SortKey>,
    pub sort_order: SortOrder,
    pub total_items: nat,
}

impl EngineView {
    /// The state is well formed: a positive page size, a derived index that
    /// matches the current records and settings, and a page in range.
    pub open spec fn wf(self) -> bool {
        &&& self.page_size > 0
        &&& is_view_order(
            self.items,
            self.filter_tag,
            self.filter_playable,
            self.sort_key,
            self.sort_order,
            self.order,
        )
        &&& self.current_page <= self.max_page()
    }

    pub open spec fn max_page(self) -> nat {
        last_page(self.order.len(), self.page_size)
    }

    /// The records of the view, in derived order.
    pub open spec fn records(self) -> Seq<ItemView> {
        self.order.map_values(|i: usize| self.items[i as int])
    }

    /// The records shown on page `p`.
    pub open spec fn page(self, p: nat) -> Seq<ItemView> {
        let start = p * self.page_size;
        let len = self.order.len();
        if start >= len {
            seq![]
        } else {
            let end = if start + self.page_size < len {
                start + self.page_size
            } else {
                len
            };
            self.records().subrange(start as int, end as int)
        }
    }

    /// The summary that `get_view_state` reports.
    pub open spec fn snapshot(self) -> SnapshotView {
        SnapshotView {
            filtered_count: self.order.len(),
            current_page: self.current_page,
            items_per_page: self.page_size,
            filter_tag: self.filter_tag,
            filter_playable: self.filter_playable,
            sort_by: self.sort_key,
            sort_order: self.sort_order,
            total_items: self.items.len(),
        }
    }
}

} // verus!
