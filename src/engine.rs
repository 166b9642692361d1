use vstd::prelude::*;

use crate::item::{is_nan_bits, Item, ItemView, SortKey, SortOrder};
use crate::ranking::{
    key_precedes, lemma_key_total, lemma_ranks_transitive,
    precedes_by_key, ranks_before,
};
use crate::view::{count_passing, is_view_order, passes, EngineView, SnapshotView};

verus! {

/// The views of a sequence of records.
pub open spec fn item_views(items: Seq<Item>) -> Seq<ItemView> {
    items.map_values(|it: Item| it@)
}

/// The view of an optional string.
pub open spec fn opt_view(s: Option<String>) -> Option<Seq<char>> {
    match s {
        Some(t) => Some(t@),
        None => None,
    }
}

/// A snapshot of the view: counts, page and the active settings.
pub struct ViewState {
    pub filtered_count: usize,
    pub current_page: usize,
    pub items_per_page: usize,
    pub filter_tag: Option<String>,
    pub filter_playable: Option<bool>,
    pub sort_by: Option<SortKey>,
    pub sort_order: SortOrder,
    pub total_items: usize,
}

impl View for ViewState {
    type V = SnapshotView;

    open spec fn view(&self) -> SnapshotView {
        SnapshotView {
            filtered_count: self.filtered_count as nat,
            current_page: self.current_page as nat,
            items_per_page: self.items_per_page as nat,
            filter_tag: opt_view(self.filter_tag),
            filter_playable: self.filter_playable,
            sort_by: self.sort_by,
            sort_order: self.sort_order,
            total_items: self.total_items as nat,
        }
    }
}

/// The engine: the records, the view settings, the derived index and the
/// page cursor.
pub struct ViewEngine {
    items: Vec<Item>,
    filtered_indices: Vec<usize>,
    current_page: usize,
    items_per_page: usize,
    filter_tag: Option<String>,
    filter_playable: Option<bool>,
    sort_by: Option<SortKey>,
    sort_order: SortOrder,
}

impl View for ViewEngine {
    type V = EngineView;

    closed spec fn view(&self) -> EngineView {
        EngineView {
            items: item_views(self.items@),
            order: self.filtered_indices@,
            current_page: self.current_page as nat,
            page_size: self.items_per_page as nat,
            filter_tag: opt_view(self.filter_tag),
            filter_playable: self.filter_playable,
            sort_key: self.sort_by,
            sort_order: self.sort_order,
        }
    }
}

fn clone_opt_string(s: &Option<String>) -> (r: Option<String>)
    ensures
        opt_view(r) == opt_view(*s),
{
    match s {
        Some(t) => Some(t.clone()),
        None => None,
    }
}

/// Whether `tags` holds `tag` (compared exactly).
fn has_tag(tags: &Vec<String>, tag: &String) -> (r: bool)
    ensures
        r == tags@.map_values(|t: String| t@).contains(tag@),
{
    let ghost views = tags@.map_values(|t: String| t@);
    let mut i: usize = 0;
    while i < tags.len()
        invariant
            i <= tags@.len(),
            views == tags@.map_values(|t: String| t@),
            forall|k: int| 0 <= k < i ==> views[k] != tag@,
        decreases tags@.len() - i,
    {
        if tags[i] == *tag {
            assert(views[i as int] == tag@);
            return true;
        }
        i += 1;
    }
    false
}

impl ViewEngine {
    fn new(items_per_page: usize) -> (r: Self)
        ensures
            r@.items == Seq::<ItemView>::empty(),
            r@.order == Seq::<usize>::empty(),
            r@.current_page == 0,
            r@.page_size == items_per_page,
            r@.filter_tag == None::<Seq<char>>,
            r@.filter_playable == None::<bool>,
            r@.sort_key == None::<SortKey>,
            r@.sort_order == SortOrder::Ascending,
    {
        let r = ViewEngine {
            items: Vec::new(),
            filtered_indices: Vec::new(),
            current_page: 0,
            items_per_page,
            filter_tag: None,
            filter_playable: None,
            sort_by: None,
            sort_order: SortOrder::Ascending,
        };
        assert(r@.items =~= Seq::<ItemView>::empty());
        r
    }

    /// Whether record `i` passes the active filters.
    fn passes_filters(&self, i: usize) -> (r: bool)
        requires
            i < self@.items.len(),
        ensures
            r == passes(self@.items[i as int], self@.filter_tag, self@.filter_playable),
    {
        let it = &self.items[i];
        assert(self@.items[i as int] == it@);
        let tag_ok = match &self.filter_tag {
            Some(t) => has_tag(&it.tags, t),
            None => true,
        };
        let playable_ok = match self.filter_playable {
            Some(p) => it.is_playable == p,
            None => true,
        };
        tag_ok && playable_ok
    }

    /// Inserts position `x` into `order`, after every position that does
    /// not come after it on the sort key. All positions already there are
    /// smaller than `x`, so ties keep the order of the collection.
    fn insert_ranked(&self, order: &mut Vec<usize>, x: usize)
        requires
            x < self@.items.len(),
            forall|k: int| 0 <= k < old(order)@.len() ==> #[trigger] old(order)@[k] < x,
            forall|i: int, j: int|
                0 <= i < j < old(order)@.len() ==> ranks_before(
                    self@.items,
                    self@.sort_key,
                    self@.sort_order,
                    #[trigger] old(order)@[i] as int,
                    #[trigger] old(order)@[j] as int,
                ),
        ensures
            exists|j: int|
                0 <= j <= old(order)@.len() && final(order)@ == old(order)@.insert(j, x),
            forall|i: int, j: int|
                0 <= i < j < final(order)@.len() ==> ranks_before(
                    self@.items,
                    self@.sort_key,
                    self@.sort_order,
                    #[trigger] final(order)@[i] as int,
                    #[trigger] final(order)@[j] as int,
                ),
    {
        let ghost items = self@.items;
        let ghost key = self@.sort_key;
        let ghost dir = self@.sort_order;
        let ghost old_order = order@;
        let mut j: usize = order.len();
        while j > 0 && precedes_by_key(&self.items, self.sort_by, self.sort_order, x, order[j - 1])
            invariant
                j <= order@.len(),
                order@ == old_order,
                items == self@.items,
                items == item_views(self.items@),
                key == self.sort_by,
                dir == self.sort_order,
                x < items.len(),
                forall|k: int| 0 <= k < order@.len() ==> #[trigger] order@[k] < x,
                forall|k: int|
                    j <= k < order@.len() ==> key_precedes(
                        items,
                        key,
                        dir,
                        x as int,
                        #[trigger] order@[k] as int,
                    ),
            decreases j,
        {
            j -= 1;
        }
        proof {
            if j > 0 {
                let y = old_order[j - 1] as int;
                lemma_key_total(items, key, dir, x as int, y);
                assert(ranks_before(items, key, dir, y, x as int));
                assert forall|k: int| 0 <= k < j implies ranks_before(
                    items,
                    key,
                    dir,
                    old_order[k] as int,
                    x as int,
                ) by {
                    if k < j - 1 {
                        lemma_ranks_transitive(items, key, dir, old_order[k] as int, y, x as int);
                    }
                }
            }
        }
        order.insert(j, x);
        proof {
            let n = order@;
            assert(n == old_order.insert(j as int, x));
            assert forall|a: int, b: int| 0 <= a < b < n.len() implies ranks_before(
                items,
                key,
                dir,
                #[trigger] n[a] as int,
                #[trigger] n[b] as int,
            ) by {
                if b < j {
                    assert(n[a] == old_order[a] && n[b] == old_order[b]);
                } else if b == j {
                    assert(n[a] == old_order[a]);
                } else if a == j {
                    assert(n[b] == old_order[b - 1]);
                } else if a < j {
                    assert(n[a] == old_order[a] && n[b] == old_order[b - 1]);
                } else {
                    assert(n[a] == old_order[a - 1] && n[b] == old_order[b - 1]);
                }
            }
        }
    }

    /// Rebuilds the derived index from all records: the positions that pass
    /// the filters, in collection order, stably sorted by the sort key.
    fn apply_filters(&mut self)
        ensures
            final(self)@.items == old(self)@.items,
            final(self)@.current_page == old(self)@.current_page,
            final(self)@.page_size == old(self)@.page_size,
            final(self)@.filter_tag == old(self)@.filter_tag,
            final(self)@.filter_playable == old(self)@.filter_playable,
            final(self)@.sort_key == old(self)@.sort_key,
            final(self)@.sort_order == old(self)@.sort_order,
            is_view_order(
                final(self)@.items,
                final(self)@.filter_tag,
                final(self)@.filter_playable,
                final(self)@.sort_key,
                final(self)@.sort_order,
                final(self)@.order,
            ),
    {
        let ghost items = self@.items;
        let ghost tag = self@.filter_tag;
        let ghost playable = self@.filter_playable;
        let ghost key = self@.sort_key;
        let ghost dir = self@.sort_order;
        let mut order: Vec<usize> = Vec::new();
        let n = self.items.len();
        let mut i: usize = 0;
        while i < n
            invariant
                n == items.len(),
                i <= n,
                items == self@.items,
                tag == self@.filter_tag,
                playable == self@.filter_playable,
                key == self@.sort_key,
                dir == self@.sort_order,
                order@.len() == count_passing(items, tag, playable, i as int),
                forall|k: int|
                    0 <= k < order@.len() ==> #[trigger] order@[k] < i && passes(
                        items[order@[k] as int],
                        tag,
                        playable,
                    ),
                forall|p: int|
                    0 <= p < i && #[trigger] passes(items[p], tag, playable) ==> order@.contains(
                        p as usize,
                    ),
                forall|a: int, b: int|
                    0 <= a < b < order@.len() ==> ranks_before(
                        items,
                        key,
                        dir,
                        #[trigger] order@[a] as int,
                        #[trigger] order@[b] as int,
                    ),
            decreases n - i,
        {
            if self.passes_filters(i) {
                let ghost before = order@;
                self.insert_ranked(&mut order, i);
                proof {
                    let j = choose|j: int|
                        0 <= j <= before.len() && order@ == before.insert(j, i);
                    assert forall|k: int| 0 <= k < order@.len() implies #[trigger] order@[k] < i
                        + 1 && passes(items[order@[k] as int], tag, playable) by {
                        if k < j {
                            assert(order@[k] == before[k]);
                        } else if k > j {
                            assert(order@[k] == before[k - 1]);
                        }
                    }
                    assert forall|p: int|
                        0 <= p < i + 1 && #[trigger] passes(
                            items[p],
                            tag,
                            playable,
                        ) implies order@.contains(p as usize) by {
                        if p == i {
                            assert(order@[j] == i);
                        } else {
                            let k = choose|k: int| 0 <= k < before.len() && before[k] == p as usize;
                            if k < j {
                                assert(order@[k] == before[k]);
                            } else {
                                assert(order@[k + 1] == before[k]);
                            }
                        }
                    }
                }
            }
            i += 1;
        }
        self.filtered_indices = order;
    }

    /// The summary of the current view.
    fn get_view_state(&self) -> (r: ViewState)
        ensures
            r@ == self@.snapshot(),
    {
        ViewState {
            filtered_count: self.filtered_indices.len(),
            current_page: self.current_page,
            items_per_page: self.items_per_page,
            filter_tag: clone_opt_string(&self.filter_tag),
            filter_playable: self.filter_playable,
            sort_by: self.sort_by,
            sort_order: self.sort_order,
            total_items: self.items.len(),
        }
    }

    /// The records of the current page, in derived order.
    fn get_page_items(&self) -> (r: Vec<Item>)
        requires
            self@.wf(),
        ensures
            item_views(r@) == self@.page(self@.current_page),
    {
        let len = self.filtered_indices.len();
        let ps = self.items_per_page;
        let cp = self.current_page;
        if len == 0 {
            let r: Vec<Item> = Vec::new();
            assert(item_views(r@) =~= seq![]);
            return r;
        }
        assert(cp * ps <= len - 1) by (nonlinear_arith)
            requires
                ps > 0,
                len > 0,
                cp <= (len - 1) as int / ps as int,
        ;
        let start = cp * ps;
        let end = if len - start > ps {
            start + ps
        } else {
            len
        };
        let ghost records = self@.records();
        let mut r: Vec<Item> = Vec::new();
        let mut k: usize = start;
        while k < end
            invariant
                start <= k <= end,
                end <= len,
                len == self@.order.len(),
                records == self@.records(),
                self@.wf(),
                item_views(r@) =~= records.subrange(start as int, k as int),
            decreases end - k,
        {
            let i = self.filtered_indices[k];
            let ghost before = r@;
            let it = self.items[i].clone();
            r.push(it);
            proof {
                assert(self@.order[k as int] == i);
                assert(records[k as int] == self@.items[i as int]);
                assert(self@.items[i as int] == self.items@[i as int]@);
                assert(r@ == before.push(it));
                assert(item_views(r@) =~= item_views(before).push(it@));
                assert(records.subrange(start as int, k + 1) =~= records.subrange(
                    start as int,
                    k as int,
                ).push(records[k as int]));
            }
            k += 1;
        }
        r
    }

    /// The last page that holds records.
    fn max_page(&self) -> (r: usize)
        requires
            self@.page_size > 0,
        ensures
            r == self@.max_page(),
    {
        let len = self.filtered_indices.len();
        if len == 0 {
            0
        } else {
            (len - 1) / self.items_per_page
        }
    }
}

/// A new engine with no records, no filters, no sort key, ascending order,
/// on page 0, that shows `items_per_page` records per page.
pub fn init_store(items_per_page: usize) -> (r: ViewEngine)
    requires
        items_per_page > 0,
    ensures
        r@.wf(),
        r@.items == Seq::<ItemView>::empty(),
        r@.current_page == 0,
        r@.page_size == items_per_page,
        r@.filter_tag == None::<Seq<char>>,
        r@.filter_playable == None::<bool>,
        r@.sort_key == None::<SortKey>,
        r@.sort_order == SortOrder::Ascending,
{
    ViewEngine::new(items_per_page)
}

/// Replaces all records, goes back to page 0 and derives the view anew
/// with the current filters and sort.
pub fn set_items(engine: &mut ViewEngine, items: Vec<Item>) -> (r: ViewState)
    requires
        old(engine)@.wf(),
        forall|i: int| 0 <= i < items@.len() ==> !is_nan_bits(#[trigger] items@[i].rating_bits),
    ensures
        final(engine)@.wf(),
        final(engine)@.items == item_views(items@),
        final(engine)@.current_page == 0,
        final(engine)@.page_size == old(engine)@.page_size,
        final(engine)@.filter_tag == old(engine)@.filter_tag,
        final(engine)@.filter_playable == old(engine)@.filter_playable,
        final(engine)@.sort_key == old(engine)@.sort_key,
        final(engine)@.sort_order == old(engine)@.sort_order,
        r@ == final(engine)@.snapshot(),
{
    engine.items = items;
    engine.current_page = 0;
    engine.apply_filters();
    engine.get_view_state()
}

/// Sets or clears the tag filter, goes back to page 0 and derives the view
/// anew.
pub fn filter_by_tag(engine: &mut ViewEngine, tag: Option<String>) -> (r: ViewState)
    requires
        old(engine)@.wf(),
    ensures
        final(engine)@.wf(),
        final(engine)@.items == old(engine)@.items,
        final(engine)@.current_page == 0,
        final(engine)@.page_size == old(engine)@.page_size,
        final(engine)@.filter_tag == opt_view(tag),
        final(engine)@.filter_playable == old(engine)@.filter_playable,
        final(engine)@.sort_key == old(engine)@.sort_key,
        final(engine)@.sort_order == old(engine)@.sort_order,
        r@ == final(engine)@.snapshot(),
{
    engine.filter_tag = tag;
    engine.current_page = 0;
    engine.apply_filters();
    engine.get_view_state()
}

/// Sets or clears the playability filter, goes back to page 0 and derives
/// the view anew.
pub fn filter_by_playable(engine: &mut ViewEngine, playable: Option<bool>) -> (r: ViewState)
    requires
        old(engine)@.wf(),
    ensures
        final(engine)@.wf(),
        final(engine)@.items == old(engine)@.items,
        final(engine)@.current_page == 0,
        final(engine)@.page_size == old(engine)@.page_size,
        final(engine)@.filter_tag == old(engine)@.filter_tag,
        final(engine)@.filter_playable == playable,
        final(engine)@.sort_key == old(engine)@.sort_key,
        final(engine)@.sort_order == old(engine)@.sort_order,
        r@ == final(engine)@.snapshot(),
{
    engine.filter_playable = playable;
    engine.current_page = 0;
    engine.apply_filters();
    engine.get_view_state()
}

/// Sorts by `key` in the current direction, keeping the page.
fn sort_by_key(engine: &mut ViewEngine, key: SortKey) -> (r: ViewState)
    requires
        old(engine)@.wf(),
    ensures
        final(engine)@.wf(),
        final(engine)@.items == old(engine)@.items,
        final(engine)@.current_page == old(engine)@.current_page,
        final(engine)@.page_size == old(engine)@.page_size,
        final(engine)@.filter_tag == old(engine)@.filter_tag,
        final(engine)@.filter_playable == old(engine)@.filter_playable,
        final(engine)@.sort_key == Some(key),
        final(engine)@.sort_order == old(engine)@.sort_order,
        r@ == final(engine)@.snapshot(),
{
    engine.sort_by = Some(key);
    engine.apply_filters();
    engine.get_view_state()
}

/// Sorts by rating in the current direction, keeping the page.
pub fn sort_by_rating(engine: &mut ViewEngine) -> (r: ViewState)
    requires
        old(engine)@.wf(),
    ensures
        final(engine)@.wf(),
        final(engine)@.items == old(engine)@.items,
        final(engine)@.current_page == old(engine)@.current_page,
        final(engine)@.page_size == old(engine)@.page_size,
        final(engine)@.filter_tag == old(engine)@.filter_tag,
        final(engine)@.filter_playable == old(engine)@.filter_playable,
        final(engine)@.sort_key == Some(SortKey::Rating),
        final(engine)@.sort_order == old(engine)@.sort_order,
        r@ == final(engine)@.snapshot(),
{
    sort_by_key(engine, SortKey::Rating)
}

/// Sorts by title in the current direction, keeping the page.
pub fn sort_by_title(engine: &mut ViewEngine) -> (r: ViewState)
    requires
        old(engine)@.wf(),
    ensures
        final(engine)@.wf(),
        final(engine)@.items == old(engine)@.items,
        final(engine)@.current_page == old(engine)@.current_page,
        final(engine)@.page_size == old(engine)@.page_size,
        final(engine)@.filter_tag == old(engine)@.filter_tag,
        final(engine)@.filter_playable == old(engine)@.filter_playable,
        final(engine)@.sort_key == Some(SortKey::Title),
        final(engine)@.sort_order == old(engine)@.sort_order,
        r@ == final(engine)@.snapshot(),
{
    sort_by_key(engine, SortKey::Title)
}

/// Flips the sort direction and derives the view anew, keeping the page.
pub fn toggle_sort_order(engine: &mut ViewEngine) -> (r: ViewState)
    requires
        old(engine)@.wf(),
    ensures
        final(engine)@.wf(),
        final(engine)@.items == old(engine)@.items,
        final(engine)@.current_page == old(engine)@.current_page,
        final(engine)@.page_size == old(engine)@.page_size,
        final(engine)@.filter_tag == old(engine)@.filter_tag,
        final(engine)@.filter_playable == old(engine)@.filter_playable,
        final(engine)@.sort_key == old(engine)@.sort_key,
        final(engine)@.sort_order == match old(engine)@.sort_order {
            SortOrder::Ascending => SortOrder::Descending,
            SortOrder::Descending => SortOrder::Ascending,
        },
        r@ == final(engine)@.snapshot(),
{
    engine.sort_order = match engine.sort_order {
        SortOrder::Ascending => SortOrder::Descending,
        SortOrder::Descending => SortOrder::Ascending,
    };
    engine.apply_filters();
    engine.get_view_state()
}

/// Goes to `page`, clamped to the last page that holds records.
pub fn set_page(engine: &mut ViewEngine, page: usize) -> (r: ViewState)
    requires
        old(engine)@.wf(),
    ensures
        final(engine)@.wf(),
        final(engine)@ == (EngineView {
            current_page: if page <= old(engine)@.max_page() {
                page as nat
            } else {
                old(engine)@.max_page()
            },
            ..old(engine)@
        }),
        r@ == final(engine)@.snapshot(),
{
    let max_page = engine.max_page();
    engine.current_page = if page < max_page {
        page
    } else {
        max_page
    };
    engine.get_view_state()
}

/// Goes one page forward, staying on the last page.
pub fn next_page(engine: &mut ViewEngine) -> (r: ViewState)
    requires
        old(engine)@.wf(),
    ensures
        final(engine)@.wf(),
        final(engine)@ == (EngineView {
            current_page: if old(engine)@.current_page < old(engine)@.max_page() {
                old(engine)@.current_page + 1
            } else {
                old(engine)@.current_page
            },
            ..old(engine)@
        }),
        r@ == final(engine)@.snapshot(),
{
    let max_page = engine.max_page();
    if engine.current_page < max_page {
        engine.current_page = engine.current_page + 1;
    }
    engine.get_view_state()
}

/// Goes one page back, staying on page 0.
pub fn prev_page(engine: &mut ViewEngine) -> (r: ViewState)
    requires
        old(engine)@.wf(),
    ensures
        final(engine)@.wf(),
        final(engine)@ == (EngineView {
            current_page: if old(engine)@.current_page > 0 {
                (old(engine)@.current_page - 1) as nat
            } else {
                0
            },
            ..old(engine)@
        }),
        r@ == final(engine)@.snapshot(),
{
    if engine.current_page > 0 {
        engine.current_page = engine.current_page - 1;
    }
    engine.get_view_state()
}

/// The records of the current page, in derived order.
pub fn get_page_items(engine: &ViewEngine) -> (r: Vec<Item>)
    requires
        engine@.wf(),
    ensures
        item_views(r@) == engine@.page(engine@.current_page),
{
    engine.get_page_items()
}

/// The summary of the current view.
pub fn get_view_state(engine: &ViewEngine) -> (r: ViewState)
    ensures
        r@ == engine@.snapshot(),
{
    engine.get_view_state()
}

} // verus!
