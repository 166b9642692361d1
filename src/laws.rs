use vstd::prelude::*;

use crate::item::{ItemView, SortKey, SortOrder};
use crate::ranking::{
    key_ties, lemma_ranks_irreflexive, lemma_ranks_transitive, lemma_ties_do_not_precede,
    ranks_before,
};
use crate::view::{count_passing, is_view_order, passes, EngineView};

verus! {

proof fn lemma_count_at_most(
    items: Seq<ItemView>,
    tag: Option<Seq<char>>,
    playable: Option<bool>,
    n: int,
)
    requires
        0 <= n,
    ensures
        count_passing(items, tag, playable, n) <= n,
    decreases n,
{
    if n > 0 {
        lemma_count_at_most(items, tag, playable, n - 1);
    }
}

proof fn lemma_count_none_pass(
    items: Seq<ItemView>,
    tag: Option<Seq<char>>,
    playable: Option<bool>,
    n: int,
)
    requires
        n <= items.len(),
        forall|i: int| 0 <= i < n ==> !#[trigger] passes(items[i], tag, playable),
    ensures
        count_passing(items, tag, playable, n) == 0,
    decreases n,
{
    if n > 0 {
        lemma_count_none_pass(items, tag, playable, n - 1);
    }
}

proof fn lemma_count_all_pass(items: Seq<ItemView>, n: int)
    requires
        0 <= n <= items.len(),
    ensures
        count_passing(items, None, None, n) == n,
    decreases n,
{
    if n > 0 {
        lemma_count_all_pass(items, n - 1);
    }
}

/// Filtering never adds records: the filtered count is at most the total
/// count, and a tag that no record carries leaves the view empty.
pub proof fn lemma_filter_count_bounded(v: EngineView)
    requires
        v.wf(),
    ensures
        v.snapshot().filtered_count <= v.snapshot().total_items,
        (v.filter_tag matches Some(t) && forall|i: int|
            0 <= i < v.items.len() ==> !(#[trigger] v.items[i]).tags.contains(t))
            ==> v.snapshot().filtered_count == 0,
{
    lemma_count_at_most(v.items, v.filter_tag, v.filter_playable, v.items.len() as int);
    if let Some(t) = v.filter_tag {
        if forall|i: int| 0 <= i < v.items.len() ==> !(#[trigger] v.items[i]).tags.contains(t) {
            assert forall|i: int| 0 <= i < v.items.len() implies !#[trigger] passes(
                v.items[i],
                v.filter_tag,
                v.filter_playable,
            ) by {
                assert(!v.items[i].tags.contains(t));
            }
            lemma_count_none_pass(v.items, v.filter_tag, v.filter_playable, v.items.len() as int);
        }
    }
}

/// With no filter active, the view holds every record.
pub proof fn lemma_unfiltered_view_holds_all(v: EngineView)
    requires
        v.wf(),
        v.filter_tag is None,
        v.filter_playable is None,
    ensures
        v.snapshot().filtered_count == v.snapshot().total_items,
        v.snapshot().total_items == v.items.len(),
{
    lemma_count_all_pass(v.items, v.items.len() as int);
}

/// The sort is stable in both directions: two records that tie on the sort
/// key stand in the same relative order in the ascending view as in the
/// descending one (the order of the collection).
pub proof fn lemma_ties_keep_their_order(
    items: Seq<ItemView>,
    tag: Option<Seq<char>>,
    playable: Option<bool>,
    key: Option<SortKey>,
    asc: Seq<usize>,
    desc: Seq<usize>,
    i: int,
    j: int,
    k: int,
    l: int,
)
    requires
        is_view_order(items, tag, playable, key, SortOrder::Ascending, asc),
        is_view_order(items, tag, playable, key, SortOrder::Descending, desc),
        0 <= i < j < asc.len(),
        0 <= k < desc.len(),
        0 <= l < desc.len(),
        key_ties(items, key, asc[i] as int, asc[j] as int),
        desc[k] == asc[i],
        desc[l] == asc[j],
    ensures
        asc[i] < asc[j],
        k < l,
{
    let (a, b) = (asc[i] as int, asc[j] as int);
    lemma_ties_do_not_precede(items, key, SortOrder::Ascending, a, b);
    lemma_ties_do_not_precede(items, key, SortOrder::Descending, a, b);
    assert(ranks_before(items, key, SortOrder::Ascending, a, b));
    if l < k {
        assert(ranks_before(items, key, SortOrder::Descending, b, a));
    }
    if k == l {
        lemma_ranks_irreflexive(items, key, SortOrder::Ascending, a);
    }
}

/// The derived index is determined by the records and the settings: two
/// sequences that both satisfy `is_view_order` are equal.
pub proof fn lemma_view_order_unique(
    items: Seq<ItemView>,
    tag: Option<Seq<char>>,
    playable: Option<bool>,
    key: Option<SortKey>,
    order: SortOrder,
    s: Seq<usize>,
    t: Seq<usize>,
)
    requires
        is_view_order(items, tag, playable, key, order, s),
        is_view_order(items, tag, playable, key, order, t),
    ensures
        s == t,
{
    assert forall|p: usize| s.contains(p) <==> t.contains(p) by {
        if s.contains(p) {
            let k = choose|k: int| 0 <= k < s.len() && s[k] == p;
            assert(s[k] < items.len() && passes(items[s[k] as int], tag, playable));
        }
        if t.contains(p) {
            let k = choose|k: int| 0 <= k < t.len() && t[k] == p;
            assert(t[k] < items.len() && passes(items[t[k] as int], tag, playable));
        }
    }
    lemma_sorted_same_elements_equal(items, key, order, s, t);
}

/// The records of pages `0 .. n`, one page after another.
pub open spec fn pages_through(v: EngineView, n: nat) -> Seq<ItemView>
    decreases n,
{
    if n == 0 {
        seq![]
    } else {
        pages_through(v, (n - 1) as nat) + v.page((n - 1) as nat)
    }
}

proof fn lemma_pages_prefix(v: EngineView, n: nat)
    requires
        v.page_size > 0,
    ensures
        pages_through(v, n) == v.records().subrange(
            0,
            if n * v.page_size < v.order.len() {
                (n * v.page_size) as int
            } else {
                v.order.len() as int
            },
        ),
    decreases n,
{
    let len = v.order.len();
    let ps = v.page_size;
    if n == 0 {
        assert(v.records().subrange(0, 0) =~= seq![]);
        assert(n * ps == 0) by (nonlinear_arith)
            requires
                n == 0,
        ;
    } else {
        let m = (n - 1) as nat;
        lemma_pages_prefix(v, m);
        assert(m * ps + ps == n * ps) by (nonlinear_arith)
            requires
                m + 1 == n,
        ;
        assert(v.records().len() == len);
        assert(pages_through(v, n) == pages_through(v, m) + v.page(m));
        if m * ps >= len {
            assert(v.page(m) =~= seq![]);
            assert(pages_through(v, m) + v.page(m) =~= pages_through(v, m));
        } else {
            assert(v.records().subrange(0, (m * ps) as int) + v.page(m) =~= v.records().subrange(
                0,
                if n * ps < len {
                    (n * ps) as int
                } else {
                    len as int
                },
            ));
        }
    }
}

/// The pages `0 ..= max_page`, one after another, are the records of the
/// view in derived order, each record once.
pub proof fn lemma_pages_cover_view(v: EngineView)
    requires
        v.wf(),
    ensures
        pages_through(v, v.max_page() + 1) == v.records(),
        v.order.no_duplicates(),
{
    let len = v.order.len();
    let ps = v.page_size;
    let m = v.max_page();
    lemma_pages_prefix(v, m + 1);
    if len > 0 {
        assert((m + 1) * ps >= len) by (nonlinear_arith)
            requires
                ps > 0,
                len > 0,
                m == (len - 1) as int / ps as int,
        ;
    }
    assert(v.records().subrange(0, len as int) =~= v.records());
    assert forall|i: int, j: int| 0 <= i < len && 0 <= j < len && i != j implies v.order[i]
        != v.order[j] by {
        lemma_ranks_irreflexive(v.items, v.sort_key, v.sort_order, v.order[i] as int);
        if i < j {
            assert(ranks_before(v.items, v.sort_key, v.sort_order, v.order[i] as int, v.order[j] as int));
        } else {
            assert(ranks_before(v.items, v.sort_key, v.sort_order, v.order[j] as int, v.order[i] as int));
        }
    }
}

proof fn lemma_sorted_same_elements_equal(
    items: Seq<ItemView>,
    key: Option<SortKey>,
    order: SortOrder,
    s: Seq<usize>,
    t: Seq<usize>,
)
    requires
        s.len() == t.len(),
        forall|p: usize| s.contains(p) <==> t.contains(p),
        forall|i: int, j: int|
            0 <= i < j < s.len() ==> ranks_before(
                items,
                key,
                order,
                #[trigger] s[i] as int,
                #[trigger] s[j] as int,
            ),
        forall|i: int, j: int|
            0 <= i < j < t.len() ==> ranks_before(
                items,
                key,
                order,
                #[trigger] t[i] as int,
                #[trigger] t[j] as int,
            ),
    ensures
        s == t,
    decreases s.len(),
{
    if s.len() == 0 {
        assert(s =~= t);
    } else {
        assert(t.contains(s[0]));
        assert(s.contains(t[0]));
        let i = choose|i: int| 0 <= i < s.len() && s[i] == t[0];
        let j = choose|j: int| 0 <= j < t.len() && t[j] == s[0];
        if i > 0 && j > 0 {
            lemma_ranks_transitive(items, key, order, s[0] as int, t[0] as int, s[0] as int);
            lemma_ranks_irreflexive(items, key, order, s[0] as int);
        }
        if i == 0 && j > 0 {
            lemma_ranks_irreflexive(items, key, order, s[0] as int);
        }
        if i > 0 && j == 0 {
            lemma_ranks_irreflexive(items, key, order, s[0] as int);
        }
        assert(s[0] == t[0]);
        let (s1, t1) = (s.drop_first(), t.drop_first());
        assert forall|p: usize| s1.contains(p) <==> t1.contains(p) by {
            if s1.contains(p) {
                let k = choose|k: int| 0 <= k < s1.len() && s1[k] == p;
                lemma_ranks_irreflexive(items, key, order, s[0] as int);
                assert(p != s[0]);
                assert(s.contains(p));
                let m = choose|m: int| 0 <= m < t.len() && t[m] == p;
                assert(m > 0);
                assert(t1[m - 1] == p);
            }
            if t1.contains(p) {
                let k = choose|k: int| 0 <= k < t1.len() && t1[k] == p;
                lemma_ranks_irreflexive(items, key, order, t[0] as int);
                assert(p != t[0]);
                assert(t.contains(p));
                let m = choose|m: int| 0 <= m < s.len() && s[m] == p;
                assert(m > 0);
                assert(s1[m - 1] == p);
            }
        }
        assert forall|a: int, b: int| 0 <= a < b < s1.len() implies ranks_before(
            items,
            key,
            order,
            #[trigger] s1[a] as int,
            #[trigger] s1[b] as int,
        ) by {
            assert(s1[a] == s[a + 1] && s1[b] == s[b + 1]);
        }
        assert forall|a: int, b: int| 0 <= a < b < t1.len() implies ranks_before(
            items,
            key,
            order,
            #[trigger] t1[a] as int,
            #[trigger] t1[b] as int,
        ) by {
            assert(t1[a] == t[a + 1] && t1[b] == t[b + 1]);
        }
        lemma_sorted_same_elements_equal(items, key, order, s1, t1);
        assert(s =~= seq![s[0]] + s1);
        assert(t =~= seq![t[0]] + t1);
    }
}

} // verus!
