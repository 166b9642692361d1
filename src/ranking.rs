use vstd::prelude::*;
use vstd::utf8::encode_utf8;

use crate::item::{rating_rank, rating_rank_of, Item, ItemView, SortKey, SortOrder};

verus! {

/// Lexicographic order on byte strings, as `str`'s `Ord` compares titles:
/// `a` comes strictly before `b`.
pub open spec fn bytes_precede(a: Seq<u8>, b: Seq<u8>) -> bool
    decreases a.len(),
{
    if a.len() == 0 {
        b.len() > 0
    } else if b.len() == 0 {
        false
    } else if a[0] != b[0] {
        a[0] < b[0]
    } else {
        bytes_precede(a.drop_first(), b.drop_first())
    }
}

pub proof fn lemma_bytes_irreflexive(a: Seq<u8>)
    ensures
        !bytes_precede(a, a),
    decreases a.len(),
{
    if a.len() > 0 {
        lemma_bytes_irreflexive(a.drop_first());
    }
}

pub proof fn lemma_bytes_transitive(a: Seq<u8>, b: Seq<u8>, c: Seq<u8>)
    requires
        bytes_precede(a, b),
        bytes_precede(b, c),
    ensures
        bytes_precede(a, c),
    decreases a.len(),
{
    if a.len() > 0 && b.len() > 0 && c.len() > 0 && a[0] == b[0] && b[0] == c[0] {
        lemma_bytes_transitive(a.drop_first(), b.drop_first(), c.drop_first());
    }
}

pub proof fn lemma_bytes_total(a: Seq<u8>, b: Seq<u8>)
    ensures
        a == b || bytes_precede(a, b) || bytes_precede(b, a),
    decreases a.len(),
{
    if a.len() > 0 && b.len() > 0 && a[0] == b[0] {
        lemma_bytes_total(a.drop_first(), b.drop_first());
        if a.drop_first() == b.drop_first() {
            assert(a =~= seq![a[0]] + a.drop_first());
            assert(b =~= seq![b[0]] + b.drop_first());
        }
    } else if a.len() == 0 && b.len() == 0 {
        assert(a =~= b);
    }
}

/// Whether `a` comes strictly before `b` in byte order.
pub fn bytes_before(a: &[u8], b: &[u8]) -> (r: bool)
    ensures
        r == bytes_precede(a@, b@),
{
    let mut i: usize = 0;
    assert(a@.subrange(0, a@.len() as int) =~= a@);
    assert(b@.subrange(0, b@.len() as int) =~= b@);
    while i < a.len() && i < b.len() && a[i] == b[i]
        invariant
            i <= a@.len(),
            i <= b@.len(),
            bytes_precede(a@, b@) == bytes_precede(
                a@.subrange(i as int, a@.len() as int),
                b@.subrange(i as int, b@.len() as int),
            ),
        decreases a@.len() - i,
    {
        let ghost sa = a@.subrange(i as int, a@.len() as int);
        let ghost sb = b@.subrange(i as int, b@.len() as int);
        assert(sa.drop_first() =~= a@.subrange(i + 1, a@.len() as int));
        assert(sb.drop_first() =~= b@.subrange(i + 1, b@.len() as int));
        i += 1;
    }
    i < b.len() && (i == a.len() || a[i] < b[i])
}

/// The bytes by which a title is ordered: its UTF-8 encoding.
pub open spec fn title_key(it: ItemView) -> Seq<u8> {
    encode_utf8(it.title)
}

/// Record `a` comes strictly before record `b` on the sort key, in the
/// given direction. With no sort key nothing comes before anything.
pub open spec fn key_precedes(
    items: Seq<ItemView>,
    key: Option<SortKey>,
    order: SortOrder,
    a: int,
    b: int,
) -> bool {
    match key {
        None => false,
        Some(SortKey::Rating) => match order {
            SortOrder::Ascending => rating_rank(items[a].rating_bits) < rating_rank(
                items[b].rating_bits,
            ),
            SortOrder::Descending => rating_rank(items[b].rating_bits) < rating_rank(
                items[a].rating_bits,
            ),
        },
        Some(SortKey::Title) => match order {
            SortOrder::Ascending => bytes_precede(title_key(items[a]), title_key(items[b])),
            SortOrder::Descending => bytes_precede(title_key(items[b]), title_key(items[a])),
        },
    }
}

/// Records `a` and `b` compare equal on the sort key.
pub open spec fn key_ties(items: Seq<ItemView>, key: Option<SortKey>, a: int, b: int) -> bool {
    match key {
        None => true,
        Some(SortKey::Rating) => rating_rank(items[a].rating_bits) == rating_rank(
            items[b].rating_bits,
        ),
        Some(SortKey::Title) => title_key(items[a]) == title_key(items[b]),
    }
}

/// The order of the view: by the sort key in its direction, and records
/// that tie on the key by their position in the collection (a stable sort).
pub open spec fn ranks_before(
    items: Seq<ItemView>,
    key: Option<SortKey>,
    order: SortOrder,
    a: int,
    b: int,
) -> bool {
    key_precedes(items, key, order, a, b) || (key_ties(items, key, a, b) && a < b)
}

/// Records that tie on the key are not ordered by it.
pub proof fn lemma_ties_do_not_precede(
    items: Seq<ItemView>,
    key: Option<SortKey>,
    order: SortOrder,
    a: int,
    b: int,
)
    requires
        key_ties(items, key, a, b),
    ensures
        !key_precedes(items, key, order, a, b),
        !key_precedes(items, key, order, b, a),
        key_ties(items, key, b, a),
{
    if key == Some(SortKey::Title) {
        lemma_bytes_irreflexive(title_key(items[a]));
    }
}

/// Two records either tie on the key or one precedes the other.
pub proof fn lemma_key_total(
    items: Seq<ItemView>,
    key: Option<SortKey>,
    order: SortOrder,
    a: int,
    b: int,
)
    ensures
        key_ties(items, key, a, b) || key_precedes(items, key, order, a, b) || key_precedes(
            items,
            key,
            order,
            b,
            a,
        ),
{
    if key == Some(SortKey::Title) {
        lemma_bytes_total(title_key(items[a]), title_key(items[b]));
    }
}

pub proof fn lemma_ranks_transitive(
    items: Seq<ItemView>,
    key: Option<SortKey>,
    order: SortOrder,
    a: int,
    b: int,
    c: int,
)
    requires
        ranks_before(items, key, order, a, b),
        ranks_before(items, key, order, b, c),
    ensures
        ranks_before(items, key, order, a, c),
{
    if key == Some(SortKey::Title) {
        let (ka, kb, kc) = (title_key(items[a]), title_key(items[b]), title_key(items[c]));
        match order {
            SortOrder::Ascending => {
                if bytes_precede(ka, kb) && bytes_precede(kb, kc) {
                    lemma_bytes_transitive(ka, kb, kc);
                }
            },
            SortOrder::Descending => {
                if bytes_precede(kb, ka) && bytes_precede(kc, kb) {
                    lemma_bytes_transitive(kc, kb, ka);
                }
            },
        }
    }
}

pub proof fn lemma_ranks_irreflexive(
    items: Seq<ItemView>,
    key: Option<SortKey>,
    order: SortOrder,
    a: int,
)
    ensures
        !ranks_before(items, key, order, a, a),
{
    if key == Some(SortKey::Title) {
        lemma_bytes_irreflexive(title_key(items[a]));
    }
}

/// Whether record `a` comes strictly before record `b` on the sort key.
pub fn precedes_by_key(
    items: &Vec<Item>,
    key: Option<SortKey>,
    order: SortOrder,
    a: usize,
    b: usize,
) -> (r: bool)
    requires
        a < items@.len(),
        b < items@.len(),
    ensures
        r == key_precedes(items@.map_values(|it: Item| it@), key, order, a as int, b as int),
{
    let ghost views = items@.map_values(|it: Item| it@);
    assert(views[a as int] == items@[a as int]@);
    assert(views[b as int] == items@[b as int]@);
    match key {
        None => false,
        Some(SortKey::Rating) => {
            let ra = rating_rank_of(items[a].rating_bits);
            let rb = rating_rank_of(items[b].rating_bits);
            match order {
                SortOrder::Ascending => ra < rb,
                SortOrder::Descending => rb < ra,
            }
        },
        Some(SortKey::Title) => {
            let ta = items[a].title.as_str().as_bytes();
            let tb = items[b].title.as_str().as_bytes();
            match order {
                SortOrder::Ascending => bytes_before(ta, tb),
                SortOrder::Descending => bytes_before(tb, ta),
            }
        },
    }
}

} // verus!
