use vstd::prelude::*;

verus! {

/// One record of the collection.
///
/// The rating is held as the bit pattern of an IEEE-754 double
/// (`f64::to_bits`), so that the engine can order ratings exactly without
/// floating-point arithmetic.
pub struct Item {
    pub id: String,
    pub title: String,
    pub tags: Vec<String>,
    pub rating_bits: u64,
    pub is_playable: bool,
}

/// The mathematical value of an `Item`.
pub struct ItemView {
    pub id: Seq<char>,
    pub title: Seq<char>,
    pub tags: Seq<Seq<char>>,
    pub rating_bits: u64,
    pub is_playable: bool,
}

impl View for Item {
    type V = ItemView;

    open spec fn view(&self) -> ItemView {
        ItemView {
            id: self.id@,
            title: self.title@,
            tags: self.tags@.map_values(|t: String| t@),
            rating_bits: self.rating_bits,
            is_playable: self.is_playable,
        }
    }
}

impl Clone for Item {
    fn clone(&self) -> (r: Self)
        ensures
            r@ == self@,
    {
        let mut tags: Vec<String> = Vec::new();
        let mut i: usize = 0;
        while i < self.tags.len()
            invariant
                i <= self.tags@.len(),
                tags@.len() == i,
                forall|k: int| 0 <= k < i ==> tags@[k]@ == self.tags@[k]@,
            decreases self.tags@.len() - i,
        {
            tags.push(self.tags[i].clone());
            i += 1;
        }
        assert(tags@.map_values(|t: String| t@) =~= self.tags@.map_values(|t: String| t@));
        Item {
            id: self.id.clone(),
            title: self.title.clone(),
            tags,
            rating_bits: self.rating_bits,
            is_playable: self.is_playable,
        }
    }
}

/// The field that the view is sorted by.
#[derive(Clone, Copy, Debug, PartialEq, Eq, Structural)]
pub enum SortKey {
    Rating,
    Title,
}

/// The direction of the sort.
#[derive(Clone, Copy, Debug, PartialEq, Eq, Structural)]
pub enum SortOrder {
    Ascending,
    Descending,
}

/// The sign bit of an IEEE-754 double.
pub const SIGN_BIT: u64 = 0x8000_0000_0000_0000;

/// The bit pattern of positive infinity: every magnitude above it is a NaN.
pub const INFINITY_BITS: u64 = 0x7FF0_0000_0000_0000;

/// The magnitude of a double: its bits without the sign.
pub open spec fn magnitude(bits: u64) -> int {
    bits as int % (SIGN_BIT as int)
}

/// Whether the bits encode a NaN (all exponent bits set, mantissa not zero).
pub open spec fn is_nan_bits(bits: u64) -> bool {
    magnitude(bits) > INFINITY_BITS as int
}

/// The place of a double on the number line, as an integer: for any two
/// doubles that are not NaN, `a < b` exactly when `rank(a) < rank(b)`, and
/// `a == b` (so also `-0.0 == 0.0`) exactly when the ranks are equal.
pub open spec fn rating_rank(bits: u64) -> int {
    if bits >= SIGN_BIT {
        -magnitude(bits)
    } else {
        magnitude(bits)
    }
}

/// Computes `rating_rank`.
pub fn rating_rank_of(bits: u64) -> (r: i64)
    ensures
        r as int == rating_rank(bits),
{
    if bits >= SIGN_BIT {
        -((bits - SIGN_BIT) as i64)
    } else {
        bits as i64
    }
}

} // verus!
