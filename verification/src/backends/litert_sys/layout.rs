//! Tensor layouts as the LiteRT runtime lays them out in memory.

use vstd::prelude::*;

verus! {

/// The dimensions of a tensor, at most eight of them.
///
/// `packed` is one storage unit for two bit fields: the low seven bits are the
/// rank, the eighth says whether `strides` is in use.
#[derive(Debug, Clone, Copy, PartialEq, Eq)]
pub struct LiteRtLayout {
    pub packed: u32,
    pub dimensions: [i32; 8],
    pub strides: [u32; 8],
}

/// Dimension `i`, or 0 past the last.
pub open spec fn dimension_at(dims: Seq<i32>, i: int) -> i32 {
    if i < dims.len() {
        dims[i]
    } else {
        0
    }
}

/// At most eight.
pub open spec fn at_most_eight(n: int) -> int {
    if n < 8 {
        n
    } else {
        8
    }
}

/// The layout without strides of the first eight dimensions.
pub open spec fn compact_layout(dims: Seq<i32>) -> LiteRtLayout {
    LiteRtLayout {
        packed: at_most_eight(dims.len() as int) as u32,
        dimensions: [
            dimension_at(dims, 0),
            dimension_at(dims, 1),
            dimension_at(dims, 2),
            dimension_at(dims, 3),
            dimension_at(dims, 4),
            dimension_at(dims, 5),
            dimension_at(dims, 6),
            dimension_at(dims, 7),
        ],
        strides: [0, 0, 0, 0, 0, 0, 0, 0],
    }
}

impl LiteRtLayout {
    /// The rank field.
    pub open spec fn rank_field(self) -> int {
        (self.packed % 128) as int
    }

    /// The dimensions in use.
    pub open spec fn shape(self) -> Seq<i32> {
        self.dimensions@.take(at_most_eight(self.rank_field()))
    }

    /// The number of dimensions that the layout states.
    pub fn rank(&self) -> (r: usize)
        ensures
            r == self.rank_field(),
    {
        let p: u32 = self.packed;
        assert(p & 0x7f == p % 128) by (bit_vector);
        (self.packed & 0x7f) as usize
    }

    /// The dimensions in use.
    pub fn dims(&self) -> (r: Vec<i32>)
        ensures
            r@ == self.shape(),
    {
        let rank: usize = self.rank();
        let n: usize = if rank < 8 {
            rank
        } else {
            8
        };
        let mut out: Vec<i32> = Vec::new();
        let mut i: usize = 0;
        while i < n
            invariant
                i <= n <= 8,
                out@ == self.dimensions@.take(i as int),
            decreases n - i,
        {
            out.push(self.dimensions[i]);
            assert(out@ =~= self.dimensions@.take(i + 1));
            i = i + 1;
        }
        out
    }

    /// The layout of a scalar.
    pub fn zeroed() -> (r: Self)
        ensures
            r == compact_layout(seq![]),
    {
        let r = LiteRtLayout { packed: 0, dimensions: [0; 8], strides: [0; 8] };
        assert(r.dimensions =~= compact_layout(seq![]).dimensions);
        assert(r.strides =~= compact_layout(seq![]).strides);
        r
    }

    /// The layout without strides of the first eight of the given dimensions.
    pub fn from_dims(dims: &[i32]) -> (r: Self)
        ensures
            r == compact_layout(dims@),
    {
        let mut dimensions: [i32; 8] = [0; 8];
        let rank: usize = if dims.len() < 8 {
            dims.len()
        } else {
            8
        };
        let mut i: usize = 0;
        while i < rank
            invariant
                i <= rank,
                rank == at_most_eight(dims@.len() as int),
                forall|k: int| 0 <= k < i ==> #[trigger] dimensions@[k] == dims@[k],
                forall|k: int| i <= k < 8 ==> #[trigger] dimensions@[k] == 0,
            decreases rank - i,
        {
            dimensions[i] = dims[i];
            i = i + 1;
        }
        let packed: u32 = rank as u32;
        assert(packed & 0x7f == packed % 128) by (bit_vector);
        let r = LiteRtLayout { packed: packed & 0x7f, dimensions, strides: [0; 8] };
        assert(r.dimensions =~= compact_layout(dims@).dimensions);
        assert(r.strides =~= compact_layout(dims@).strides);
        r
    }
}

/// Dimensions put in a layout come out again, the first eight of them.
pub proof fn layout_keeps_dimensions(dims: Seq<i32>)
    ensures
        compact_layout(dims).rank_field() == at_most_eight(dims.len() as int),
        compact_layout(dims).shape() == dims.take(at_most_eight(dims.len() as int)),
{
    let n = at_most_eight(dims.len() as int);
    assert(compact_layout(dims).dimensions@.take(n) =~= dims.take(n));
}

/// An element type with a layout.
#[derive(Debug, Clone, Copy, PartialEq, Eq)]
pub struct LiteRtRankedTensorType {
    pub element_type: i32,
    pub layout: LiteRtLayout,
}

/// A layout has as many dimensions as the low seven bits of its packed field say,
/// though no more than eight, and they are the first of those that it lists.
pub proof fn layouts_give_their_first_dimensions(l: LiteRtLayout, r: Vec<i32>, i: int)
    requires
        call_ensures(LiteRtLayout::dims, (&l,), r),
    ensures
        l.packed % 128 < 8 ==> r@.len() == l.packed % 128,
        l.packed % 128 >= 8 ==> r@.len() == 8,
        0 <= i < r@.len() ==> r@[i] == l.dimensions@[i],
        r@ == l.shape(),
{
}

/// A layout made of dimensions has their number as its rank, lists them in order
/// with zeros after them, and has no strides. Past the eighth, dimensions are left
/// out.
pub proof fn layouts_take_their_first_dimensions(dims: &[i32], l: LiteRtLayout, i: int)
    requires
        call_ensures(LiteRtLayout::from_dims, (dims,), l),
    ensures
        l == compact_layout(dims@),
        dims@.len() <= 8 ==> l.packed == dims@.len() && l.shape() == dims@,
        dims@.len() > 8 ==> l.packed == 8 && l.shape() == dims@.take(8),
        0 <= i < 8 && i < dims@.len() ==> l.dimensions@[i] == dims@[i],
        dims@.len() <= i < 8 ==> l.dimensions@[i] == 0,
        0 <= i < 8 ==> l.strides@[i] == 0,
{
    layout_keeps_dimensions(dims@);
    if dims@.len() <= 8 {
        assert(dims@.take(dims@.len() as int) =~= dims@);
    }
}

} // verus!
