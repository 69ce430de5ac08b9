//! Tensors, independent of any backend.
//!
//! An input is borrowed as a [`TensorView`], which copies nothing; an output is
//! an owned [`Tensor`].

use vstd::prelude::*;

verus! {

/// Element types. Recognition uses no others.
#[derive(Debug, Clone, Copy, PartialEq, Eq, Structural)]
pub enum DType {
    F32,
    I32,
    I64,
}

impl DType {
    /// Bytes per element.
    pub open spec fn width(self) -> nat {
        match self {
            DType::F32 | DType::I32 => 4,
            DType::I64 => 8,
        }
    }

    /// Bytes per element.
    pub fn size(self) -> (r: usize)
        ensures
            r == self.width(),
    {
        match self {
            DType::F32 | DType::I32 => 4,
            DType::I64 => 8,
        }
    }
}

/// The product of all dimensions; 1 for a scalar.
pub open spec fn product(shape: Seq<i64>) -> int
    decreases shape.len(),
{
    if shape.len() == 0 {
        1
    } else {
        product(shape.drop_last()) * shape.last()
    }
}

/// The dimensions can be multiplied from left to right in 64 bits.
pub open spec fn product_fits(shape: Seq<i64>) -> bool {
    forall|k: int|
        0 <= k <= shape.len() ==> i64::MIN <= #[trigger] product(shape.take(k)) <= i64::MAX
}

/// The number of elements of a shape. A negative product counts as none.
pub open spec fn element_count(shape: Seq<i64>) -> nat {
    if product(shape) < 0 {
        0
    } else {
        product(shape) as nat
    }
}

/// The number of elements of a shape.
pub fn count_elements(shape: &[i64]) -> (r: usize)
    requires
        product_fits(shape@),
    ensures
        r == element_count(shape@) as usize,
{
    let mut p: i64 = 1;
    let mut i: usize = 0;
    while i < shape.len()
        invariant
            product_fits(shape@),
            i <= shape.len(),
            p == product(shape@.take(i as int)),
        decreases shape.len() - i,
    {
        proof {
            assert(shape@.take(i + 1).drop_last() =~= shape@.take(i as int));
            assert(shape@.take(i + 1).last() == shape@[i as int]);
            assert(product(shape@.take(i + 1)) == p * shape@[i as int]);
        }
        p = p * shape[i];
        i = i + 1;
    }
    proof {
        assert(shape@.take(shape@.len() as int) =~= shape@);
    }
    if p < 0 {
        0
    } else {
        #[verifier::truncate]
        (p as usize)
    }
}

/// Byte `j` of a 32-bit word, counted from the least significant.
pub open spec fn word_byte(w: u32, j: int) -> u8 {
    if j == 0 {
        (w % 256) as u8
    } else if j == 1 {
        (w / 256 % 256) as u8
    } else if j == 2 {
        (w / 65536 % 256) as u8
    } else {
        (w / 16777216) as u8
    }
}

/// Which byte of a word comes first in memory.
#[derive(Debug, Clone, Copy, PartialEq, Eq, Structural)]
pub enum ByteOrder {
    /// The least significant.
    Little,
    /// The most significant.
    Big,
}

impl ByteOrder {
    /// The significance of the byte at place `j` of a word.
    pub open spec fn rank(self, j: int) -> int {
        match self {
            ByteOrder::Little => j,
            ByteOrder::Big => 3 - j,
        }
    }

    /// The order of a machine on which the word 1 has these bytes.
    pub fn of_one(one: [u8; 4]) -> (r: ByteOrder)
        ensures
            r == (if one@[0] == 1 {
                ByteOrder::Little
            } else {
                ByteOrder::Big
            }),
    {
        if one[0] == 1 {
            ByteOrder::Little
        } else {
            ByteOrder::Big
        }
    }

    /// The order of this machine.
    fn native() -> (r: ByteOrder)
        ensures
            r == native_order(),
    {
        let one = native_word(1);
        proof {
            assert(one@[0] == words_bytes(native_order(), seq![1u32])[0]);
        }
        ByteOrder::of_one(one)
    }
}

/// The order in which this machine keeps the bytes of a word. It is one of the
/// two and always the same; which of them is left open, so that what is proved
/// holds on every machine.
pub closed spec fn native_order() -> ByteOrder {
    choose|order: ByteOrder| 0 <= #[trigger] order.rank(0) < 4
}

/// Calls std's `u32::to_ne_bytes`, which gives a word as this machine has it in
/// memory. What is claimed is that the bytes of all words come in one and the same
/// order; whether that is the one or the other is the machine's affair.
#[verifier::external_body]
fn native_word(w: u32) -> (r: [u8; 4])
    ensures
        r@ == words_bytes(ByteOrder::Little, seq![w]) || r@ == words_bytes(
            ByteOrder::Big,
            seq![w],
        ),
        r@ == words_bytes(native_order(), seq![w]),
{
    w.to_ne_bytes()
}

/// 32-bit words laid out in memory.
pub open spec fn words_bytes(order: ByteOrder, words: Seq<u32>) -> Seq<u8> {
    Seq::new(4 * words.len(), |k: int| word_byte(words[k / 4], order.rank(k % 4)))
}

/// Word `k` of a byte string.
pub open spec fn word_at(order: ByteOrder, bytes: Seq<u8>, k: int) -> u32 {
    (bytes[4 * k + order.rank(0)] + 256 * bytes[4 * k + order.rank(1)] + 65536 * bytes[4 * k
        + order.rank(2)] + 16777216 * bytes[4 * k + order.rank(3)]) as u32
}

/// The whole words of a byte string; what is left over at the end is dropped.
pub open spec fn bytes_words(order: ByteOrder, bytes: Seq<u8>) -> Seq<u32> {
    Seq::new(bytes.len() / 4, |k: int| word_at(order, bytes, k))
}

/// The bit pattern of each signed word.
pub open spec fn int_words(ints: Seq<i32>) -> Seq<u32> {
    Seq::new(ints.len(), |k: int| ints[k] as u32)
}

proof fn lemma_word_sum(w: u32)
    ensures
        w == word_byte(w, 0) + 256 * word_byte(w, 1) + 65536 * word_byte(w, 2) + 16777216
            * word_byte(w, 3),
{
}

proof fn lemma_bytes_of_word(order: ByteOrder, words: Seq<u32>, k: int)
    requires
        0 <= k < words.len(),
    ensures
        ({
            let b = words_bytes(order, words);
            &&& b[4 * k] == word_byte(words[k], order.rank(0))
            &&& b[4 * k + 1] == word_byte(words[k], order.rank(1))
            &&& b[4 * k + 2] == word_byte(words[k], order.rank(2))
            &&& b[4 * k + 3] == word_byte(words[k], order.rank(3))
        }),
{
}

proof fn lemma_word_at(order: ByteOrder, words: Seq<u32>, k: int)
    requires
        0 <= k < words.len(),
    ensures
        word_at(order, words_bytes(order, words), k) == words[k],
{
    lemma_bytes_of_word(order, words, k);
    lemma_word_sum(words[k]);
}

/// Words written out as bytes read back as the same words, in either order.
pub proof fn words_survive_bytes(order: ByteOrder, words: Seq<u32>)
    ensures
        words_bytes(order, words).len() == 4 * words.len(),
        bytes_words(order, words_bytes(order, words)) == words,
{
    let read = bytes_words(order, words_bytes(order, words));
    assert forall|k: int| 0 <= k < words.len() implies #[trigger] read[k] == words[k] by {
        lemma_word_at(order, words, k);
    }
    assert(read =~= words);
}

fn push_word(out: &mut Vec<u8>, order: ByteOrder, w: u32)
    ensures
        final(out)@ == old(out)@ + Seq::new(4, |j: int| word_byte(w, order.rank(j))),
{
    let b0: u8 = (w % 256) as u8;
    let b1: u8 = (w / 256 % 256) as u8;
    let b2: u8 = (w / 65536 % 256) as u8;
    let b3: u8 = (w / 16777216) as u8;
    match order {
        ByteOrder::Little => {
            out.push(b0);
            out.push(b1);
            out.push(b2);
            out.push(b3);
        },
        ByteOrder::Big => {
            out.push(b3);
            out.push(b2);
            out.push(b1);
            out.push(b0);
        },
    }
    assert(out@ =~= old(out)@ + Seq::new(4, |j: int| word_byte(w, order.rank(j))));
}

/// The elements of a borrowed tensor: raw bytes, the bit patterns of 32-bit
/// floats, or 32-bit integers. None of them is copied. Words come with the order
/// in which their bytes lie in memory.
#[derive(Debug, Clone, Copy)]
pub enum TensorData<'a> {
    Bytes(&'a [u8]),
    FloatBits(&'a [u32], ByteOrder),
    Ints(&'a [i32], ByteOrder),
}

impl<'a> View for TensorData<'a> {
    type V = Seq<u8>;

    /// The bytes in memory.
    open spec fn view(&self) -> Seq<u8> {
        match *self {
            TensorData::Bytes(b) => b@,
            TensorData::FloatBits(w, order) => words_bytes(order, w@),
            TensorData::Ints(v, order) => words_bytes(order, int_words(v@)),
        }
    }
}

impl<'a> TensorData<'a> {
    /// The bytes in memory.
    pub fn to_bytes(&self) -> (r: Vec<u8>)
        ensures
            r@ == self@,
    {
        let mut out: Vec<u8> = Vec::new();
        match self {
            TensorData::Bytes(b) => {
                let mut i: usize = 0;
                while i < b.len()
                    invariant
                        i <= b.len(),
                        out@ == b@.take(i as int),
                    decreases b.len() - i,
                {
                    out.push(b[i]);
                    assert(out@ =~= b@.take(i + 1));
                    i = i + 1;
                }
                assert(b@.take(b@.len() as int) =~= b@);
            },
            TensorData::FloatBits(w, order) => {
                let mut i: usize = 0;
                assert(out@ =~= words_bytes(*order, w@.take(0)));
                while i < w.len()
                    invariant
                        i <= w.len(),
                        out@ == words_bytes(*order, w@.take(i as int)),
                    decreases w.len() - i,
                {
                    push_word(&mut out, *order, w[i]);
                    assert(out@ =~= words_bytes(*order, w@.take(i + 1)));
                    i = i + 1;
                }
                assert(w@.take(w@.len() as int) =~= w@);
            },
            TensorData::Ints(v, order) => {
                let mut i: usize = 0;
                assert(out@ =~= words_bytes(*order, int_words(v@.take(0))));
                while i < v.len()
                    invariant
                        i <= v.len(),
                        out@ == words_bytes(*order, int_words(v@.take(i as int))),
                    decreases v.len() - i,
                {
                    push_word(
                        &mut out,
                        *order,
                        #[verifier::truncate]
                        (v[i] as u32),
                    );
                    assert(out@ =~= words_bytes(*order, int_words(v@.take(i + 1))));
                    i = i + 1;
                }
                assert(v@.take(v@.len() as int) =~= v@);
            },
        }
        out
    }
}

/// A borrowed input tensor.
#[derive(Debug, Clone, Copy)]
pub struct TensorView<'a> {
    pub shape: &'a [i64],
    pub dtype: DType,
    /// The elements. Their bytes number the product of `shape` times
    /// `dtype.size()`.
    pub data: TensorData<'a>,
}

impl<'a> TensorView<'a> {
    /// The data is as long as shape and element type say.
    pub open spec fn well_formed(self) -> bool {
        self.data@.len() == element_count(self.shape@) * self.dtype.width()
    }

    /// A tensor of 32-bit floats, given by their bit patterns, as this machine
    /// has them in memory.
    pub fn f32_bits(shape: &'a [i64], data: &'a [u32]) -> (r: Self)
        ensures
            r.shape@ == shape@,
            r.dtype == DType::F32,
            r.data matches TensorData::FloatBits(words, order) && words@ == data@ && order
                == native_order(),
            r.data@ == words_bytes(native_order(), data@),
            r.well_formed() <==> data@.len() == element_count(shape@),
    {
        Self::f32_bits_in(ByteOrder::native(), shape, data)
    }

    /// A tensor of 32-bit floats, given by their bit patterns, as a machine of
    /// that order has them in memory.
    pub fn f32_bits_in(order: ByteOrder, shape: &'a [i64], data: &'a [u32]) -> (r: Self)
        ensures
            r.shape@ == shape@,
            r.dtype == DType::F32,
            r.data matches TensorData::FloatBits(words, o) && words@ == data@ && o == order,
            r.data@ == words_bytes(order, data@),
            r.well_formed() <==> data@.len() == element_count(shape@),
    {
        let r = TensorView { shape, dtype: DType::F32, data: TensorData::FloatBits(data, order) };
        assert(r.data@.len() == 4 * data@.len());
        assert(r.dtype.width() == 4);
        assert(element_count(shape@) * r.dtype.width() == element_count(shape@) * 4);
        r
    }

    /// A tensor of 32-bit integers, as this machine has them in memory.
    pub fn i32(shape: &'a [i64], data: &'a [i32]) -> (r: Self)
        ensures
            r.shape@ == shape@,
            r.dtype == DType::I32,
            r.data matches TensorData::Ints(ints, order) && ints@ == data@ && order
                == native_order(),
            r.data@ == words_bytes(native_order(), int_words(data@)),
            r.well_formed() <==> data@.len() == element_count(shape@),
    {
        Self::i32_in(ByteOrder::native(), shape, data)
    }

    /// A tensor of 32-bit integers, as a machine of that order has them in memory.
    pub fn i32_in(order: ByteOrder, shape: &'a [i64], data: &'a [i32]) -> (r: Self)
        ensures
            r.shape@ == shape@,
            r.dtype == DType::I32,
            r.data matches TensorData::Ints(ints, o) && ints@ == data@ && o == order,
            r.data@ == words_bytes(order, int_words(data@)),
            r.well_formed() <==> data@.len() == element_count(shape@),
    {
        let r = TensorView { shape, dtype: DType::I32, data: TensorData::Ints(data, order) };
        assert(r.data@.len() == 4 * data@.len());
        assert(r.dtype.width() == 4);
        assert(element_count(shape@) * r.dtype.width() == element_count(shape@) * 4);
        r
    }

    /// The number of elements.
    pub fn numel(&self) -> (r: usize)
        requires
            product_fits(self.shape@),
        ensures
            r == element_count(self.shape@) as usize,
    {
        count_elements(self.shape)
    }
}

/// An owned output tensor.
#[derive(Debug, Clone)]
pub struct Tensor {
    pub shape: Vec<i64>,
    pub dtype: DType,
    pub data: Vec<u8>,
}

/// What a [`Tensor`] holds.
pub struct TensorSpec {
    pub shape: Seq<i64>,
    pub dtype: DType,
    pub data: Seq<u8>,
}

impl TensorSpec {
    /// The data is as long as shape and element type say.
    pub open spec fn well_formed(self) -> bool {
        self.data.len() == element_count(self.shape) * self.dtype.width()
    }
}

impl Tensor {
    /// What the tensor holds.
    pub open spec fn contents(self) -> TensorSpec {
        TensorSpec { shape: self.shape@, dtype: self.dtype, data: self.data@ }
    }
}

/// What a list of tensors holds.
pub open spec fn tensors_of(v: Seq<Tensor>) -> Seq<TensorSpec> {
    Seq::new(v.len(), |i: int| v[i].contents())
}

/// A shape's elements can be counted, and a vector can hold that many of the
/// given width.
pub open spec fn allocatable(shape: Seq<i64>, dtype: DType) -> bool {
    &&& product_fits(shape)
    &&& element_count(shape) * dtype.width() <= isize::MAX
}

/// Whether a shape's elements can be counted and a vector can hold them.
pub fn can_allocate(shape: &[i64], dtype: DType) -> (r: bool)
    ensures
        r == allocatable(shape@, dtype),
{
    let mut p: i64 = 1;
    let mut i: usize = 0;
    while i < shape.len()
        invariant
            i <= shape.len(),
            p == product(shape@.take(i as int)),
            forall|k: int|
                0 <= k <= i ==> i64::MIN <= #[trigger] product(shape@.take(k)) <= i64::MAX,
        decreases shape.len() - i,
    {
        proof {
            assert(shape@.take(i + 1).drop_last() =~= shape@.take(i as int));
            assert(shape@.take(i + 1).last() == shape@[i as int]);
            assert(product(shape@.take(i + 1)) == p * shape@[i as int]);
        }
        match p.checked_mul(shape[i]) {
            Some(next) => {
                p = next;
            },
            None => {
                return false;
            },
        }
        i = i + 1;
    }
    proof {
        assert(shape@.take(shape@.len() as int) =~= shape@);
    }
    let n: i128 = if p < 0 {
        0
    } else {
        p as i128
    };
    let len: i128 = match dtype {
        DType::F32 | DType::I32 => n * 4,
        DType::I64 => n * 8,
    };
    len <= isize::MAX as i128
}

/// A tensor of zeros.
pub open spec fn zero_tensor(shape: Seq<i64>, dtype: DType) -> TensorSpec {
    TensorSpec {
        shape,
        dtype,
        data: Seq::new(element_count(shape) * dtype.width(), |i: int| 0u8),
    }
}

impl Tensor {
    /// A tensor of zeros.
    pub fn zeros(shape: Vec<i64>, dtype: DType) -> (r: Self)
        requires
            allocatable(shape@, dtype),
        ensures
            r.contents() == zero_tensor(shape@, dtype),
    {
        proof {
            let n = element_count(shape@);
            let w = dtype.width();
            assert(n <= n * w) by (nonlinear_arith)
                requires
                    w >= 1,
            ;
        }
        let n: usize = count_elements(shape.as_slice());
        let len: usize = n * dtype.size();
        let data = vec![0u8; len];
        assert(data@ =~= zero_tensor(shape@, dtype).data);
        Tensor { shape, dtype, data }
    }

    /// The number of elements.
    pub fn numel(&self) -> (r: usize)
        requires
            product_fits(self.contents().shape),
        ensures
            r == element_count(self.contents().shape) as usize,
    {
        count_elements(self.shape.as_slice())
    }

    /// The bit patterns of the elements as this machine reads them, or nothing
    /// where they are no 32-bit floats.
    pub fn as_f32_bits(&self) -> (r: Option<Vec<u32>>)
        ensures
            r is Some <==> self.contents().dtype == DType::F32,
            r matches Some(v) ==> exists|order: ByteOrder|
                v@ == #[trigger] bytes_words(order, self.contents().data),
            r matches Some(v) ==> v@ == bytes_words(native_order(), self.data@),
    {
        self.as_f32_bits_in(ByteOrder::native())
    }

    /// The bit patterns of the elements as a machine of that order reads them, or
    /// nothing where they are no 32-bit floats.
    pub fn as_f32_bits_in(&self, order: ByteOrder) -> (r: Option<Vec<u32>>)
        ensures
            r is Some <==> self.contents().dtype == DType::F32,
            r matches Some(v) ==> v@ == bytes_words(order, self.contents().data),
    {
        if self.dtype != DType::F32 {
            return None;
        }
        let mut out: Vec<u32> = Vec::new();
        let len: usize = self.data.len();
        let n: usize = len / 4;
        let mut k: usize = 0;
        while k < n
            invariant
                k <= n,
                len == self.data@.len(),
                n == len / 4,
                out@ == bytes_words(order, self.data@).take(k as int),
            decreases n - k,
        {
            let a: u32 = self.data[4 * k] as u32;
            let b: u32 = self.data[4 * k + 1] as u32;
            let c: u32 = self.data[4 * k + 2] as u32;
            let d: u32 = self.data[4 * k + 3] as u32;
            let w: u32 = match order {
                ByteOrder::Little => a + 256 * b + 65536 * c + 16777216 * d,
                ByteOrder::Big => d + 256 * c + 65536 * b + 16777216 * a,
            };
            assert(w == word_at(order, self.data@, k as int));
            out.push(w);
            assert(out@ =~= bytes_words(order, self.data@).take(k + 1));
            k = k + 1;
        }
        assert(out@ =~= bytes_words(order, self.data@));
        Some(out)
    }

    /// Borrows the tensor as an input.
    pub fn view(&self) -> (r: TensorView<'_>)
        ensures
            r.shape@ == self.contents().shape,
            r.dtype == self.contents().dtype,
            r.data@ == self.contents().data,
    {
        TensorView {
            shape: self.shape.as_slice(),
            dtype: self.dtype,
            data: TensorData::Bytes(self.data.as_slice()),
        }
    }
}

/// Floats written out on a machine read back there as the same floats: the bytes
/// of a borrowed tensor, put in an owned one, hold the same words, whatever the
/// shapes of the two and however many the words.
pub proof fn floats_read_back(
    shape: &[i64],
    words: &[u32],
    view: TensorView<'_>,
    tensor: Tensor,
    read: Option<Vec<u32>>,
)
    requires
        call_ensures(TensorView::f32_bits, (shape, words), view),
        tensor.dtype == DType::F32,
        tensor.data@ == view.data@,
        call_ensures(Tensor::as_f32_bits, (&tensor,), read),
    ensures
        read matches Some(v) && v@ == words@,
        view.data@.len() == 4 * words@.len(),
{
    words_survive_bytes(native_order(), words@);
}

/// A word lies in memory as this machine lays out every word: word `k` of a
/// borrowed tensor, of floats or of integers, has the bytes that std gives it.
proof fn words_lie_as_the_machine_has_them(
    shape: &[i64],
    words: &[u32],
    floats: TensorView<'_>,
    ints: &[i32],
    signed: TensorView<'_>,
    k: int,
    word: [u8; 4],
)
    requires
        call_ensures(TensorView::f32_bits, (shape, words), floats),
        call_ensures(TensorView::i32, (shape, ints), signed),
        0 <= k < words@.len(),
        0 <= k < ints@.len(),
        ints@[k] as u32 == words@[k],
        call_ensures(native_word, (words@[k],), word),
    ensures
        floats.data@.subrange(4 * k, 4 * k + 4) == word@,
        signed.data@.subrange(4 * k, 4 * k + 4) == word@,
{
    let one = words_bytes(native_order(), seq![words@[k]]);
    assert forall|j: int| 0 <= j < 4 implies #[trigger] one[j] == floats.data@[4 * k + j] && one[j]
        == signed.data@[4 * k + j] by {
        assert((4 * k + j) / 4 == k && (4 * k + j) % 4 == j);
    }
    assert(floats.data@.subrange(4 * k, 4 * k + 4) =~= word@);
    assert(signed.data@.subrange(4 * k, 4 * k + 4) =~= word@);
}

/// The four bytes of a word add up to it, each at its significance: least first
/// in one order, most first in the other. So it is for the words that are written
/// out and for those that are read.
pub proof fn bytes_add_up_to_their_word(words: Seq<u32>, bytes: Seq<u8>, k: int)
    ensures
        words_bytes(ByteOrder::Little, words).len() == 4 * words.len(),
        words_bytes(ByteOrder::Big, words).len() == 4 * words.len(),
        bytes_words(ByteOrder::Little, bytes).len() == bytes.len() / 4,
        bytes_words(ByteOrder::Big, bytes).len() == bytes.len() / 4,
        0 <= k < words.len() ==> ({
            let b = words_bytes(ByteOrder::Little, words);
            words[k] == b[4 * k] + 256 * b[4 * k + 1] + 65536 * b[4 * k + 2] + 16777216 * b[4 * k
                + 3]
        }),
        0 <= k < words.len() ==> ({
            let b = words_bytes(ByteOrder::Big, words);
            words[k] == 16777216 * b[4 * k] + 65536 * b[4 * k + 1] + 256 * b[4 * k + 2] + b[4 * k
                + 3]
        }),
        0 <= k < bytes.len() / 4 ==> bytes_words(ByteOrder::Little, bytes)[k] == bytes[4 * k] + 256
            * bytes[4 * k + 1] + 65536 * bytes[4 * k + 2] + 16777216 * bytes[4 * k + 3],
        0 <= k < bytes.len() / 4 ==> bytes_words(ByteOrder::Big, bytes)[k] == 16777216 * bytes[4
            * k] + 65536 * bytes[4 * k + 1] + 256 * bytes[4 * k + 2] + bytes[4 * k + 3],
{
    if 0 <= k < words.len() {
        lemma_bytes_of_word(ByteOrder::Little, words, k);
        lemma_bytes_of_word(ByteOrder::Big, words, k);
        lemma_word_sum(words[k]);
    }
    if 0 <= k < bytes.len() / 4 {
        assert(bytes_words(ByteOrder::Little, bytes)[k] == word_at(ByteOrder::Little, bytes, k));
        assert(bytes_words(ByteOrder::Big, bytes)[k] == word_at(ByteOrder::Big, bytes, k));
    }
}

/// What is borrowed is read as it was handed over: bytes one by one, floats and
/// integers word by word in the order that goes with them, a negative integer as
/// the word that is 2 to the 32 above it.
pub proof fn elements_lie_in_order(
    data: &[u8],
    words: &[u32],
    ints: &[i32],
    order: ByteOrder,
    bytes: Vec<u8>,
    k: int,
)
    ensures
        call_ensures(TensorData::to_bytes, (&TensorData::Bytes(data),), bytes) ==> bytes@ == data@,
        call_ensures(TensorData::to_bytes, (&TensorData::FloatBits(words, order),), bytes) ==> {
            &&& bytes@ == words_bytes(order, words@)
            &&& bytes_words(order, bytes@) == words@
        },
        call_ensures(TensorData::to_bytes, (&TensorData::Ints(ints, order),), bytes) ==> {
            &&& bytes@.len() == 4 * ints@.len()
            &&& 0 <= k < ints@.len() ==> bytes_words(order, bytes@)[k] == (if ints@[k] < 0 {
                ints@[k] + 0x1_0000_0000
            } else {
                ints@[k] as int
            })
        },
{
    words_survive_bytes(order, words@);
    words_survive_bytes(order, int_words(ints@));
    if 0 <= k < ints@.len() {
        let n = ints@[k];
        assert(n < 0 ==> n as u32 == n + 0x1_0000_0000) by (bit_vector);
        assert(int_words(ints@)[k] == n as u32);
    }
}

/// A dimension more multiplies the product by its size, and a scalar has one
/// element. Where the product is negative there is no element.
pub proof fn dimensions_multiply(shape: Seq<i64>, d: i64)
    ensures
        product(Seq::empty()) == 1,
        product(shape.push(d)) == product(shape) * d,
        product(shape) >= 0 ==> element_count(shape) == product(shape),
        product(shape) < 0 ==> element_count(shape) == 0,
{
    assert(shape.push(d).drop_last() =~= shape);
}

/// A shape of one dimension has as many elements as that dimension says, and two
/// shapes side by side as many as one times the other.
pub proof fn shapes_multiply(a: Seq<i64>, b: Seq<i64>, n: i64)
    ensures
        product(a + b) == product(a) * product(b),
        n >= 0 ==> element_count(seq![n]) == n,
    decreases b.len(),
{
    dimensions_multiply(Seq::empty(), n);
    assert(Seq::<i64>::empty().push(n) =~= seq![n]);
    if b.len() == 0 {
        assert(a + b =~= a);
    } else {
        let c = b.drop_last();
        shapes_multiply(a, c, n);
        assert((a + b).drop_last() =~= a + c);
        let (x, y, z) = (product(a), product(c), b.last() as int);
        assert((x * y) * z == x * (y * z)) by (nonlinear_arith);
    }
}

/// A shape can be counted and held where the product of its first dimensions,
/// however many of them, stays in 64 bits and the bytes of all elements number no
/// more than a vector can have.
pub proof fn shapes_that_can_be_held(shape: Seq<i64>)
    ensures
        product_fits(shape) <==> forall|k: int|
            0 <= k <= shape.len() ==> -0x8000_0000_0000_0000 <= #[trigger] product(shape.take(k))
                <= 0x7fff_ffff_ffff_ffff,
        product_fits(shape) ==> (allocatable(shape, DType::F32) <==> 4 * product(shape)
            <= isize::MAX),
        product_fits(shape) ==> (allocatable(shape, DType::I32) <==> 4 * product(shape)
            <= isize::MAX),
        product_fits(shape) ==> (allocatable(shape, DType::I64) <==> 8 * product(shape)
            <= isize::MAX),
{
}

/// Zeros have the shape and the type that were asked for, and every byte of them
/// is 0: four of them to an element, or eight where the elements have 64 bits.
pub proof fn zeros_are_zero(shape: Vec<i64>, dtype: DType, r: Tensor, i: int)
    requires
        call_ensures(Tensor::zeros, (shape, dtype), r),
    ensures
        r.shape@ == shape@,
        r.dtype == dtype,
        dtype == DType::F32 || dtype == DType::I32 ==> r.data@.len() == 4 * element_count(shape@),
        dtype == DType::I64 ==> r.data@.len() == 8 * element_count(shape@),
        0 <= i < r.data@.len() ==> r.data@[i] == 0,
{
    assert(r.contents().data == zero_tensor(shape@, dtype).data);
}

/// A tensor that is borrowed as an input has the shape, the type and the bytes of
/// the tensor.
pub proof fn borrowing_changes_nothing(tensor: Tensor, r: TensorView<'_>)
    requires
        call_ensures(Tensor::view, (&tensor,), r),
    ensures
        r.shape@ == tensor.shape@,
        r.dtype == tensor.dtype,
        r.data@ == tensor.data@,
{
}

/// Zeros are as long as shape and element type say.
pub proof fn zeros_are_well_formed(shape: Seq<i64>, dtype: DType)
    ensures
        zero_tensor(shape, dtype).well_formed(),
{
}

/// What a list of tensors is said to hold is what it holds, tensor by tensor.
pub proof fn tensors_are_seen_whole(v: Seq<Tensor>, i: int)
    ensures
        tensors_of(v).len() == v.len(),
        0 <= i < v.len() ==> tensors_of(v)[i].shape == v[i].shape@ && tensors_of(v)[i].dtype
            == v[i].dtype && tensors_of(v)[i].data == v[i].data@,
{
}

} // verus!
