//! A compiled model: its signatures and the buffers they read and write.

use super::native::{kLiteRtElementTypeFloat32, kLiteRtElementTypeInt32, Call, Handle, Side};
use crate::text::{int_list, integer, joined, list, push_int_list, push_usize, str_texts};
use std::sync::Arc;
use vstd::prelude::*;

verus! {

/// The number of elements of a shape. A negative dimension counts as none.
pub open spec fn dims_product(shape: Seq<i32>) -> nat
    decreases shape.len(),
{
    if shape.len() == 0 {
        1
    } else {
        dims_product(shape.drop_last()) * (if shape.last() < 0 {
            0
        } else {
            shape.last() as nat
        })
    }
}

/// The dimensions can be multiplied from left to right in a machine word.
pub open spec fn dims_fit(shape: Seq<i32>) -> bool {
    forall|k: int|
        0 <= k <= shape.len() ==> #[trigger] dims_product(shape.take(k)) <= usize::MAX
}

/// The number of elements of a shape.
pub fn numel_of(shape: &[i32]) -> (r: usize)
    requires
        dims_fit(shape@),
    ensures
        r == dims_product(shape@),
{
    let mut p: usize = 1;
    let mut i: usize = 0;
    while i < shape.len()
        invariant
            dims_fit(shape@),
            i <= shape.len(),
            p == dims_product(shape@.take(i as int)),
        decreases shape.len() - i,
    {
        let d: usize = if shape[i] < 0 {
            0
        } else {
            shape[i] as usize
        };
        proof {
            assert(shape@.take(i + 1).drop_last() =~= shape@.take(i as int));
            assert(shape@.take(i + 1).last() == shape@[i as int]);
            assert(dims_product(shape@.take(i + 1)) == p * d);
        }
        p = p * d;
        i = i + 1;
    }
    proof {
        assert(shape@.take(shape@.len() as int) =~= shape@);
    }
    p
}

/// Whether the dimensions can be multiplied in a machine word.
pub fn can_multiply(shape: &[i32]) -> (r: bool)
    ensures
        r == dims_fit(shape@),
{
    let mut p: usize = 1;
    let mut i: usize = 0;
    while i < shape.len()
        invariant
            i <= shape.len(),
            p == dims_product(shape@.take(i as int)),
            forall|k: int|
                0 <= k <= i ==> #[trigger] dims_product(shape@.take(k)) <= usize::MAX,
        decreases shape.len() - i,
    {
        let d: usize = if shape[i] < 0 {
            0
        } else {
            shape[i] as usize
        };
        proof {
            assert(shape@.take(i + 1).drop_last() =~= shape@.take(i as int));
            assert(shape@.take(i + 1).last() == shape@[i as int]);
            assert(dims_product(shape@.take(i + 1)) == p * d);
        }
        match p.checked_mul(d) {
            Some(next) => {
                p = next;
            },
            None => {
                return false;
            },
        }
        i = i + 1;
    }
    true
}

/// Bytes per element of a runtime element type. Types that no model here uses
/// count as four bytes too.
pub fn element_size(ty: i32) -> (r: usize)
    ensures
        r == 4,
{
    if ty == kLiteRtElementTypeFloat32 || ty == kLiteRtElementTypeInt32 {
        4
    } else {
        4
    }
}

/// One input or output of a signature, with the buffer it uses.
pub struct Slot {
    pub buffer: Handle,
    pub shape: Vec<i32>,
    pub element_type: i32,
}

/// What a [`Slot`] holds.
pub struct SlotSpec {
    pub buffer: Handle,
    pub shape: Seq<i32>,
    pub element_type: i32,
}

impl View for Slot {
    type V = SlotSpec;

    open spec fn view(&self) -> SlotSpec {
        SlotSpec { buffer: self.buffer, shape: self.shape@, element_type: self.element_type }
    }
}

impl SlotSpec {
    /// The size of the tensor in bytes.
    pub open spec fn byte_len(self) -> nat {
        dims_product(self.shape) * 4
    }

    /// The size can be computed in a machine word.
    pub open spec fn size_fits(self) -> bool {
        dims_fit(self.shape) && self.byte_len() <= usize::MAX
    }

    /// The slot with another buffer.
    pub open spec fn with_buffer(self, buffer: Handle) -> SlotSpec {
        SlotSpec { buffer, shape: self.shape, element_type: self.element_type }
    }
}

/// What a list of slots holds.
pub open spec fn slots(v: Seq<Slot>) -> Seq<SlotSpec> {
    Seq::new(v.len(), |i: int| v[i]@)
}

impl Slot {
    /// Whether the size can be computed in a machine word.
    pub fn size_fits(&self) -> (r: bool)
        ensures
            r == self@.size_fits(),
    {
        if !can_multiply(self.shape.as_slice()) {
            return false;
        }
        assert(self.shape@.take(self.shape@.len() as int) =~= self.shape@);
        let n: usize = numel_of(self.shape.as_slice());
        n <= usize::MAX / 4
    }

    /// The size of the tensor in bytes.
    pub fn byte_count(&self) -> (r: usize)
        requires
            self@.size_fits(),
        ensures
            r == self@.byte_len(),
    {
        numel_of(self.shape.as_slice()) * element_size(self.element_type)
    }
}

/// Whether two shapes are equal.
pub fn same_shape(a: &[i32], b: &[i32]) -> (r: bool)
    ensures
        r == (a@ == b@),
{
    if a.len() != b.len() {
        return false;
    }
    let mut i: usize = 0;
    while i < a.len()
        invariant
            i <= a.len(),
            a@.len() == b@.len(),
            forall|k: int| 0 <= k < i ==> #[trigger] a@[k] == b@[k],
        decreases a.len() - i,
    {
        if a[i] != b[i] {
            return false;
        }
        i = i + 1;
    }
    assert(a@ =~= b@);
    true
}

/// One entry point of a model, with its own inputs and outputs.
///
/// The decoder holds two that share their weights; the hand detection models
/// hold one each.
pub struct Signature {
    pub key: String,
    pub inputs: Vec<Slot>,
    pub outputs: Vec<Slot>,
}

/// What a [`Signature`] holds.
pub struct SignatureSpec {
    pub key: Seq<char>,
    pub inputs: Seq<SlotSpec>,
    pub outputs: Seq<SlotSpec>,
}

impl View for Signature {
    type V = SignatureSpec;

    open spec fn view(&self) -> SignatureSpec {
        SignatureSpec {
            key: self.key@,
            inputs: slots(self.inputs@),
            outputs: slots(self.outputs@),
        }
    }
}

/// What a list of signatures holds.
pub open spec fn signatures(v: Seq<Signature>) -> Seq<SignatureSpec> {
    Seq::new(v.len(), |i: int| v[i]@)
}

/// A compiled model.
pub struct CompiledModel {
    /// The model's bytes. The runtime does not copy them: the weights stay in
    /// this memory until the model is destroyed.
    pub bytes: Arc<Vec<u8>>,
    pub model: Handle,
    pub compiled: Handle,
    pub signatures: Vec<Signature>,
    /// Whether the model was compiled for the GPU.
    pub on_gpu: bool,
}

/// What a [`CompiledModel`] holds.
pub struct ModelSpec {
    pub bytes: Seq<u8>,
    pub model: Handle,
    pub compiled: Handle,
    pub signatures: Seq<SignatureSpec>,
    pub on_gpu: bool,
}

impl View for CompiledModel {
    type V = ModelSpec;

    open spec fn view(&self) -> ModelSpec {
        ModelSpec {
            bytes: self.bytes@,
            model: self.model,
            compiled: self.compiled,
            signatures: signatures(self.signatures@),
            on_gpu: self.on_gpu,
        }
    }
}

impl ModelSpec {
    /// Input `index` of signature `sig`.
    pub open spec fn input(self, sig: int, index: int) -> Option<SlotSpec> {
        if 0 <= sig < self.signatures.len() && 0 <= index < self.signatures[sig].inputs.len() {
            Some(self.signatures[sig].inputs[index])
        } else {
            None
        }
    }

    /// Output `index` of signature `sig`.
    pub open spec fn output(self, sig: int, index: int) -> Option<SlotSpec> {
        if 0 <= sig < self.signatures.len() && 0 <= index < self.signatures[sig].outputs.len() {
            Some(self.signatures[sig].outputs[index])
        } else {
            None
        }
    }

    /// The first signature with the given key, from signature `from` on.
    pub open spec fn key_from(self, key: Seq<char>, from: int) -> Option<usize>
        decreases self.signatures.len() - from,
    {
        if from >= self.signatures.len() {
            None
        } else if self.signatures[from].key == key {
            Some(from as usize)
        } else {
            self.key_from(key, from + 1)
        }
    }

    /// The signature that a key names: the first of that key, or the only one,
    /// whatever its key.
    pub open spec fn signature_named(self, key: Option<Seq<char>>) -> Option<usize> {
        if self.signatures.len() == 1 {
            Some(0)
        } else {
            match key {
                Some(k) => self.key_from(k, 0),
                None => None,
            }
        }
    }

    /// The keys of all signatures.
    pub open spec fn keys(self) -> Seq<Seq<char>> {
        Seq::new(self.signatures.len(), |i: int| self.signatures[i].key)
    }

    /// The model with another buffer for an input that it has.
    pub open spec fn with_input(self, sig: int, index: int, buffer: Handle) -> ModelSpec {
        let s = self.signatures[sig];
        let t = SignatureSpec {
            inputs: s.inputs.update(index, s.inputs[index].with_buffer(buffer)),
            ..s
        };
        ModelSpec { signatures: self.signatures.update(sig, t), ..self }
    }

    /// The model with another buffer for an output that it has.
    pub open spec fn with_output(self, sig: int, index: int, buffer: Handle) -> ModelSpec {
        let s = self.signatures[sig];
        let t = SignatureSpec {
            outputs: s.outputs.update(index, s.outputs[index].with_buffer(buffer)),
            ..s
        };
        ModelSpec { signatures: self.signatures.update(sig, t), ..self }
    }

    /// The model with the buffers of an output and an input exchanged.
    pub open spec fn exchanged(self, from: int, out_idx: int, to: int, in_idx: int) -> ModelSpec {
        let o = self.signatures[from].outputs[out_idx].buffer;
        let i = self.signatures[to].inputs[in_idx].buffer;
        self.with_output(from, out_idx, i).with_input(to, in_idx, o)
    }

    /// An output of a signature may take the place of one of its inputs: both
    /// exist, with the same shape and element type.
    pub open spec fn io_match(self, sig: int, in_idx: int, out_idx: int) -> bool {
        match (self.input(sig, in_idx), self.output(sig, out_idx)) {
            (Some(i), Some(o)) => i.shape == o.shape && i.element_type == o.element_type,
            _ => false,
        }
    }

    /// An output of one signature may take the place of an input of another:
    /// both exist, with the same shape.
    pub open spec fn across_match(self, from: int, out_idx: int, to: int, in_idx: int) -> bool {
        if from == to {
            self.io_match(from, in_idx, out_idx)
        } else {
            match (self.output(from, out_idx), self.input(to, in_idx)) {
                (Some(o), Some(i)) => o.shape == i.shape,
                _ => false,
            }
        }
    }
}

/// Input bytes as a buffer of `cap` bytes takes them: cut off where there are
/// too many, filled up with zeros where there are too few.
pub open spec fn fitted(data: Seq<u8>, cap: nat) -> Seq<u8> {
    Seq::new(
        cap,
        |i: int|
            if i < data.len() {
                data[i]
            } else {
                0u8
            },
    )
}

/// The bytes of `dst` with as many of the first `cap` of `src` over its start
/// as it has room for.
pub open spec fn overlaid(dst: Seq<u8>, src: Seq<u8>, cap: nat) -> Seq<u8> {
    Seq::new(
        dst.len(),
        |i: int|
            if i < cap && i < src.len() {
                src[i]
            } else {
                dst[i]
            },
    )
}

/// The shapes of all slots, as a list of lists.
pub open spec fn shapes_text(slots: Seq<SlotSpec>) -> Seq<char> {
    list(Seq::new(slots.len(), |i: int| int_list(slots[i].shape)))
}

/// The element types of all slots, as a list.
pub open spec fn types_text(slots: Seq<SlotSpec>) -> Seq<char> {
    list(Seq::new(slots.len(), |i: int| integer(slots[i].element_type as int)))
}

fn push_shapes(out: &mut String, v: &Vec<Slot>)
    ensures
        final(out)@ == old(out)@ + shapes_text(slots(v@)),
{
    let ghost items = Seq::new(v@.len(), |i: int| int_list(v@[i]@.shape));
    out.append("[");
    let mut i: usize = 0;
    assert(out@ =~= old(out)@ + "["@ + joined(items.take(0)));
    while i < v.len()
        invariant
            i <= v.len(),
            items == Seq::new(v@.len(), |i: int| int_list(v@[i]@.shape)),
            out@ == old(out)@ + "["@ + joined(items.take(i as int)),
        decreases v.len() - i,
    {
        if i > 0 {
            out.append(", ");
        }
        push_int_list(out, v[i].shape.as_slice());
        proof {
            assert(items.take(i + 1).drop_last() =~= items.take(i as int));
            assert(items.take(i + 1).last() == items[i as int]);
            assert(out@ =~= old(out)@ + "["@ + joined(items.take(i + 1)));
        }
        i = i + 1;
    }
    out.append("]");
    assert(items.take(v@.len() as int) =~= items);
    assert(items =~= Seq::new(slots(v@).len(), |i: int| int_list(slots(v@)[i].shape)));
    assert(out@ =~= old(out)@ + shapes_text(slots(v@)));
}

fn push_types(out: &mut String, v: &Vec<Slot>)
    ensures
        final(out)@ == old(out)@ + types_text(slots(v@)),
{
    let mut types: Vec<i32> = Vec::new();
    let mut i: usize = 0;
    while i < v.len()
        invariant
            i <= v.len(),
            types@.len() == i,
            forall|k: int| 0 <= k < i ==> #[trigger] types@[k] == v@[k]@.element_type,
        decreases v.len() - i,
    {
        types.push(v[i].element_type);
        i = i + 1;
    }
    push_int_list(out, types.as_slice());
    assert(Seq::new(types@.len(), |i: int| integer(types@[i] as int)) =~= Seq::new(
        slots(v@).len(),
        |i: int| integer(slots(v@)[i].element_type as int),
    ));
}

/// Bytes on their way into a buffer.
pub struct BufferWrite {
    pub buffer: Handle,
    pub bytes: Vec<u8>,
}

/// Bytes to fetch from a buffer.
#[derive(Clone, Copy)]
pub struct BufferRead {
    pub buffer: Handle,
    pub len: usize,
}

impl CompiledModel {
    /// The index of the signature with the given key. A model with a single
    /// signature is not asked for its key: converters name it as they like.
    pub fn signature_index(&self, key: Option<&str>) -> (r: Option<usize>)
        ensures
            r == self@.signature_named(
                match key {
                    Some(k) => Some(k@),
                    None => None,
                },
            ),
    {
        if self.signatures.len() == 1 {
            return Some(0);
        }
        match key {
            None => None,
            Some(k) => {
                let wanted = String::from_str(k);
                let mut i: usize = 0;
                while i < self.signatures.len()
                    invariant
                        i <= self.signatures.len(),
                        wanted@ == k@,
                        self@.key_from(k@, 0) == self@.key_from(k@, i as int),
                        self@.signatures.len() != 1,
                        key matches Some(kk) && kk@ == k@,
                    decreases self.signatures.len() - i,
                {
                    if self.signatures[i].key == wanted {
                        assert(self@.signatures[i as int].key == k@);
                        return Some(i);
                    }
                    assert(self@.signatures[i as int].key != k@);
                    i = i + 1;
                }
                None
            },
        }
    }

    /// The keys of all signatures.
    pub fn signature_keys(&self) -> (r: Vec<&str>)
        ensures
            str_texts(r@) == self@.keys(),
    {
        let mut out: Vec<&str> = Vec::new();
        let mut i: usize = 0;
        while i < self.signatures.len()
            invariant
                i <= self.signatures.len(),
                out@.len() == i,
                forall|j: int|
                    0 <= j < i ==> (#[trigger] out@[j])@ == self@.signatures[j].key,
            decreases self.signatures.len() - i,
        {
            out.push(self.signatures[i].key.as_str());
            i = i + 1;
        }
        assert(str_texts(out@) =~= self@.keys());
        out
    }

    /// The shape of an input; empty where there is none.
    pub fn input_shape(&self, sig: usize, index: usize) -> (r: Vec<i32>)
        ensures
            r@ == (match self@.input(sig as int, index as int) {
                Some(s) => s.shape,
                None => seq![],
            }),
    {
        if sig < self.signatures.len() && index < self.signatures[sig].inputs.len() {
            self.signatures[sig].inputs[index].shape.clone()
        } else {
            Vec::new()
        }
    }

    /// The shape of an output; empty where there is none.
    pub fn output_shape(&self, sig: usize, index: usize) -> (r: Vec<i32>)
        ensures
            r@ == (match self@.output(sig as int, index as int) {
                Some(s) => s.shape,
                None => seq![],
            }),
    {
        if sig < self.signatures.len() && index < self.signatures[sig].outputs.len() {
            self.signatures[sig].outputs[index].shape.clone()
        } else {
            Vec::new()
        }
    }

    /// The number of outputs; none for a signature that does not exist.
    pub fn output_count(&self, sig: usize) -> (r: usize)
        ensures
            r == (if sig < self@.signatures.len() {
                self@.signatures[sig as int].outputs.len()
            } else {
                0
            }),
    {
        if sig < self.signatures.len() {
            self.signatures[sig].outputs.len()
        } else {
            0
        }
    }

    /// The size of an input in bytes; 0 where there is none.
    pub fn input_bytes(&self, sig: usize, index: usize) -> (r: usize)
        requires
            self@.input(sig as int, index as int) matches Some(s) ==> s.size_fits(),
        ensures
            r == (match self@.input(sig as int, index as int) {
                Some(s) => s.byte_len(),
                None => 0,
            }),
    {
        if sig < self.signatures.len() && index < self.signatures[sig].inputs.len() {
            self.signatures[sig].inputs[index].byte_count()
        } else {
            0
        }
    }

    /// The size of an output in bytes; 0 where there is none.
    pub fn output_bytes(&self, sig: usize, index: usize) -> (r: usize)
        requires
            self@.output(sig as int, index as int) matches Some(s) ==> s.size_fits(),
        ensures
            r == (match self@.output(sig as int, index as int) {
                Some(s) => s.byte_len(),
                None => 0,
            }),
    {
        if sig < self.signatures.len() && index < self.signatures[sig].outputs.len() {
            self.signatures[sig].outputs[index].byte_count()
        } else {
            0
        }
    }

    /// The element type of an output; that of floats where there is none.
    pub fn output_type(&self, sig: usize, index: usize) -> (r: i32)
        ensures
            r == (match self@.output(sig as int, index as int) {
                Some(s) => s.element_type,
                None => kLiteRtElementTypeFloat32,
            }),
    {
        if sig < self.signatures.len() && index < self.signatures[sig].outputs.len() {
            self.signatures[sig].outputs[index].element_type
        } else {
            kLiteRtElementTypeFloat32
        }
    }

    /// One line on a signature's inputs and outputs, in order, with shapes and
    /// element types.
    pub fn describe(&self, sig: usize) -> (r: String)
        ensures
            sig < self@.signatures.len() ==> r@ == ({
                let s = self@.signatures[sig as int];
                "key="@ + s.key + " in="@ + shapes_text(s.inputs) + "/"@ + types_text(s.inputs)
                    + " out="@ + shapes_text(s.outputs) + "/"@ + types_text(s.outputs)
            }),
            sig >= self@.signatures.len() ==> r@ == "签名 "@ + integer(sig as int) + " 不存在"@,
    {
        if sig >= self.signatures.len() {
            let mut out = String::from_str("签名 ");
            push_usize(&mut out, sig);
            out.append(" 不存在");
            return out;
        }
        let s = &self.signatures[sig];
        let mut out = String::from_str("key=");
        out.append(s.key.as_str());
        out.append(" in=");
        push_shapes(&mut out, &s.inputs);
        out.append("/");
        push_types(&mut out, &s.inputs);
        out.append(" out=");
        push_shapes(&mut out, &s.outputs);
        out.append("/");
        push_types(&mut out, &s.outputs);
        out
    }

    /// The bytes to write for an input, cut or filled up to its size, and the
    /// buffer they go to. None where there is no such input or it has no bytes.
    pub fn set_input_bytes(&self, sig: usize, index: usize, data: &[u8]) -> (r: Option<BufferWrite>)
        requires
            self@.input(sig as int, index as int) matches Some(s) ==> s.size_fits(),
        ensures
            match (self@.input(sig as int, index as int), r) {
                (Some(s), Some(w)) => s.byte_len() > 0 && w.buffer == s.buffer && w.bytes@
                    == fitted(data@, s.byte_len()),
                (Some(s), None) => s.byte_len() == 0,
                (None, w) => w is None,
            },
            r matches Some(w) ==> forall|i: int|
                0 <= i < w.bytes@.len() ==> #[trigger] w.bytes@[i] == (if i < data@.len() {
                    data@[i]
                } else {
                    0
                }),
    {
        let cap: usize = self.input_bytes(sig, index);
        if sig >= self.signatures.len() || index >= self.signatures[sig].inputs.len() {
            return None;
        }
        if cap == 0 {
            return None;
        }
        let mut bytes: Vec<u8> = Vec::new();
        let mut i: usize = 0;
        while i < cap
            invariant
                i <= cap,
                bytes@ == fitted(data@, cap as nat).take(i as int),
            decreases cap - i,
        {
            if i < data.len() {
                bytes.push(data[i]);
            } else {
                bytes.push(0);
            }
            assert(bytes@ =~= fitted(data@, cap as nat).take(i + 1));
            i = i + 1;
        }
        assert(bytes@ =~= fitted(data@, cap as nat));
        Some(BufferWrite { buffer: self.signatures[sig].inputs[index].buffer, bytes })
    }

    /// The buffer of an output and the number of bytes in it. None where there
    /// is no such output or it has no bytes.
    pub fn get_output_bytes(&self, sig: usize, index: usize) -> (r: Option<BufferRead>)
        requires
            self@.output(sig as int, index as int) matches Some(s) ==> s.size_fits(),
        ensures
            match (self@.output(sig as int, index as int), r) {
                (Some(s), Some(b)) => s.byte_len() > 0 && b.buffer == s.buffer && b.len
                    == s.byte_len(),
                (Some(s), None) => s.byte_len() == 0,
                (None, b) => b is None,
            },
    {
        let cap: usize = self.output_bytes(sig, index);
        if sig >= self.signatures.len() || index >= self.signatures[sig].outputs.len() {
            return None;
        }
        if cap == 0 {
            return None;
        }
        Some(BufferRead { buffer: self.signatures[sig].outputs[index].buffer, len: cap })
    }

    /// The call that runs a signature on its buffers.
    pub fn invoke(&self, sig: usize) -> (r: Result<Call, String>)
        ensures
            match r {
                Ok(call) => sig < self@.signatures.len() && call == (Call::Invoke {
                    compiled: self@.compiled,
                    sig,
                }),
                Err(e) => sig >= self@.signatures.len() && e@ == "签名下标越界: "@ + integer(
                    sig as int,
                ),
            },
    {
        if sig >= self.signatures.len() {
            let mut e = String::from_str("签名下标越界: ");
            push_usize(&mut e, sig);
            return Err(e);
        }
        Ok(Call::Invoke { compiled: self.compiled, sig })
    }

    /// The buffers of all inputs of a signature.
    pub fn input_buffers(&self, sig: usize) -> (r: Vec<Handle>)
        requires
            sig < self@.signatures.len(),
        ensures
            r@ == slot_buffers(self@.signatures[sig as int].inputs),
    {
        let mut out: Vec<Handle> = Vec::new();
        push_buffers(&mut out, &self.signatures[sig].inputs);
        assert(out@ =~= slot_buffers(self@.signatures[sig as int].inputs));
        out
    }

    /// The buffer of an output.
    pub fn output_buffer(&self, sig: usize, idx: usize) -> (r: Option<Handle>)
        ensures
            r == (match self@.output(sig as int, idx as int) {
                Some(s) => Some(s.buffer),
                None => None,
            }),
    {
        if sig < self.signatures.len() && idx < self.signatures[sig].outputs.len() {
            Some(self.signatures[sig].outputs[idx].buffer)
        } else {
            None
        }
    }

    /// The buffer of an input.
    pub fn input_buffer(&self, sig: usize, idx: usize) -> (r: Option<Handle>)
        ensures
            r == (match self@.input(sig as int, idx as int) {
                Some(s) => Some(s.buffer),
                None => None,
            }),
    {
        if sig < self.signatures.len() && idx < self.signatures[sig].inputs.len() {
            Some(self.signatures[sig].inputs[idx].buffer)
        } else {
            None
        }
    }

    /// The shape and element type of an input.
    pub fn input_spec(&self, sig: usize, idx: usize) -> (r: Option<(&[i32], i32)>)
        ensures
            match (self@.input(sig as int, idx as int), r) {
                (Some(s), Some(p)) => p.0@ == s.shape && p.1 == s.element_type,
                (None, None) => true,
                _ => false,
            },
    {
        if sig < self.signatures.len() && idx < self.signatures[sig].inputs.len() {
            let s = &self.signatures[sig].inputs[idx];
            Some((s.shape.as_slice(), s.element_type))
        } else {
            None
        }
    }

    /// The shape and element type of an output.
    pub fn output_spec(&self, sig: usize, idx: usize) -> (r: Option<(&[i32], i32)>)
        ensures
            match (self@.output(sig as int, idx as int), r) {
                (Some(s), Some(p)) => p.0@ == s.shape && p.1 == s.element_type,
                (None, None) => true,
                _ => false,
            },
    {
        if sig < self.signatures.len() && idx < self.signatures[sig].outputs.len() {
            let s = &self.signatures[sig].outputs[idx];
            Some((s.shape.as_slice(), s.element_type))
        } else {
            None
        }
    }

    fn put_input(&mut self, sig: usize, index: usize, buffer: Handle)
        requires
            old(self)@.input(sig as int, index as int) is Some,
        ensures
            final(self)@ == old(self)@.with_input(sig as int, index as int, buffer),
    {
        let ghost before = self@;
        self.signatures[sig].inputs[index].buffer = buffer;
        proof {
            let after = before.with_input(sig as int, index as int, buffer);
            assert(self@.signatures[sig as int].inputs =~= after.signatures[sig as int].inputs);
            assert(self@.signatures[sig as int].outputs =~= after.signatures[sig as int].outputs);
            assert(self@.signatures =~= after.signatures);
        }
    }

    fn put_output(&mut self, sig: usize, index: usize, buffer: Handle)
        requires
            old(self)@.output(sig as int, index as int) is Some,
        ensures
            final(self)@ == old(self)@.with_output(sig as int, index as int, buffer),
    {
        let ghost before = self@;
        self.signatures[sig].outputs[index].buffer = buffer;
        proof {
            let after = before.with_output(sig as int, index as int, buffer);
            assert(self@.signatures[sig as int].inputs =~= after.signatures[sig as int].inputs);
            assert(self@.signatures[sig as int].outputs =~= after.signatures[sig as int].outputs);
            assert(self@.signatures =~= after.signatures);
        }
    }

    /// Exchanges the buffers of an input and an output of one signature, so
    /// that what the last run wrote is what the next run reads. Nothing happens
    /// unless their shapes and element types agree.
    pub fn swap_io_buffers(&mut self, sig: usize, in_idx: usize, out_idx: usize) -> (r: bool)
        ensures
            r == old(self)@.io_match(sig as int, in_idx as int, out_idx as int),
            r <==> {
                &&& sig < old(self).signatures@.len()
                &&& in_idx < old(self).signatures@[sig as int].inputs@.len()
                &&& out_idx < old(self).signatures@[sig as int].outputs@.len()
                &&& old(self).signatures@[sig as int].inputs@[in_idx as int].shape@ == old(
                    self,
                ).signatures@[sig as int].outputs@[out_idx as int].shape@
                &&& old(self).signatures@[sig as int].inputs@[in_idx as int].element_type == old(
                    self,
                ).signatures@[sig as int].outputs@[out_idx as int].element_type
            },
            final(self)@ == (if r {
                old(self)@.exchanged(sig as int, out_idx as int, sig as int, in_idx as int)
            } else {
                old(self)@
            }),
    {
        if sig >= self.signatures.len() {
            return false;
        }
        if in_idx >= self.signatures[sig].inputs.len() || out_idx
            >= self.signatures[sig].outputs.len() {
            return false;
        }
        if !same_shape(
            self.signatures[sig].inputs[in_idx].shape.as_slice(),
            self.signatures[sig].outputs[out_idx].shape.as_slice(),
        ) || self.signatures[sig].inputs[in_idx].element_type
            != self.signatures[sig].outputs[out_idx].element_type {
            return false;
        }
        let i: Handle = self.signatures[sig].inputs[in_idx].buffer;
        let o: Handle = self.signatures[sig].outputs[out_idx].buffer;
        self.put_output(sig, out_idx, i);
        self.put_input(sig, in_idx, o);
        true
    }

    /// Exchanges the buffers of an output of one signature and an input of
    /// another, so that what the first wrote is what the second reads. Nothing
    /// happens unless their shapes agree.
    pub fn swap_across(
        &mut self,
        from_sig: usize,
        out_idx: usize,
        to_sig: usize,
        in_idx: usize,
    ) -> (r: bool)
        ensures
            r == old(self)@.across_match(
                from_sig as int,
                out_idx as int,
                to_sig as int,
                in_idx as int,
            ),
            r <==> {
                &&& from_sig < old(self).signatures@.len()
                &&& to_sig < old(self).signatures@.len()
                &&& out_idx < old(self).signatures@[from_sig as int].outputs@.len()
                &&& in_idx < old(self).signatures@[to_sig as int].inputs@.len()
                &&& old(self).signatures@[from_sig as int].outputs@[out_idx as int].shape@ == old(
                    self,
                ).signatures@[to_sig as int].inputs@[in_idx as int].shape@
                &&& from_sig == to_sig ==> old(self).signatures@[from_sig as int].outputs@[out_idx as int].element_type
                    == old(self).signatures@[to_sig as int].inputs@[in_idx as int].element_type
            },
            final(self)@ == (if r {
                old(self)@.exchanged(
                    from_sig as int,
                    out_idx as int,
                    to_sig as int,
                    in_idx as int,
                )
            } else {
                old(self)@
            }),
    {
        if from_sig == to_sig {
            return self.swap_io_buffers(from_sig, in_idx, out_idx);
        }
        if from_sig >= self.signatures.len() || to_sig >= self.signatures.len() {
            return false;
        }
        if out_idx >= self.signatures[from_sig].outputs.len() || in_idx
            >= self.signatures[to_sig].inputs.len() {
            return false;
        }
        if !same_shape(
            self.signatures[from_sig].outputs[out_idx].shape.as_slice(),
            self.signatures[to_sig].inputs[in_idx].shape.as_slice(),
        ) {
            return false;
        }
        let o: Handle = self.signatures[from_sig].outputs[out_idx].buffer;
        let i: Handle = self.signatures[to_sig].inputs[in_idx].buffer;
        self.put_output(from_sig, out_idx, i);
        self.put_input(to_sig, in_idx, o);
        true
    }

    /// Takes the buffer of an output and leaves another in its place. Shape and
    /// element type are the caller's concern.
    pub fn take_output_buffer(&mut self, sig: usize, idx: usize, replacement: Handle) -> (r: Option<
        Handle,
    >)
        ensures
            r == (match old(self)@.output(sig as int, idx as int) {
                Some(s) => Some(s.buffer),
                None => None,
            }),
            final(self)@ == (if r is Some {
                old(self)@.with_output(sig as int, idx as int, replacement)
            } else {
                old(self)@
            }),
    {
        let taken = self.output_buffer(sig, idx);
        if taken.is_some() {
            self.put_output(sig, idx, replacement);
        }
        taken
    }

    /// Takes the buffer of an input and leaves another in its place.
    pub fn take_input_buffer(&mut self, sig: usize, idx: usize, replacement: Handle) -> (r: Option<
        Handle,
    >)
        ensures
            r == (match old(self)@.input(sig as int, idx as int) {
                Some(s) => Some(s.buffer),
                None => None,
            }),
            final(self)@ == (if r is Some {
                old(self)@.with_input(sig as int, idx as int, replacement)
            } else {
                old(self)@
            }),
    {
        let taken = self.input_buffer(sig, idx);
        if taken.is_some() {
            self.put_input(sig, idx, replacement);
        }
        taken
    }
}

/// Copies the first `cap` bytes of a buffer over the start of `dst`, as far as
/// it reaches.
pub fn copy_output(dst: &mut Vec<u8>, src: &[u8], cap: usize)
    ensures
        final(dst)@ == overlaid(old(dst)@, src@, cap as nat),
        final(dst)@.len() == old(dst)@.len(),
        forall|i: int|
            0 <= i < old(dst)@.len() ==> #[trigger] final(dst)@[i] == (if i < cap && i
                < src@.len() {
                src@[i]
            } else {
                old(dst)@[i]
            }),
{
    let ghost before = dst@;
    let mut i: usize = 0;
    while i < dst.len() && i < cap && i < src.len()
        invariant
            before == old(dst)@,
            dst@.len() == before.len(),
            i <= dst.len(),
            i <= cap,
            i <= src.len(),
            forall|k: int| 0 <= k < i ==> #[trigger] dst@[k] == src@[k],
            forall|k: int| i <= k < before.len() ==> #[trigger] dst@[k] == before[k],
        decreases dst.len() - i,
    {
        dst[i] = src[i];
        i = i + 1;
    }
    assert(dst@ =~= overlaid(before, src@, cap as nat));
}

/// The buffers of a list of slots.
pub open spec fn slot_buffers(v: Seq<SlotSpec>) -> Seq<Handle> {
    Seq::new(v.len(), |i: int| v[i].buffer)
}

/// The buffers of a signature, inputs first.
pub open spec fn signature_buffers(s: SignatureSpec) -> Seq<Handle> {
    slot_buffers(s.inputs) + slot_buffers(s.outputs)
}

/// The buffers of all signatures.
pub open spec fn all_buffers(v: Seq<SignatureSpec>) -> Seq<Handle>
    decreases v.len(),
{
    if v.len() == 0 {
        seq![]
    } else {
        all_buffers(v.drop_last()) + signature_buffers(v.last())
    }
}

impl ModelSpec {
    /// The calls that give back to the runtime everything the model holds:
    /// every buffer, then the compiled model, then the model.
    pub open spec fn release_calls(self) -> Seq<Call> {
        all_buffers(self.signatures).map_values(
            |b: Handle| Call::DestroyBuffer { buffer: b },
        ).push(Call::DestroyCompiled { compiled: self.compiled }).push(
            Call::DestroyModel { model: self.model },
        )
    }
}

fn push_buffers(out: &mut Vec<Handle>, v: &Vec<Slot>)
    ensures
        final(out)@ == old(out)@ + slot_buffers(slots(v@)),
{
    let mut i: usize = 0;
    assert(out@ =~= old(out)@ + slot_buffers(slots(v@)).take(0));
    while i < v.len()
        invariant
            i <= v.len(),
            out@ == old(out)@ + slot_buffers(slots(v@)).take(i as int),
        decreases v.len() - i,
    {
        out.push(v[i].buffer);
        assert(out@ =~= old(out)@ + slot_buffers(slots(v@)).take(i + 1));
        i = i + 1;
    }
    assert(slot_buffers(slots(v@)).take(v@.len() as int) =~= slot_buffers(slots(v@)));
}

/// The buffers of all signatures.
pub fn collect_buffers(v: &Vec<Signature>) -> (r: Vec<Handle>)
    ensures
        r@ == all_buffers(signatures(v@)),
{
    let mut out: Vec<Handle> = Vec::new();
    let mut i: usize = 0;
    assert(out@ =~= all_buffers(signatures(v@).take(0)));
    while i < v.len()
        invariant
            i <= v.len(),
            out@ == all_buffers(signatures(v@).take(i as int)),
        decreases v.len() - i,
    {
        push_buffers(&mut out, &v[i].inputs);
        push_buffers(&mut out, &v[i].outputs);
        proof {
            let next = signatures(v@).take(i + 1);
            assert(next.drop_last() =~= signatures(v@).take(i as int));
            assert(next.last() == v@[i as int]@);
            assert(out@ =~= all_buffers(next));
        }
        i = i + 1;
    }
    assert(signatures(v@).take(v@.len() as int) =~= signatures(v@));
    out
}

impl CompiledModel {
    /// The calls that give back to the runtime everything the model holds. The
    /// environment is shared by all models and stays.
    pub fn release(&self) -> (r: Vec<Call>)
        ensures
            r@ == self@.release_calls(),
    {
        let buffers = collect_buffers(&self.signatures);
        let mut out: Vec<Call> = Vec::new();
        let mut i: usize = 0;
        while i < buffers.len()
            invariant
                i <= buffers.len(),
                out@.len() == i,
                forall|k: int|
                    0 <= k < i ==> #[trigger] out@[k] == (Call::DestroyBuffer {
                        buffer: buffers@[k],
                    }),
            decreases buffers.len() - i,
        {
            out.push(Call::DestroyBuffer { buffer: buffers[i] });
            i = i + 1;
        }
        out.push(Call::DestroyCompiled { compiled: self.compiled });
        out.push(Call::DestroyModel { model: self.model });
        assert(out@ =~= self@.release_calls());
        out
    }
}

/// A key names the first signature that has it, and none where no signature
/// does. A model with one signature answers to every key.
pub proof fn key_names_first_signature(m: ModelSpec, key: Seq<char>, from: int)
    requires
        0 <= from <= m.signatures.len() <= usize::MAX,
    ensures
        match m.key_from(key, from) {
            Some(i) => {
                &&& from <= i < m.signatures.len()
                &&& m.signatures[i as int].key == key
                &&& forall|j: int| from <= j < i ==> (#[trigger] m.signatures[j]).key != key
            },
            None => forall|j: int|
                from <= j < m.signatures.len() ==> (#[trigger] m.signatures[j]).key != key,
        },
    decreases m.signatures.len() - from,
{
    if from < m.signatures.len() && m.signatures[from].key != key {
        key_names_first_signature(m, key, from + 1);
    }
}

proof fn lemma_update_signature(v: Seq<SignatureSpec>, k: int, s: SignatureSpec, h: Handle)
    requires
        0 <= k < v.len(),
    ensures
        all_buffers(v.update(k, s)).to_multiset().count(h) + signature_buffers(
            v[k],
        ).to_multiset().count(h) == all_buffers(v).to_multiset().count(h) + signature_buffers(
            s,
        ).to_multiset().count(h),
    decreases v.len(),
{
    broadcast use vstd::seq_lib::lemma_multiset_commutative;

    let w = v.update(k, s);
    if k == v.len() - 1 {
        assert(w.drop_last() =~= v.drop_last());
    } else {
        assert(w.drop_last() =~= v.drop_last().update(k, s));
        lemma_update_signature(v.drop_last(), k, s, h);
    }
}

proof fn lemma_update_slot(v: Seq<SlotSpec>, i: int, buffer: Handle)
    requires
        0 <= i < v.len(),
    ensures
        slot_buffers(v.update(i, v[i].with_buffer(buffer))).to_multiset() == slot_buffers(
            v,
        ).to_multiset().insert(buffer).remove(v[i].buffer),
{
    assert(slot_buffers(v.update(i, v[i].with_buffer(buffer))) =~= slot_buffers(v).update(
        i,
        buffer,
    ));
    vstd::seq_lib::to_multiset_update(slot_buffers(v), i, buffer);
}

/// Where one buffer takes another's place, the model holds one more of the new
/// and one less of the old.
pub proof fn replacing_a_buffer(m: ModelSpec, side: Side, sig: int, index: int, buffer: Handle)
    requires
        side is Input ==> m.input(sig, index) is Some,
        side is Output ==> m.output(sig, index) is Some,
    ensures
        ({
            let (was, next) = if side is Input {
                (m.input(sig, index).unwrap().buffer, m.with_input(sig, index, buffer))
            } else {
                (m.output(sig, index).unwrap().buffer, m.with_output(sig, index, buffer))
            };
            &&& all_buffers(m.signatures).to_multiset().count(was) > 0
            &&& all_buffers(next.signatures).to_multiset() == all_buffers(
                m.signatures,
            ).to_multiset().insert(buffer).remove(was)
        }),
{
    broadcast use vstd::seq_lib::lemma_multiset_commutative;
    broadcast use vstd::seq_lib::to_multiset_contains;

    let s = m.signatures[sig];
    let (was, next) = if side is Input {
        (m.input(sig, index).unwrap().buffer, m.with_input(sig, index, buffer))
    } else {
        (m.output(sig, index).unwrap().buffer, m.with_output(sig, index, buffer))
    };
    let t = next.signatures[sig];
    let before = all_buffers(m.signatures).to_multiset();
    let after = all_buffers(next.signatures).to_multiset();
    if side is Input {
        lemma_update_slot(s.inputs, index, buffer);
        assert(slot_buffers(s.inputs)[index] == was);
        assert(slot_buffers(s.inputs).contains(was));
    } else {
        lemma_update_slot(s.outputs, index, buffer);
        assert(slot_buffers(s.outputs)[index] == was);
        assert(slot_buffers(s.outputs).contains(was));
    }
    lemma_signature_within(m.signatures, sig, was);
    assert forall|h: Handle| #[trigger] after.count(h) == before.insert(buffer).remove(was).count(
        h,
    ) by {
        lemma_update_signature(m.signatures, sig, t, h);
    }
    assert(after =~= before.insert(buffer).remove(was));
}

pub proof fn lemma_signature_within(v: Seq<SignatureSpec>, k: int, h: Handle)
    requires
        0 <= k < v.len(),
    ensures
        all_buffers(v).to_multiset().count(h) >= signature_buffers(v[k]).to_multiset().count(h),
    decreases v.len(),
{
    broadcast use vstd::seq_lib::lemma_multiset_commutative;

    if k < v.len() - 1 {
        assert(v.drop_last()[k] == v[k]);
        lemma_signature_within(v.drop_last(), k, h);
    }
}

/// Exchanging two buffers neither loses nor doubles any.
pub proof fn exchange_keeps_buffers(m: ModelSpec, from: int, out_idx: int, to: int, in_idx: int)
    requires
        m.output(from, out_idx) is Some,
        m.input(to, in_idx) is Some,
    ensures
        all_buffers(m.exchanged(from, out_idx, to, in_idx).signatures).to_multiset()
            == all_buffers(m.signatures).to_multiset(),
{
    let o = m.output(from, out_idx).unwrap().buffer;
    let i = m.input(to, in_idx).unwrap().buffer;
    replacing_a_buffer(m, Side::Output, from, out_idx, i);
    let mid = m.with_output(from, out_idx, i);
    replacing_a_buffer(mid, Side::Input, to, in_idx, o);
    assert(all_buffers(m.exchanged(from, out_idx, to, in_idx).signatures).to_multiset()
        =~= all_buffers(m.signatures).to_multiset());
}

/// Exchanging the same two buffers twice leaves the model as it was, so a trial
/// exchange can be undone.
pub proof fn exchange_undoes_itself(m: ModelSpec, from: int, out_idx: int, to: int, in_idx: int)
    requires
        m.output(from, out_idx) is Some,
        m.input(to, in_idx) is Some,
    ensures
        m.exchanged(from, out_idx, to, in_idx).exchanged(from, out_idx, to, in_idx) == m,
        m.exchanged(from, out_idx, to, in_idx).across_match(from, out_idx, to, in_idx)
            == m.across_match(from, out_idx, to, in_idx),
{
    let twice = m.exchanged(from, out_idx, to, in_idx).exchanged(from, out_idx, to, in_idx);
    assert(twice.signatures[from].outputs =~= m.signatures[from].outputs);
    assert(twice.signatures[from].inputs =~= m.signatures[from].inputs);
    assert(twice.signatures[to].outputs =~= m.signatures[to].outputs);
    assert(twice.signatures[to].inputs =~= m.signatures[to].inputs);
    assert(twice.signatures =~= m.signatures);
}

/// A dimension more multiplies the number of elements by its size, a negative one
/// by 0, and a scalar has one element.
pub proof fn dimensions_multiply(shape: Seq<i32>, d: i32)
    ensures
        dims_product(Seq::empty()) == 1,
        d >= 0 ==> dims_product(shape.push(d)) == dims_product(shape) * (d as nat),
        d < 0 ==> dims_product(shape.push(d)) == 0,
{
    assert(shape.push(d).drop_last() =~= shape);
}

/// A slot has four bytes for each element. Its size can be computed where neither
/// the number of bytes nor that of the elements of its first dimensions, however
/// many of them, is more than a machine word holds.
pub proof fn elements_have_four_bytes(s: SlotSpec)
    ensures
        s.byte_len() == 4 * dims_product(s.shape),
        s.size_fits() <==> 4 * dims_product(s.shape) <= usize::MAX && forall|k: int|
            0 <= k <= s.shape.len() ==> #[trigger] dims_product(s.shape.take(k)) <= usize::MAX,
{
}

/// What a model is said to hold is what it holds: every signature with its key,
/// every input and output of it with its buffer, shape and element type, each in
/// its place.
pub proof fn models_are_seen_whole(m: CompiledModel, sig: int, i: int)
    ensures
        m@.bytes == m.bytes@,
        m@.model == m.model,
        m@.compiled == m.compiled,
        m@.on_gpu == m.on_gpu,
        m@.signatures.len() == m.signatures@.len(),
        0 <= sig < m.signatures@.len() ==> {
            let s = m.signatures@[sig];
            let t = m@.signatures[sig];
            &&& t.key == s.key@
            &&& t.inputs.len() == s.inputs@.len()
            &&& t.outputs.len() == s.outputs@.len()
            &&& 0 <= i < s.inputs@.len() ==> t.inputs[i].buffer == s.inputs@[i].buffer
                && t.inputs[i].shape == s.inputs@[i].shape@ && t.inputs[i].element_type
                == s.inputs@[i].element_type
            &&& 0 <= i < s.outputs@.len() ==> t.outputs[i].buffer == s.outputs@[i].buffer
                && t.outputs[i].shape == s.outputs@[i].shape@ && t.outputs[i].element_type
                == s.outputs@[i].element_type
        },
{
}

/// A model has an input or an output where it has the signature and the signature
/// has so many, and it is the one in that place.
pub proof fn slots_are_found_by_place(m: ModelSpec, sig: int, index: int)
    ensures
        m.input(sig, index) is Some <==> 0 <= sig < m.signatures.len() && 0 <= index
            < m.signatures[sig].inputs.len(),
        m.output(sig, index) is Some <==> 0 <= sig < m.signatures.len() && 0 <= index
            < m.signatures[sig].outputs.len(),
        m.input(sig, index) matches Some(s) ==> s == m.signatures[sig].inputs[index],
        m.output(sig, index) matches Some(s) ==> s == m.signatures[sig].outputs[index],
{
}

/// The bytes written for an input go to its buffer and are as many as the input
/// has. Byte `i` of them is byte `i` of the caller's, for every `i` that both
/// have; where the caller's run out, all that is left is 0. Nothing is written
/// only where the input has no bytes or is not there.
pub proof fn callers_bytes_arrive(
    m: CompiledModel,
    sig: usize,
    index: usize,
    data: &[u8],
    r: Option<BufferWrite>,
    i: int,
)
    requires
        call_ensures(CompiledModel::set_input_bytes, (&m, sig, index, data), r),
    ensures
        r is Some <==> sig < m.signatures@.len() && index
            < m.signatures@[sig as int].inputs@.len() && dims_product(
            m.signatures@[sig as int].inputs@[index as int].shape@,
        ) > 0,
        r matches Some(w) ==> {
            let slot = m.signatures@[sig as int].inputs@[index as int];
            &&& w.buffer == slot.buffer
            &&& w.bytes@.len() == 4 * dims_product(slot.shape@)
            &&& 0 <= i < w.bytes@.len() && i < data@.len() ==> w.bytes@[i] == data@[i]
            &&& data@.len() <= i < w.bytes@.len() ==> w.bytes@[i] == 0
        },
{
    models_are_seen_whole(m, sig as int, index as int);
}

/// What a buffer takes of the caller's bytes is as long as the buffer: the
/// caller's bytes as far as both reach, and 0 from where they run out.
pub proof fn bytes_are_cut_or_filled_up(data: Seq<u8>, cap: nat, i: int)
    ensures
        fitted(data, cap).len() == cap,
        data.len() == cap ==> fitted(data, cap) == data,
        0 <= i < cap && i < data.len() ==> fitted(data, cap)[i] == data[i],
        data.len() <= i < cap ==> fitted(data, cap)[i] == 0,
{
    if data.len() == cap {
        assert(fitted(data, cap) =~= data);
    }
}

/// What is fetched for an output is its buffer, and all of its bytes. Nothing is
/// fetched only where the output has no bytes or is not there.
pub proof fn outputs_are_fetched_whole(
    m: CompiledModel,
    sig: usize,
    index: usize,
    r: Option<BufferRead>,
)
    requires
        call_ensures(CompiledModel::get_output_bytes, (&m, sig, index), r),
    ensures
        r is Some <==> sig < m.signatures@.len() && index
            < m.signatures@[sig as int].outputs@.len() && dims_product(
            m.signatures@[sig as int].outputs@[index as int].shape@,
        ) > 0,
        r matches Some(b) ==> {
            let slot = m.signatures@[sig as int].outputs@[index as int];
            b.buffer == slot.buffer && b.len == 4 * dims_product(slot.shape@)
        },
{
    models_are_seen_whole(m, sig as int, index as int);
}

/// Bytes laid over others replace them byte by byte as far as there are any, and
/// leave the rest; as many as there were, they replace all.
pub proof fn bytes_are_laid_over(dst: Seq<u8>, src: Seq<u8>, cap: nat, i: int)
    ensures
        overlaid(dst, src, cap).len() == dst.len(),
        dst.len() == src.len() == cap ==> overlaid(dst, src, cap) == src,
        0 <= i < dst.len() && i < cap && i < src.len() ==> overlaid(dst, src, cap)[i] == src[i],
        0 <= i < dst.len() && (i >= cap || i >= src.len()) ==> overlaid(dst, src, cap)[i] == dst[i],
{
    if dst.len() == src.len() && src.len() == cap {
        assert(overlaid(dst, src, cap) =~= src);
    }
}

/// A key finds the first signature that has it, and none where no signature does.
/// A model with one signature answers to every key and to none.
pub proof fn keys_find_their_signature(m: CompiledModel, key: Option<&str>, r: Option<usize>)
    requires
        call_ensures(CompiledModel::signature_index, (&m, key), r),
    ensures
        m.signatures@.len() == 1 ==> r == Some(0usize),
        m.signatures@.len() != 1 ==> match (key, r) {
            (None, i) => i is None,
            (Some(k), Some(i)) => {
                &&& i < m.signatures@.len()
                &&& m.signatures@[i as int].key@ == k@
                &&& forall|j: int|
                    0 <= j < i ==> (#[trigger] m.signatures@[j]).key@ != k@
            },
            (Some(k), None) => forall|j: int|
                0 <= j < m.signatures@.len() ==> (#[trigger] m.signatures@[j]).key@ != k@,
        },
{
    assert(m.signatures.len() == m.signatures@.len());
    if let Some(k) = key {
        key_names_first_signature(m@, k@, 0);
        assert forall|j: int| 0 <= j < m.signatures@.len() implies (#[trigger] m.signatures@[j]).key@
            == m@.signatures[j].key by {}
    }
}

/// A model's keys are those of its signatures, in order.
pub proof fn keys_come_in_order(m: ModelSpec, i: int)
    ensures
        m.keys().len() == m.signatures.len(),
        0 <= i < m.signatures.len() ==> m.keys()[i] == m.signatures[i].key,
{
}

/// Where a buffer is put in the place of another, that slot has it and keeps its
/// shape and element type; every other slot stays as it was.
pub proof fn one_buffer_is_replaced(m: ModelSpec, sig: int, index: int, buffer: Handle, t: int, k: int)
    requires
        0 <= t < m.signatures.len(),
    ensures
        ({
            let n = m.with_input(sig, index, buffer);
            let (a, b) = (m.signatures[t], n.signatures[t]);
            m.input(sig, index) is Some ==> {
                &&& n.bytes == m.bytes && n.model == m.model && n.compiled == m.compiled
                    && n.on_gpu == m.on_gpu && n.signatures.len() == m.signatures.len()
                &&& b.key == a.key && b.outputs == a.outputs && b.inputs.len() == a.inputs.len()
                &&& 0 <= k < a.inputs.len() ==> b.inputs[k].shape == a.inputs[k].shape
                    && b.inputs[k].element_type == a.inputs[k].element_type && b.inputs[k].buffer
                    == (if t == sig && k == index {
                    buffer
                } else {
                    a.inputs[k].buffer
                })
            }
        }),
        ({
            let n = m.with_output(sig, index, buffer);
            let (a, b) = (m.signatures[t], n.signatures[t]);
            m.output(sig, index) is Some ==> {
                &&& n.bytes == m.bytes && n.model == m.model && n.compiled == m.compiled
                    && n.on_gpu == m.on_gpu && n.signatures.len() == m.signatures.len()
                &&& b.key == a.key && b.inputs == a.inputs && b.outputs.len() == a.outputs.len()
                &&& 0 <= k < a.outputs.len() ==> b.outputs[k].shape == a.outputs[k].shape
                    && b.outputs[k].element_type == a.outputs[k].element_type
                    && b.outputs[k].buffer == (if t == sig && k == index {
                    buffer
                } else {
                    a.outputs[k].buffer
                })
            }
        }),
{
}

/// After an exchange the input has the output's buffer and the output the
/// input's. Every other slot keeps its own, and no slot changes its shape or
/// element type.
pub proof fn an_exchange_crosses_two_buffers(
    m: ModelSpec,
    from: int,
    out_idx: int,
    to: int,
    in_idx: int,
    t: int,
    k: int,
)
    requires
        m.output(from, out_idx) is Some,
        m.input(to, in_idx) is Some,
        0 <= t < m.signatures.len(),
    ensures
        ({
            let n = m.exchanged(from, out_idx, to, in_idx);
            let (a, b) = (m.signatures[t], n.signatures[t]);
            &&& n.bytes == m.bytes && n.model == m.model && n.compiled == m.compiled && n.on_gpu
                == m.on_gpu && n.signatures.len() == m.signatures.len()
            &&& b.key == a.key && b.inputs.len() == a.inputs.len() && b.outputs.len()
                == a.outputs.len()
            &&& 0 <= k < a.inputs.len() ==> b.inputs[k].shape == a.inputs[k].shape
                && b.inputs[k].element_type == a.inputs[k].element_type && b.inputs[k].buffer == (
            if t == to && k == in_idx {
                m.signatures[from].outputs[out_idx].buffer
            } else {
                a.inputs[k].buffer
            })
            &&& 0 <= k < a.outputs.len() ==> b.outputs[k].shape == a.outputs[k].shape
                && b.outputs[k].element_type == a.outputs[k].element_type && b.outputs[k].buffer
                == (if t == from && k == out_idx {
                m.signatures[to].inputs[in_idx].buffer
            } else {
                a.outputs[k].buffer
            })
        }),
{
}

/// An output and an input of one signature agree wherever both are there with
/// equal shapes, of whatever rank, and equal element types. Across two signatures
/// of one model equal shapes are enough.
pub proof fn slots_agree_by_shape_and_type(
    m: ModelSpec,
    from: int,
    out_idx: int,
    to: int,
    in_idx: int,
)
    ensures
        m.io_match(from, in_idx, out_idx) <==> {
            &&& 0 <= from < m.signatures.len()
            &&& 0 <= in_idx < m.signatures[from].inputs.len()
            &&& 0 <= out_idx < m.signatures[from].outputs.len()
            &&& m.signatures[from].inputs[in_idx].shape == m.signatures[from].outputs[out_idx].shape
            &&& m.signatures[from].inputs[in_idx].element_type
                == m.signatures[from].outputs[out_idx].element_type
        },
        m.across_match(from, out_idx, to, in_idx) <==> {
            &&& 0 <= from < m.signatures.len()
            &&& 0 <= to < m.signatures.len()
            &&& 0 <= out_idx < m.signatures[from].outputs.len()
            &&& 0 <= in_idx < m.signatures[to].inputs.len()
            &&& m.signatures[from].outputs[out_idx].shape == m.signatures[to].inputs[in_idx].shape
            &&& from == to ==> m.signatures[from].outputs[out_idx].element_type
                == m.signatures[to].inputs[in_idx].element_type
        },
{
}

/// A model's buffers are those of its signatures, one signature after another,
/// and of each signature first the inputs' and then the outputs', in order.
pub proof fn buffers_come_in_order(v: Seq<SignatureSpec>, s: SignatureSpec, k: int)
    ensures
        all_buffers(Seq::empty()) == Seq::<Handle>::empty(),
        all_buffers(v.push(s)).len() == all_buffers(v).len() + s.inputs.len() + s.outputs.len(),
        0 <= k < all_buffers(v).len() ==> all_buffers(v.push(s))[k] == all_buffers(v)[k],
        0 <= k < s.inputs.len() ==> all_buffers(v.push(s))[all_buffers(v).len() + k]
            == s.inputs[k].buffer,
        0 <= k < s.outputs.len() ==> all_buffers(v.push(s))[all_buffers(v).len() + s.inputs.len()
            + k] == s.outputs[k].buffer,
        slot_buffers(s.inputs).len() == s.inputs.len(),
        0 <= k < s.inputs.len() ==> slot_buffers(s.inputs)[k] == s.inputs[k].buffer,
{
    assert(v.push(s).drop_last() =~= v);
}

/// A model is given back buffer by buffer, then the compiled model, then the
/// model, and nothing else.
pub proof fn release_gives_back_each(m: ModelSpec, k: int)
    ensures
        ({
            let n = all_buffers(m.signatures).len() as int;
            &&& m.release_calls().len() == n + 2
            &&& 0 <= k < n ==> m.release_calls()[k] == (Call::DestroyBuffer {
                buffer: all_buffers(m.signatures)[k],
            })
            &&& m.release_calls()[n] == (Call::DestroyCompiled { compiled: m.compiled })
            &&& m.release_calls()[n + 1] == (Call::DestroyModel { model: m.model })
        }),
{
}

/// The shapes of the slots are listed slot by slot, and so are their element
/// types.
pub proof fn slots_are_described_in_order(
    slots: Seq<SlotSpec>,
    shapes: Seq<Seq<char>>,
    types: Seq<Seq<char>>,
)
    requires
        shapes.len() == slots.len(),
        types.len() == slots.len(),
        forall|k: int| 0 <= k < slots.len() ==> #[trigger] shapes[k] == int_list(slots[k].shape),
        forall|k: int|
            0 <= k < slots.len() ==> #[trigger] types[k] == integer(slots[k].element_type as int),
    ensures
        shapes_text(slots) == list(shapes),
        types_text(slots) == list(types),
{
    assert(Seq::new(slots.len(), |i: int| int_list(slots[i].shape)) =~= shapes);
    assert(Seq::new(slots.len(), |i: int| integer(slots[i].element_type as int)) =~= types);
}

} // verus!
