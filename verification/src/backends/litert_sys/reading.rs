//! What reading a model's signatures ends with.
//!
//! What is read is what the runtime said: every key, type and name can be traced
//! to the reply that gave it. And reading ends, where the runtime answers.

use super::metadata::{
    reading_stays_well_formed, MetaNextSpec, MetaSpec, MetaStageSpec, ReadSpec, ReaderSpec,
};
use super::native::{Call, Event, Handle, ReplySpec, Side};
use super::order::order_of;
use crate::text::integer;
use vstd::prelude::*;

verus! {

/// The name that a reply gives an argument; empty where it gives none.
pub open spec fn name_in(r: ReplySpec) -> Seq<char> {
    match r.text {
        Some(t) if r.ok() => t,
        _ => seq![],
    }
}

/// Two events from the first on: the runtime gave the handle of signature `i`,
/// and its key.
pub open spec fn key_told(
    ev: Seq<Event>,
    model: Handle,
    i: int,
    signature: Handle,
    key: Seq<char>,
) -> bool {
    &&& ev[0].call == (Call::Signature { model, index: i as usize })
    &&& ev[0].reply.ok() && ev[0].reply.handle == signature
    &&& ev[1].call == (Call::SignatureKey { signature })
    &&& ev[1].reply.ok() && ev[1].reply.text == Some(key)
}

/// Event `t`: the runtime said how many inputs or outputs there are.
pub open spec fn count_told(
    ev: Seq<Event>,
    t: int,
    signature: Handle,
    side: Side,
    count: nat,
) -> bool {
    &&& ev[t].call == (Call::CountArguments { signature, side })
    &&& ev[t].reply.ok() && ev[t].reply.count == count
}

/// Two events for argument `k`, in the list that starts at event `at`: the
/// runtime gave the tensor behind it, and that tensor's type.
pub open spec fn type_told(
    ev: Seq<Event>,
    at: int,
    signature: Handle,
    side: Side,
    k: int,
    element_type: i32,
) -> bool {
    let t = at + 2 * k;
    &&& ev[t].call == (Call::Argument { signature, side, index: k as usize })
    &&& ev[t].reply.ok()
    &&& ev[t + 1].call == (Call::ArgumentType { tensor: ev[t].reply.handle })
    &&& ev[t + 1].reply.ok() && ev[t + 1].reply.element_type == element_type
}

/// The types of the first arguments were told.
pub open spec fn types_told(
    ev: Seq<Event>,
    at: int,
    signature: Handle,
    side: Side,
    types: Seq<i32>,
) -> bool {
    forall|k: int|
        0 <= k < types.len() ==> type_told(ev, at, signature, side, k, #[trigger] types[k])
}

/// One event for argument `k`, in the list that starts at event `at`: the
/// runtime was asked for its name.
pub open spec fn name_told(
    ev: Seq<Event>,
    at: int,
    signature: Handle,
    side: Side,
    k: int,
    name: Seq<char>,
) -> bool {
    &&& ev[at + k].call == (Call::ArgumentName { signature, side, index: k as usize })
    &&& name_in(ev[at + k].reply) == name
}

/// The names of the first arguments were told.
pub open spec fn names_told(
    ev: Seq<Event>,
    at: int,
    signature: Handle,
    side: Side,
    names: Seq<Seq<char>>,
) -> bool {
    forall|k: int|
        0 <= k < names.len() ==> name_told(ev, at, signature, side, k, #[trigger] names[k])
}

/// The names that a list of events gives, from event `at` on.
pub open spec fn names_in(ev: Seq<Event>, at: int, count: nat) -> Seq<Seq<char>> {
    Seq::new(count, |k: int| name_in(ev[at + k].reply))
}

/// The events are those of signature `i`, and they say of it what the
/// description says: its key, the types of its inputs and outputs, and the order
/// of both by their names.
pub open spec fn meta_told(ev: Seq<Event>, model: Handle, i: int, meta: MetaSpec) -> bool {
    let h = ev[0].reply.handle;
    let n_in = meta.input_types.len() as int;
    let n_out = meta.output_types.len() as int;
    let names = 4 + 2 * (n_in + n_out);
    let input_names = names_in(ev, names, n_in as nat);
    let output_names = names_in(ev, names + n_in, n_out as nat);
    &&& ev.len() == names + n_in + n_out
    &&& key_told(ev, model, i, h, meta.key)
    &&& count_told(ev, 2, h, Side::Input, n_in as nat)
    &&& count_told(ev, 3, h, Side::Output, n_out as nat)
    &&& types_told(ev, 4, h, Side::Input, meta.input_types)
    &&& types_told(ev, 4 + 2 * n_in, h, Side::Output, meta.output_types)
    &&& names_told(ev, names, h, Side::Input, input_names)
    &&& names_told(ev, names + n_in, h, Side::Output, output_names)
    &&& meta.input_order == order_of(input_names)
    &&& meta.output_order == order_of(output_names)
}

/// The events are those of reading a model with `total` signatures, as far as
/// the descriptions go: one for the number of signatures, and those of each
/// signature in turn.
pub open spec fn metas_told(
    ev: Seq<Event>,
    model: Handle,
    total: nat,
    metas: Seq<MetaSpec>,
) -> bool
    decreases metas.len(),
{
    if metas.len() == 0 {
        &&& ev.len() == 1
        &&& ev[0].call == (Call::CountSignatures { model })
        &&& ev[0].reply.ok() && ev[0].reply.count == total
    } else {
        exists|a: int|
            0 <= a <= ev.len() && metas_told(ev.take(a), model, total, metas.drop_last())
                && meta_told(#[trigger] ev.skip(a), model, metas.len() - 1, metas.last())
    }
}

/// The number of types read.
spec fn types_read(read: ReadSpec) -> int {
    read.input_types.len() as int + read.output_types.len()
}

/// The number of names read.
spec fn names_read(read: ReadSpec) -> int {
    read.input_names.len() as int + read.output_names.len()
}

/// What has been read of a signature was told, by the events of that signature.
spec fn read_told(ev: Seq<Event>, model: Handle, i: int, read: ReadSpec) -> bool {
    let h = read.signature;
    let names = 4 + 2 * (read.n_in + read.n_out);
    &&& read.well_formed()
    &&& read.output_types.len() > 0 ==> read.input_types.len() == read.n_in
    &&& names_read(read) > 0 ==> !read.lacks_type()
    &&& read.output_names.len() > 0 ==> read.input_names.len() == read.n_in
    &&& ev.len() >= 4 + 2 * types_read(read) + names_read(read)
    &&& key_told(ev, model, i, h, read.key)
    &&& count_told(ev, 2, h, Side::Input, read.n_in as nat)
    &&& count_told(ev, 3, h, Side::Output, read.n_out as nat)
    &&& types_told(ev, 4, h, Side::Input, read.input_types)
    &&& types_told(ev, 4 + 2 * read.n_in, h, Side::Output, read.output_types)
    &&& names_told(ev, names, h, Side::Input, read.input_names)
    &&& names_told(ev, names + read.n_in, h, Side::Output, read.output_names)
}

/// Where reading stands with a signature is where its events lead.
spec fn stage_told(ev: Seq<Event>, model: Handle, i: int, stage: MetaStageSpec) -> bool {
    match stage {
        MetaStageSpec::Count => false,
        MetaStageSpec::Signature => ev.len() == 0,
        MetaStageSpec::Key { signature } => {
            &&& ev.len() == 1
            &&& ev[0].call == (Call::Signature { model, index: i as usize })
            &&& ev[0].reply.ok() && ev[0].reply.handle == signature
        },
        MetaStageSpec::Inputs { signature, key } => ev.len() == 2 && key_told(
            ev,
            model,
            i,
            signature,
            key,
        ),
        MetaStageSpec::Outputs { signature, key, status, n_in } => {
            &&& ev.len() == 3
            &&& key_told(ev, model, i, signature, key)
            &&& ev[2].call == (Call::CountArguments { signature, side: Side::Input })
            &&& ev[2].reply.status == status && ev[2].reply.count == n_in
        },
        MetaStageSpec::Tensor { read } => read_told(ev, model, i, read) && names_read(read) == 0
            && ev.len() == 4 + 2 * types_read(read),
        MetaStageSpec::Type { read, tensor } => {
            &&& read_told(ev, model, i, read) && names_read(read) == 0
            &&& ev.len() == 5 + 2 * types_read(read)
            &&& ev.last().call == (Call::Argument {
                signature: read.signature,
                side: read.next_type().0,
                index: read.next_type().1,
            })
            &&& ev.last().reply.ok() && ev.last().reply.handle == tensor
        },
        MetaStageSpec::Name { read } => read_told(ev, model, i, read) && ev.len() == 4 + 2
            * types_read(read) + names_read(read),
    }
}

impl ReaderSpec {
    /// What has been read was told by the events, those from `a` on being about
    /// the signature that is read now.
    pub closed spec fn told(self, ev: Seq<Event>, a: int) -> bool {
        if self.stage is Count {
            ev.len() == 0 && self.done.len() == 0
        } else {
            &&& 0 <= a <= ev.len()
            &&& metas_told(ev.take(a), self.model, self.total as nat, self.done)
            &&& stage_told(ev.skip(a), self.model, self.done.len() as int, self.stage)
        }
    }
}

proof fn lemma_types_stay(
    ev: Seq<Event>,
    e: Event,
    at: int,
    signature: Handle,
    side: Side,
    types: Seq<i32>,
)
    requires
        types_told(ev, at, signature, side, types),
        0 <= at,
        at + 2 * types.len() <= ev.len(),
    ensures
        types_told(ev.push(e), at, signature, side, types),
{
    let more = ev.push(e);
    assert forall|k: int| 0 <= k < types.len() implies type_told(
        more,
        at,
        signature,
        side,
        k,
        #[trigger] types[k],
    ) by {
        assert(type_told(ev, at, signature, side, k, types[k]));
        assert(more[at + 2 * k] == ev[at + 2 * k]);
        assert(more[at + 2 * k + 1] == ev[at + 2 * k + 1]);
    }
}

proof fn lemma_names_stay(
    ev: Seq<Event>,
    e: Event,
    at: int,
    signature: Handle,
    side: Side,
    names: Seq<Seq<char>>,
)
    requires
        names_told(ev, at, signature, side, names),
        0 <= at,
        at + names.len() <= ev.len() || names.len() == 0,
    ensures
        names_told(ev.push(e), at, signature, side, names),
{
    let more = ev.push(e);
    assert forall|k: int| 0 <= k < names.len() implies name_told(
        more,
        at,
        signature,
        side,
        k,
        #[trigger] names[k],
    ) by {
        assert(name_told(ev, at, signature, side, k, names[k]));
        assert(more[at + k] == ev[at + k]);
    }
}

/// What was told stays told.
proof fn lemma_read_stays(ev: Seq<Event>, e: Event, model: Handle, i: int, read: ReadSpec)
    requires
        read_told(ev, model, i, read),
    ensures
        read_told(ev.push(e), model, i, read),
{
    let h = read.signature;
    let names = 4 + 2 * (read.n_in + read.n_out);
    let more = ev.push(e);
    assert(more[0] == ev[0] && more[1] == ev[1] && more[2] == ev[2] && more[3] == ev[3]);
    lemma_types_stay(ev, e, 4, h, Side::Input, read.input_types);
    if read.output_types.len() > 0 {
        lemma_types_stay(ev, e, 4 + 2 * read.n_in, h, Side::Output, read.output_types);
    }
    lemma_names_stay(ev, e, names, h, Side::Input, read.input_names);
    lemma_names_stay(ev, e, names + read.n_in, h, Side::Output, read.output_names);
}

proof fn lemma_type_read(ev: Seq<Event>, r: ReplySpec, model: Handle, i: int, read: ReadSpec)
    requires
        read_told(ev, model, i, read),
        read.lacks_type(),
        names_read(read) == 0,
        ev.len() == 5 + 2 * types_read(read),
        ev.last().call == (Call::Argument {
            signature: read.signature,
            side: read.next_type().0,
            index: read.next_type().1,
        }),
        ev.last().reply.ok(),
        r.ok(),
    ensures
        ({
            let e = Event {
                call: Call::ArgumentType { tensor: ev.last().reply.handle },
                reply: r,
            };
            read_told(ev.push(e), model, i, read.with_type(r.element_type))
        }),
{
    let e = Event { call: Call::ArgumentType { tensor: ev.last().reply.handle }, reply: r };
    let more = ev.push(e);
    let next = read.with_type(r.element_type);
    let h = read.signature;
    lemma_read_stays(ev, e, model, i, read);
    assert(more[ev.len() - 1] == ev.last());
    if read.next_type().0 is Input {
        let n = read.input_types.len() as int;
        assert(type_told(more, 4, h, Side::Input, n, r.element_type));
        assert forall|k: int| 0 <= k < next.input_types.len() implies type_told(
            more,
            4,
            h,
            Side::Input,
            k,
            #[trigger] next.input_types[k],
        ) by {
            if k < n {
                assert(type_told(more, 4, h, Side::Input, k, read.input_types[k]));
            }
        }
    } else {
        let n = read.output_types.len() as int;
        let at = 4 + 2 * read.n_in;
        assert(type_told(more, at, h, Side::Output, n, r.element_type));
        assert forall|k: int| 0 <= k < next.output_types.len() implies type_told(
            more,
            at,
            h,
            Side::Output,
            k,
            #[trigger] next.output_types[k],
        ) by {
            if k < n {
                assert(type_told(more, at, h, Side::Output, k, read.output_types[k]));
            }
        }
    }
}

proof fn lemma_name_read(ev: Seq<Event>, r: ReplySpec, model: Handle, i: int, read: ReadSpec)
    requires
        read_told(ev, model, i, read),
        !read.lacks_type(),
        read.lacks_name(),
        ev.len() == 4 + 2 * types_read(read) + names_read(read),
    ensures
        ({
            let e = Event {
                call: Call::ArgumentName {
                    signature: read.signature,
                    side: read.next_name().0,
                    index: read.next_name().1,
                },
                reply: r,
            };
            let name = if r.ok() {
                r.text
            } else {
                None
            };
            read_told(ev.push(e), model, i, read.with_name(name))
        }),
{
    let e = Event {
        call: Call::ArgumentName {
            signature: read.signature,
            side: read.next_name().0,
            index: read.next_name().1,
        },
        reply: r,
    };
    let name = if r.ok() {
        r.text
    } else {
        None
    };
    let more = ev.push(e);
    let next = read.with_name(name);
    let h = read.signature;
    let names = 4 + 2 * (read.n_in + read.n_out);
    lemma_read_stays(ev, e, model, i, read);
    if read.next_name().0 is Input {
        let n = read.input_names.len() as int;
        assert(more[names + n] == e);
        assert(name_told(more, names, h, Side::Input, n, name_in(r)));
        assert forall|k: int| 0 <= k < next.input_names.len() implies name_told(
            more,
            names,
            h,
            Side::Input,
            k,
            #[trigger] next.input_names[k],
        ) by {
            if k < n {
                assert(name_told(more, names, h, Side::Input, k, read.input_names[k]));
            }
        }
    } else {
        let n = read.output_names.len() as int;
        let at = names + read.n_in;
        assert(more[at + n] == e);
        assert(name_told(more, at, h, Side::Output, n, name_in(r)));
        assert forall|k: int| 0 <= k < next.output_names.len() implies name_told(
            more,
            at,
            h,
            Side::Output,
            k,
            #[trigger] next.output_names[k],
        ) by {
            if k < n {
                assert(name_told(more, at, h, Side::Output, k, read.output_names[k]));
            }
        }
    }
}

proof fn lemma_read_whole(ev: Seq<Event>, model: Handle, i: int, read: ReadSpec)
    requires
        read_told(ev, model, i, read),
        !read.lacks_type(),
        !read.lacks_name(),
        ev.len() == 4 + 2 * types_read(read) + names_read(read),
    ensures
        meta_told(ev, model, i, read.meta()),
{
    let h = read.signature;
    let names = 4 + 2 * (read.n_in + read.n_out);
    let ins = names_in(ev, names, read.n_in as nat);
    let outs = names_in(ev, names + read.n_in, read.n_out as nat);
    assert(ins =~= read.input_names) by {
        assert forall|k: int| 0 <= k < ins.len() implies ins[k] == read.input_names[k] by {
            assert(name_told(ev, names, h, Side::Input, k, read.input_names[k]));
        }
    }
    assert(outs =~= read.output_names) by {
        assert forall|k: int| 0 <= k < outs.len() implies outs[k] == read.output_names[k] by {
            assert(name_told(ev, names + read.n_in, h, Side::Output, k, read.output_names[k]));
        }
    }
}

/// What comes after more of a signature has been read was told.
spec fn next_told(next: MetaNextSpec, model: Handle, ev: Seq<Event>, a: int) -> bool {
    match next {
        MetaNextSpec::More(s) => s.model == model && s.told(ev, a),
        MetaNextSpec::Done(metas) => metas_told(ev, model, metas.len(), metas),
        MetaNextSpec::Failed(e) => true,
    }
}

proof fn lemma_go_on_told(ev: Seq<Event>, a: int, s: ReaderSpec, read: ReadSpec) -> (b: int)
    requires
        0 <= a <= ev.len(),
        s.stage !is Count,
        s.done.len() < s.total,
        metas_told(ev.take(a), s.model, s.total as nat, s.done),
        read_told(ev.skip(a), s.model, s.done.len() as int, read),
        ev.skip(a).len() == 4 + 2 * types_read(read) + names_read(read),
    ensures
        next_told(s.go_on(read), s.model, ev, b),
{
    if read.lacks_type() || read.lacks_name() {
        a
    } else {
        lemma_read_whole(ev.skip(a), s.model, s.done.len() as int, read);
        let done = s.done.push(read.meta());
        assert(done.drop_last() =~= s.done);
        assert(meta_told(ev.skip(a), s.model, done.len() - 1, done.last()));
        assert(metas_told(ev, s.model, s.total as nat, done));
        assert(ev.take(ev.len() as int) =~= ev);
        assert(ev.skip(ev.len() as int) =~= seq![]);
        ev.len() as int
    }
}

/// Whatever the runtime replies, what is read is what it told.
pub(crate) proof fn reading_is_told(ev: Seq<Event>, a: int, s: ReaderSpec, r: ReplySpec) -> (b: int)
    requires
        s.well_formed(),
        s.told(ev, a),
    ensures
        ({
            let more = ev.push(Event { call: s.call(), reply: r });
            match s.step(r) {
                MetaNextSpec::More(n) => n.model == s.model && n.told(more, b),
                MetaNextSpec::Done(metas) => metas_told(more, s.model, metas.len(), metas),
                MetaNextSpec::Failed(e) => true,
            }
        }),
{
    let e = Event { call: s.call(), reply: r };
    let more = ev.push(e);
    let i = s.done.len() as int;
    if s.stage is Count {
        assert(more.take(1) =~= more);
        assert(more.skip(1) =~= seq![]);
        1
    } else {
        let seg = ev.skip(a);
        assert(more.take(a) =~= ev.take(a));
        assert(more.skip(a) =~= seg.push(e));
        match s.stage {
            MetaStageSpec::Outputs { signature, key, status, n_in } => {
                let read = ReadSpec {
                    signature,
                    key,
                    n_in,
                    n_out: r.count,
                    input_types: seq![],
                    output_types: seq![],
                    input_names: seq![],
                    output_names: seq![],
                };
                if status == 0 && r.ok() {
                    assert(seg.push(e)[2] == seg[2]);
                    assert(read_told(seg.push(e), s.model, i, read));
                    lemma_go_on_told(more, a, s, read)
                } else {
                    a
                }
            },
            MetaStageSpec::Tensor { read } => {
                lemma_read_stays(seg, e, s.model, i, read);
                a
            },
            MetaStageSpec::Type { read, tensor } => {
                if r.ok() {
                    lemma_type_read(seg, r, s.model, i, read);
                    lemma_go_on_told(more, a, s, read.with_type(r.element_type))
                } else {
                    a
                }
            },
            MetaStageSpec::Name { read } => {
                lemma_name_read(seg, r, s.model, i, read);
                let name = if r.ok() {
                    r.text
                } else {
                    None
                };
                lemma_go_on_told(more, a, s, read.with_name(name))
            },
            _ => a,
        }
    }
}

/// A reader that has read nothing has been told nothing.
pub(crate) proof fn reading_starts_untold(model: Handle)
    ensures
        ReaderSpec::start(model).told(seq![], 0),
{
}

impl ReaderSpec {
    /// The runtime answers: it can say how many signatures there are, and of each
    /// its key, how many arguments it has, and their types. It need not know the
    /// names.
    pub open spec fn answered_by(self, r: ReplySpec) -> bool {
        match self.stage {
            MetaStageSpec::Count => r.ok() && r.count > 0,
            MetaStageSpec::Key { signature } => r.ok() && r.text is Some,
            MetaStageSpec::Name { read } => true,
            _ => r.ok(),
        }
    }

    /// Nothing has gone wrong so far.
    pub open spec fn sound(self) -> bool {
        match self.stage {
            MetaStageSpec::Outputs { signature, key, status, n_in } => status == 0,
            _ => true,
        }
    }

    /// How many signatures are left to read.
    pub open spec fn signatures_left(self) -> int {
        self.total - self.done.len()
    }

    /// How many calls are left for the current signature, counted generously.
    pub closed spec fn calls_left(self) -> int {
        match self.stage {
            MetaStageSpec::Count => 0,
            MetaStageSpec::Signature => usize::MAX * 16 + 7,
            MetaStageSpec::Key { signature } => usize::MAX * 16 + 6,
            MetaStageSpec::Inputs { signature, key } => usize::MAX * 16 + 5,
            MetaStageSpec::Outputs { signature, key, status, n_in } => usize::MAX * 16 + 4,
            MetaStageSpec::Tensor { read } => read_left(read) + 2,
            MetaStageSpec::Type { read, tensor } => read_left(read) + 1,
            MetaStageSpec::Name { read } => read_left(read) + 2,
        }
    }
}

spec fn read_left(read: ReadSpec) -> int {
    4 * ((read.n_in - read.input_types.len()) + (read.n_out - read.output_types.len()) + (read.n_in
        - read.input_names.len()) + (read.n_out - read.output_names.len()))
}

/// Reading comes nearer its end with every reply that answers, and does not fail.
pub(crate) proof fn reading_goes_on(s: ReaderSpec, r: ReplySpec)
    requires
        s.well_formed(),
        s.sound(),
        s.answered_by(r),
    ensures
        match s.step(r) {
            MetaNextSpec::More(n) => {
                &&& n.sound() && n.stage !is Count
                &&& n.signatures_left() >= 0 && n.calls_left() >= 0
                &&& s.stage is Count || n.signatures_left() < s.signatures_left() || (
                n.signatures_left() == s.signatures_left() && n.calls_left() < s.calls_left())
            },
            MetaNextSpec::Done(metas) => true,
            MetaNextSpec::Failed(e) => false,
        },
{
    reading_stays_well_formed(s, r);
}

/// A runtime that cannot be read fails in these ways alone: it does not say how
/// many signatures there are or has none, or of one of them does not give the
/// handle, the key, the number of its arguments, one of their tensors or a
/// tensor's type. It need not know names.
pub proof fn readings_are_refused_by_these_calls(s: ReaderSpec, r: ReplySpec)
    ensures
        match s.call() {
            Call::CountSignatures { .. } => s.answered_by(r) <==> r.status == 0 && r.count > 0,
            Call::SignatureKey { .. } => s.answered_by(r) <==> r.status == 0 && r.text is Some,
            Call::ArgumentName { .. } => s.answered_by(r),
            _ => s.answered_by(r) <==> r.status == 0,
        },
{
}

/// Where the runtime cannot say what it is asked, the error says which call it
/// was, about what, and with which status.
pub proof fn refused_readings_say_why(s: ReaderSpec, r: ReplySpec)
    requires
        s.done.len() <= usize::MAX,
        !s.answered_by(r),
    ensures
        ({
            let status = integer(r.status as int);
            match s.call() {
                Call::CountSignatures { model } => s.step(r) == MetaNextSpec::Failed(
                    if r.status != 0 {
                        "LiteRtGetNumModelSignatures status="@ + status
                    } else {
                        "模型里没有签名"@
                    },
                ),
                Call::Signature { model, index } => s.step(r) == MetaNextSpec::Failed(
                    "LiteRtGetModelSignature("@ + integer(index as int) + ") status="@ + status,
                ),
                Call::SignatureKey { signature } => s.step(r) == MetaNextSpec::Failed(
                    "LiteRtGetSignatureKey("@ + integer(s.done.len() as int) + ") status="@
                        + status,
                ),
                Call::Argument { signature, side, index } => s.stage matches
                    MetaStageSpec::Tensor { read } && s.step(r) == MetaNextSpec::Failed(
                    "签名 "@ + read.key + (if side is Input {
                        " 的输入类型: "@
                    } else {
                        " 的输出类型: "@
                    }) + ("取第 "@ + integer(index as int) + " 个张量 status="@ + status),
                ),
                Call::ArgumentType { tensor } => s.step(r) is Failed,
                Call::CountArguments { signature, side } => side is Output ==> s.step(r) is Failed,
                _ => false,
            }
        }),
{
}

} // verus!
