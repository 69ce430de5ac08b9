//! What opening an engine ends with.
//!
//! An engine opens as its models do: what is proved of opening a model carries
//! over.

use super::ledger::engine_after;
use super::opening::{pair_engine, single_engine, EngineOpeningSpec, EngineReplySpec, PathsSpec};
use crate::backends::litert_sys::ledger::opening_after;
use crate::backends::litert_sys::model::ModelSpec;
use crate::backends::litert_sys::native::ReplySpec;
use crate::backends::litert_sys::opening::OpeningSpec;
use crate::backends::litert_sys::outcome::{first, model_opens, model_opens_where_wanted, Replies};
use crate::{ErrorSpec, Prefer};
use vstd::prelude::*;

verus! {

/// The runtime's replies, as an engine that opens takes them.
pub open spec fn natives(replies: Seq<ReplySpec>) -> Seq<EngineReplySpec> {
    Seq::new(replies.len(), |i: int| EngineReplySpec::Native(replies[i]))
}

proof fn lemma_natives(replies: Seq<ReplySpec>)
    requires
        replies.len() > 0,
    ensures
        natives(replies).drop_last() == natives(replies.drop_last()),
        natives(replies).last() == EngineReplySpec::Native(replies.last()),
{
    assert(natives(replies).drop_last() =~= natives(replies.drop_last()));
}

/// Whatever the runtime replies, an engine of one model opens exactly where the
/// model does, and fails as it does.
pub proof fn single_engine_opens_as_its_model(
    bytes: Seq<u8>,
    prefer: Prefer,
    num_threads: i32,
    replies: Seq<ReplySpec>,
)
    ensures
        engine_after(EngineOpeningSpec::of_bytes(bytes, prefer, num_threads), natives(replies)) == (
        match opening_after(
            OpeningSpec::start(bytes, prefer == Prefer::LiteRtGpu, num_threads),
            replies,
        ) {
            OpeningSpec::Opened { model } => EngineOpeningSpec::Opened {
                engine: single_engine(model),
            },
            OpeningSpec::Failed { error } => EngineOpeningSpec::Failed {
                error: ErrorSpec::Load(error),
            },
            opening => EngineOpeningSpec::Single { opening },
        }),
    decreases replies.len(),
{
    if replies.len() > 0 {
        lemma_natives(replies);
        single_engine_opens_as_its_model(bytes, prefer, num_threads, replies.drop_last());
    }
}

/// An engine of one model opens where the runtime does what it is asked, on the
/// GPU exactly where that is preferred.
pub proof fn single_engine_opens(
    bytes: Seq<u8>,
    prefer: Prefer,
    num_threads: i32,
    replies: Replies,
)
    requires
        forall|n: nat|
            opening_after(
                OpeningSpec::start(bytes, prefer == Prefer::LiteRtGpu, num_threads),
                first(replies, n),
            ).answered_by(#[trigger] replies(n), true),
    ensures
        exists|n: nat| #[trigger]
            engine_after(
                EngineOpeningSpec::of_bytes(bytes, prefer, num_threads),
                natives(first(replies, n)),
            ) matches EngineOpeningSpec::Opened { engine } && engine.on_gpu == (prefer
                == Prefer::LiteRtGpu),
{
    let gpu = prefer == Prefer::LiteRtGpu;
    let start = OpeningSpec::start(bytes, gpu, num_threads);
    model_opens_where_wanted(bytes, gpu, num_threads, replies);
    let n = choose|n: nat|
        n > 0 && opening_after(start, first(replies, (n - 1) as nat)) is Working && (
        #[trigger] opening_after(start, first(replies, n)) matches OpeningSpec::Opened { model }
            && model.on_gpu == gpu);
    single_engine_opens_as_its_model(bytes, prefer, num_threads, first(replies, n));
    assert(engine_after(
        EngineOpeningSpec::of_bytes(bytes, prefer, num_threads),
        natives(first(replies, n)),
    ) is Opened);
}

/// An engine of one model opens, whatever becomes of the build for the GPU.
pub proof fn single_engine_opens_all_the_same(
    bytes: Seq<u8>,
    prefer: Prefer,
    num_threads: i32,
    replies: Replies,
)
    requires
        forall|n: nat|
            opening_after(
                OpeningSpec::start(bytes, prefer == Prefer::LiteRtGpu, num_threads),
                first(replies, n),
            ).answered_by(#[trigger] replies(n), false),
    ensures
        exists|n: nat| #[trigger]
            engine_after(
                EngineOpeningSpec::of_bytes(bytes, prefer, num_threads),
                natives(first(replies, n)),
            ) is Opened,
{
    let gpu = prefer == Prefer::LiteRtGpu;
    let start = OpeningSpec::start(bytes, gpu, num_threads);
    model_opens(bytes, gpu, num_threads, replies);
    let n = choose|n: nat|
        n > 0 && opening_after(start, first(replies, (n - 1) as nat)) is Working
            && #[trigger] opening_after(start, first(replies, n)) is Opened;
    single_engine_opens_as_its_model(bytes, prefer, num_threads, first(replies, n));
    assert(engine_after(
        EngineOpeningSpec::of_bytes(bytes, prefer, num_threads),
        natives(first(replies, n)),
    ) is Opened);
}

/// The replies are those of one opening: it ends with the last of them, and the
/// model is what it ends with.
pub open spec fn opens_with(
    bytes: Seq<u8>,
    num_threads: i32,
    replies: Seq<ReplySpec>,
    model: ModelSpec,
) -> bool {
    &&& replies.len() > 0
    &&& opening_after(OpeningSpec::start(bytes, true, num_threads), replies.drop_last()) is Working
    &&& opening_after(OpeningSpec::start(bytes, true, num_threads), replies)
        == (OpeningSpec::Opened { model })
}

/// The replies that open recognition: the encoder's file and those of its model,
/// then the decoder's.
pub open spec fn both(
    enc_bytes: Seq<u8>,
    enc: Seq<ReplySpec>,
    dec_bytes: Seq<u8>,
    dec: Seq<ReplySpec>,
) -> Seq<EngineReplySpec> {
    seq![EngineReplySpec::File(Ok(enc_bytes))] + natives(enc) + seq![
        EngineReplySpec::File(Ok(dec_bytes)),
    ] + natives(dec)
}

proof fn lemma_after_both(s: EngineOpeningSpec, a: Seq<EngineReplySpec>, b: Seq<EngineReplySpec>)
    ensures
        engine_after(s, a + b) == engine_after(engine_after(s, a), b),
    decreases b.len(),
{
    if b.len() == 0 {
        assert(a + b =~= a);
    } else {
        assert((a + b).drop_last() =~= a + b.drop_last());
        assert((a + b).last() == b.last());
        lemma_after_both(s, a, b.drop_last());
    }
}

proof fn lemma_one_reply(s: EngineOpeningSpec, r: EngineReplySpec)
    ensures
        engine_after(s, seq![r]) == s.step(r),
{
    assert(seq![r].drop_last() =~= seq![]);
    assert(engine_after(s, seq![r].drop_last()) == s);
}

/// An opening that works on has worked all along.
proof fn lemma_worked_before(s: OpeningSpec, replies: Seq<ReplySpec>)
    requires
        replies.len() > 0,
        opening_after(s, replies) is Working,
    ensures
        opening_after(s, replies.drop_last()) is Working,
{
}

proof fn lemma_encoder_opens(
    paths: PathsSpec,
    num_threads: i32,
    start: OpeningSpec,
    replies: Seq<ReplySpec>,
)
    requires
        opening_after(start, replies) is Working || opening_after(start, replies) is Opened,
        replies.len() > 0 ==> opening_after(start, replies.drop_last()) is Working,
        start is Working,
    ensures
        engine_after(
            EngineOpeningSpec::OpenEncoder { paths, num_threads, opening: start },
            natives(replies),
        ) == (match opening_after(start, replies) {
            OpeningSpec::Opened { model } => EngineOpeningSpec::ReadDecoder {
                paths,
                num_threads,
                encoder: model,
            },
            opening => EngineOpeningSpec::OpenEncoder { paths, num_threads, opening },
        }),
    decreases replies.len(),
{
    if replies.len() > 0 {
        lemma_natives(replies);
        let rest = replies.drop_last();
        if rest.len() > 0 {
            lemma_worked_before(start, rest);
        }
        lemma_encoder_opens(paths, num_threads, start, rest);
    }
}

proof fn lemma_decoder_opens(
    paths: PathsSpec,
    encoder: ModelSpec,
    start: OpeningSpec,
    replies: Seq<ReplySpec>,
)
    requires
        opening_after(start, replies) is Working || opening_after(start, replies) is Opened,
        replies.len() > 0 ==> opening_after(start, replies.drop_last()) is Working,
        start is Working,
    ensures
        engine_after(
            EngineOpeningSpec::OpenDecoder { paths, encoder, opening: start },
            natives(replies),
        ) == (match opening_after(start, replies) {
            OpeningSpec::Opened { model } => EngineOpeningSpec::with_decoder(paths, encoder, model),
            opening => EngineOpeningSpec::OpenDecoder { paths, encoder, opening },
        }),
    decreases replies.len(),
{
    if replies.len() > 0 {
        lemma_natives(replies);
        let rest = replies.drop_last();
        if rest.len() > 0 {
            lemma_worked_before(start, rest);
        }
        lemma_decoder_opens(paths, encoder, start, rest);
    }
}

/// Recognition is opened from its two files, the GPU being wanted for both. Where
/// both models open, the engine opens exactly where the decoder has the
/// signatures for `prefill` and `step`.
pub proof fn recognition_opens_as_its_models(
    paths: PathsSpec,
    num_threads: i32,
    enc_bytes: Seq<u8>,
    enc: Seq<ReplySpec>,
    encoder: ModelSpec,
    dec_bytes: Seq<u8>,
    dec: Seq<ReplySpec>,
    decoder: ModelSpec,
)
    requires
        opens_with(enc_bytes, num_threads, enc, encoder),
        opens_with(dec_bytes, num_threads, dec, decoder),
    ensures
        ({
            let end = engine_after(
                EngineOpeningSpec::of_files(paths, num_threads),
                both(enc_bytes, enc, dec_bytes, dec),
            );
            let prefill = decoder.signature_named(Some("prefill"@));
            let step = decoder.signature_named(Some("decode"@));
            &&& end == EngineOpeningSpec::with_decoder(paths, encoder, decoder)
            &&& prefill is Some && step is Some ==> end == (EngineOpeningSpec::Opened {
                engine: pair_engine(encoder, decoder, prefill.unwrap(), step.unwrap()),
            })
            &&& prefill is None || step is None ==> end !is Opened
        }),
{
    let s0 = EngineOpeningSpec::of_files(paths, num_threads);
    let r0 = EngineReplySpec::File(Ok(enc_bytes));
    let r1 = EngineReplySpec::File(Ok(dec_bytes));
    let first_start = OpeningSpec::start(enc_bytes, true, num_threads);
    let second_start = OpeningSpec::start(dec_bytes, true, num_threads);
    let s1 = EngineOpeningSpec::OpenEncoder { paths, num_threads, opening: first_start };
    let s2 = EngineOpeningSpec::ReadDecoder { paths, num_threads, encoder };
    let s3 = EngineOpeningSpec::OpenDecoder { paths, encoder, opening: second_start };
    lemma_one_reply(s0, r0);
    lemma_one_reply(s2, r1);
    lemma_encoder_opens(paths, num_threads, first_start, enc);
    lemma_decoder_opens(paths, encoder, second_start, dec);
    lemma_after_both(s0, seq![r0], natives(enc));
    lemma_after_both(s0, seq![r0] + natives(enc), seq![r1]);
    lemma_after_both(s0, seq![r0] + natives(enc) + seq![r1], natives(dec));
    assert(engine_after(s0, seq![r0]) == s1);
    assert(engine_after(s0, seq![r0] + natives(enc)) == s2);
    assert(engine_after(s0, seq![r0] + natives(enc) + seq![r1]) == s3);
}

proof fn lemma_opens_with(bytes: Seq<u8>, num_threads: i32, replies: Replies) -> (r: (
    nat,
    ModelSpec,
))
    requires
        forall|n: nat|
            opening_after(
                OpeningSpec::start(bytes, true, num_threads),
                first(replies, n),
            ).answered_by(#[trigger] replies(n), false),
    ensures
        opens_with(bytes, num_threads, first(replies, r.0), r.1),
{
    let start = OpeningSpec::start(bytes, true, num_threads);
    model_opens(bytes, true, num_threads, replies);
    let n = choose|n: nat|
        n > 0 && opening_after(start, first(replies, (n - 1) as nat)) is Working
            && #[trigger] opening_after(start, first(replies, n)) is Opened;
    assert(first(replies, n).drop_last() =~= first(replies, (n - 1) as nat));
    match opening_after(start, first(replies, n)) {
        OpeningSpec::Opened { model } => (n, model),
        _ => (n, arbitrary()),
    }
}

/// The models of recognition open where the runtime does what it is asked,
/// whatever becomes of the builds for the GPU; and with them the engine, where
/// the decoder has its two signatures.
pub proof fn recognition_opens(
    paths: PathsSpec,
    num_threads: i32,
    enc_bytes: Seq<u8>,
    enc: Replies,
    dec_bytes: Seq<u8>,
    dec: Replies,
)
    requires
        forall|n: nat|
            opening_after(
                OpeningSpec::start(enc_bytes, true, num_threads),
                first(enc, n),
            ).answered_by(#[trigger] enc(n), false),
        forall|n: nat|
            opening_after(
                OpeningSpec::start(dec_bytes, true, num_threads),
                first(dec, n),
            ).answered_by(#[trigger] dec(n), false),
    ensures
        exists|i: nat, j: nat, encoder: ModelSpec, decoder: ModelSpec|
            {
                &&& #[trigger] opens_with(enc_bytes, num_threads, first(enc, i), encoder)
                &&& #[trigger] opens_with(dec_bytes, num_threads, first(dec, j), decoder)
                &&& engine_after(
                    EngineOpeningSpec::of_files(paths, num_threads),
                    both(enc_bytes, first(enc, i), dec_bytes, first(dec, j)),
                ) == EngineOpeningSpec::with_decoder(paths, encoder, decoder)
            },
{
    let (i, encoder) = lemma_opens_with(enc_bytes, num_threads, enc);
    let (j, decoder) = lemma_opens_with(dec_bytes, num_threads, dec);
    recognition_opens_as_its_models(
        paths,
        num_threads,
        enc_bytes,
        first(enc, i),
        encoder,
        dec_bytes,
        first(dec, j),
        decoder,
    );
}

} // verus!
