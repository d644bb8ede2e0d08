//! General properties of the buffered writer, stated over the same model
//! its contracts use and proved once for every chunking and every failure
//! pattern.
//!
//! `BufferedWrite::write` ensures that a successful call appends exactly the
//! accepted prefix of its source to `committed()` and that a failed call
//! leaves `committed()` unchanged; `BufferedWrite::flush` ensures that on
//! success the wrapped stream has received exactly `committed()`. The lemmas
//! here lift those per-call guarantees to whole call sequences.

use vstd::prelude::*;

verus! {

/// The concatenation of a sequence of byte chunks, in order.
pub open spec fn concat_of(chunks: Seq<Seq<u8>>) -> Seq<u8>
    decreases chunks.len(),
{
    if chunks.len() == 0 {
        Seq::empty()
    } else {
        concat_of(chunks.drop_last()) + chunks.last()
    }
}

/// One `BufferedWrite::write` call, at the level of its contract: either the
/// stream failed and the call changed nothing, or a chunk of bytes (the
/// accepted prefix of the call's source) was taken on.
pub enum WriteOutcome {
    /// The stream failed: the committed bytes are unchanged.
    Refused,
    /// The call accepted this chunk: the committed bytes grow by exactly it.
    Accepted(Seq<u8>),
}

/// The committed bytes after a sequence of write outcomes, each applied as
/// the `write` contract dictates.
pub open spec fn committed_after(start: Seq<u8>, events: Seq<WriteOutcome>) -> Seq<u8>
    decreases events.len(),
{
    if events.len() == 0 {
        start
    } else {
        match events.last() {
            WriteOutcome::Refused => committed_after(start, events.drop_last()),
            WriteOutcome::Accepted(chunk) => committed_after(start, events.drop_last()) + chunk,
        }
    }
}

/// The chunks accepted among a sequence of outcomes, in order.
pub open spec fn accepted_of(events: Seq<WriteOutcome>) -> Seq<Seq<u8>>
    decreases events.len(),
{
    if events.len() == 0 {
        Seq::empty()
    } else {
        match events.last() {
            WriteOutcome::Refused => accepted_of(events.drop_last()),
            WriteOutcome::Accepted(chunk) => accepted_of(events.drop_last()).push(chunk),
        }
    }
}

/// Round trip: however a byte stream is chunked into writes, and wherever
/// failed calls fall between them, the committed bytes after the sequence
/// are the starting bytes followed by the concatenation of every accepted
/// chunk, in order — no gaps, no duplicates, no reordering. Combined with
/// the `flush` contract, a final successful flush hands the wrapped stream
/// exactly that concatenation.
pub proof fn lemma_round_trip(start: Seq<u8>, events: Seq<WriteOutcome>)
    ensures
        committed_after(start, events) == start + concat_of(accepted_of(events)),
    decreases events.len(),
{
    if events.len() == 0 {
        assert(committed_after(start, events) =~= start + concat_of(accepted_of(events)));
    } else {
        lemma_round_trip(start, events.drop_last());
        match events.last() {
            WriteOutcome::Refused => {},
            WriteOutcome::Accepted(chunk) => {
                let acc = accepted_of(events.drop_last());
                assert(acc.push(chunk).drop_last() =~= acc);
                assert(committed_after(start, events) =~= start + concat_of(
                    accepted_of(events),
                ));
            },
        }
    }
}

/// Failed calls alone change nothing: the committed bytes survive any run of
/// refusals untouched.
pub proof fn lemma_refusals_change_nothing(start: Seq<u8>, events: Seq<WriteOutcome>)
    requires
        forall|i: int| 0 <= i < events.len() ==> events[i] is Refused,
    ensures
        committed_after(start, events) == start,
    decreases events.len(),
{
    if events.len() > 0 {
        lemma_refusals_change_nothing(start, events.drop_last());
    }
}

/// No data loss on retry: when a commit fails any number of times and the
/// caller then resubmits the same chunk successfully, the chunk is committed
/// exactly once — nothing is lost to the failures and nothing is duplicated
/// by the retries.
pub proof fn lemma_retry_delivers_once(start: Seq<u8>, events: Seq<WriteOutcome>, chunk: Seq<u8>)
    requires
        events.len() > 0,
        forall|i: int| 0 <= i < events.len() - 1 ==> events[i] is Refused,
        events.last() == WriteOutcome::Accepted(chunk),
    ensures
        committed_after(start, events) == start + chunk,
{
    lemma_refusals_change_nothing(start, events.drop_last());
}

} // verus!
