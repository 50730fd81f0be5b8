//! A transfer seen as a whole: what the steps of [`crate::transfer`] add up
//! to when a caller runs them against a source of bytes.
//!
//! A read asks for a number of bytes and gets some of them: at least one
//! while the source has any, never more than were asked for, none once the
//! source has ended. How many it gets is not for the protocol to say, so the
//! statements here hold for every way in which reads may come out.

use vstd::prelude::*;
use crate::protocol::TransferMessageView;
use crate::transfer::{Decision, Payload, ReceiveState, SendState, TransferError, TransferOutcome};

verus! {

/// How many bytes a read hands over that asked for `wanted` bytes of a source
/// with `left` bytes to go, where the source would give `grant` at a time.
pub open spec fn handed_over(wanted: nat, left: nat, grant: nat) -> nat {
    let most = if wanted < left {
        wanted
    } else {
        left
    };
    if most == 0 {
        0
    } else if grant < 1 {
        1
    } else if grant > most {
        most
    } else {
        grant
    }
}

/// A payload on its way: the bytes still to be read from the source and the
/// bytes already written to the sink.
pub struct Pump {
    pub payload: Payload,
    pub source: Seq<u8>,
    pub sink: Seq<u8>,
}

impl Pump {
    /// A pump that has moved nothing yet.
    pub open spec fn start(payload: Payload, source: Seq<u8>) -> Pump {
        Pump { payload, source, sink: Seq::empty() }
    }

    /// One step: read what the payload asks for, write all that was read.
    pub open spec fn step(self, grant: nat) -> Pump {
        match self.payload {
            Payload::Moving { .. } => {
                let n = handed_over(self.payload.wanted(), self.source.len(), grant);
                Pump {
                    payload: self.payload.after_chunk(n),
                    source: self.source.skip(n as int),
                    sink: self.sink + self.source.take(n as int),
                }
            },
            _ => self,
        }
    }

    /// One step for each grant, in order.
    pub open spec fn run(self, grants: Seq<nat>) -> Pump
        decreases grants.len(),
    {
        if grants.len() == 0 {
            self
        } else {
            self.step(grants[0]).run(grants.drop_first())
        }
    }

    /// A payload that is at its end stays as it is.
    pub proof fn lemma_run_at_end(self, grants: Seq<nat>)
        requires
            !(self.payload is Moving),
        ensures
            self.run(grants) == self,
        decreases grants.len(),
    {
        if grants.len() > 0 {
            self.lemma_run_at_end(grants.drop_first());
        }
    }

    /// A source that holds the rest of the file is moved to the sink whole,
    /// and no byte beyond the file is taken from it.
    pub proof fn lemma_run_completes(self, grants: Seq<nat>)
        requires
            self.payload is Moving,
            self.payload.moved() < self.payload.total(),
            self.source.len() >= self.payload.total() - self.payload.moved(),
            grants.len() >= self.payload.total() - self.payload.moved(),
        ensures
            self.run(grants).payload == (Payload::Complete { total: self.payload.total() }),
            self.run(grants).sink == self.sink + self.source.take(
                self.payload.total() - self.payload.moved(),
            ),
            self.run(grants).source == self.source.skip(
                self.payload.total() - self.payload.moved(),
            ),
        decreases grants.len(),
    {
        let left = self.payload.total() - self.payload.moved();
        let n = handed_over(self.payload.wanted(), self.source.len(), grants[0]);
        let next = self.step(grants[0]);
        let rest = grants.drop_first();
        assert(1 <= n <= left);
        if n == left {
            next.lemma_run_at_end(rest);
        } else {
            next.lemma_run_completes(rest);
            assert(self.source.skip(n as int).take(left - n) =~= self.source.subrange(
                n as int,
                left,
            ));
            assert(self.source.take(n as int) + self.source.subrange(n as int, left)
                =~= self.source.take(left));
            assert(self.source.skip(n as int).skip(left - n) =~= self.source.skip(left));
            assert(next.sink + next.source.take(left - n) =~= self.sink + self.source.take(left));
        }
    }

    /// A source that ends before the file does is moved to the sink as far as
    /// it goes, and the payload is cut there.
    pub proof fn lemma_run_is_cut(self, grants: Seq<nat>)
        requires
            self.payload is Moving,
            self.source.len() < self.payload.total() - self.payload.moved(),
            grants.len() > self.source.len(),
        ensures
            self.run(grants).payload == (Payload::Cut {
                done: (self.payload.moved() + self.source.len()) as u64,
                total: self.payload.total(),
            }),
            self.run(grants).sink == self.sink + self.source,
        decreases grants.len(),
    {
        let n = handed_over(self.payload.wanted(), self.source.len(), grants[0]);
        let next = self.step(grants[0]);
        let rest = grants.drop_first();
        if self.source.len() == 0 {
            next.lemma_run_at_end(rest);
            assert(self.sink + self.source.take(0) =~= self.sink + self.source);
        } else {
            assert(1 <= n <= self.source.len());
            next.lemma_run_is_cut(rest);
            assert(self.source.take(n as int) + self.source.skip(n as int) =~= self.source);
            assert(next.sink + next.source =~= self.sink + self.source);
        }
    }
}

impl SendState {
    /// The file as the source and the connection as the sink of this
    /// sender's payload.
    pub open spec fn pump(self, file: Seq<u8>) -> Pump {
        match self {
            SendState::Streaming { payload } => Pump::start(payload, file),
            _ => Pump::start(Payload::Complete { total: 0 }, file),
        }
    }

    /// The state in which the sender ends after the reads `grants`.
    pub open spec fn after_run(self, file: Seq<u8>, grants: Seq<nat>) -> SendState {
        match self {
            SendState::Streaming { .. } => SendState::Streaming {
                payload: self.pump(file).run(grants).payload,
            },
            _ => self,
        }
    }

    /// The payload bytes that the sender has written to the connection after
    /// the reads `grants`.
    pub open spec fn written(self, file: Seq<u8>, grants: Seq<nat>) -> Seq<u8> {
        self.pump(file).run(grants).sink
    }
}

impl ReceiveState {
    /// The connection as the source and the file as the sink of this
    /// receiver's payload.
    pub open spec fn pump(self, incoming: Seq<u8>) -> Pump {
        match self {
            ReceiveState::Receiving { payload } => Pump::start(payload, incoming),
            _ => Pump::start(Payload::Complete { total: 0 }, incoming),
        }
    }

    /// The state in which the receiver ends after the reads `grants`.
    pub open spec fn after_run(self, incoming: Seq<u8>, grants: Seq<nat>) -> ReceiveState {
        match self {
            ReceiveState::Receiving { .. } => ReceiveState::Receiving {
                payload: self.pump(incoming).run(grants).payload,
            },
            _ => self,
        }
    }

    /// The bytes that the receiver has written to the file after the reads
    /// `grants`.
    pub open spec fn stored(self, incoming: Seq<u8>, grants: Seq<nat>) -> Seq<u8> {
        self.pump(incoming).run(grants).sink
    }
}

/// The receiver that has read `offer_line` and decided on it.
pub open spec fn decided_receiver(offer_line: Seq<u8>, decision: Decision) -> ReceiveState {
    ReceiveState::AwaitingOffer.after_offer(
        TransferMessageView::decoded_line(offer_line),
    ).after_decision(decision)
}

/// The line in which the receiver that has read `offer_line` tells its decision.
pub open spec fn reply_line(offer_line: Seq<u8>, decision: Decision) -> Seq<u8> {
    ReceiveState::AwaitingOffer.after_offer(
        TransferMessageView::decoded_line(offer_line),
    ).reply_for(decision)
}

/// The sender of a file of `size` bytes that has read `reply`.
pub open spec fn replied_sender(size: u64, reply: Seq<u8>) -> SendState {
    (SendState::AwaitingReply { size }).after_reply(TransferMessageView::decoded_line(reply))
}

/// The receiver's reply reads at the sender as the decision that was made.
pub proof fn lemma_reply_is_understood(offer_line: Seq<u8>, decision: Decision)
    requires
        ReceiveState::AwaitingOffer.after_offer(TransferMessageView::decoded_line(offer_line))
            is Deciding,
    ensures
        TransferMessageView::decoded_line(reply_line(offer_line, decision)) == Some(
            match decision {
                Decision::Accept => TransferMessageView::Accept,
                Decision::Reject => TransferMessageView::Reject,
            },
        ),
{
    match decision {
        Decision::Accept => {
            let m = TransferMessageView::Accept;
            m.lemma_decoded_line(m.body());
        },
        Decision::Reject => {
            let m = TransferMessageView::Reject;
            m.lemma_decoded_line(m.body());
        },
    }
}

/// A file of any size arrives as it was sent.
///
/// Take an offer line that reads as the offer of the file, as every line
/// does that [`SendState::offer`] returns, and a receiver that accepts it.
/// Whatever the reads from the file and from the connection hand over at a
/// time, once each side has had reads enough the sender has written the
/// file's bytes and no others, the receiver's file holds the same bytes, and
/// both sides report the transfer as completed.
pub proof fn lemma_transfer_delivers_file(
    filename: Seq<char>,
    file: Seq<u8>,
    offer_line: Seq<u8>,
    reads: Seq<nat>,
    arrivals: Seq<nat>,
)
    requires
        file.len() <= u64::MAX,
        TransferMessageView::decoded_line(offer_line) == Some(
            TransferMessageView::FileOffer { filename, size: file.len() as u64 },
        ),
        reads.len() >= file.len(),
        arrivals.len() >= file.len(),
    ensures
        ({
            let size = file.len() as u64;
            let receiver = decided_receiver(offer_line, Decision::Accept);
            let sender = replied_sender(size, reply_line(offer_line, Decision::Accept));
            let wire = sender.written(file, reads);
            &&& wire == file
            &&& sender.after_run(file, reads).outcome_spec() == Some(
                Ok::<TransferOutcome, TransferError>(TransferOutcome::Completed),
            )
            &&& sender.after_run(file, reads).sent() == size
            &&& receiver.stored(wire, arrivals) == file
            &&& receiver.after_run(wire, arrivals).outcome_spec() == Some(
                Ok::<TransferOutcome, TransferError>(TransferOutcome::Completed),
            )
            &&& receiver.after_run(wire, arrivals) == (ReceiveState::Receiving {
                payload: Payload::Complete { total: size },
            })
        }),
{
    let size = file.len() as u64;
    lemma_reply_is_understood(offer_line, Decision::Accept);
    let receiver = decided_receiver(offer_line, Decision::Accept);
    let sender = replied_sender(size, reply_line(offer_line, Decision::Accept));
    if size == 0 {
        sender.pump(file).lemma_run_at_end(reads);
        assert(file =~= Seq::<u8>::empty());
        receiver.pump(file).lemma_run_at_end(arrivals);
    } else {
        sender.pump(file).lemma_run_completes(reads);
        assert(Seq::<u8>::empty() + file.take(size as int) =~= file);
        receiver.pump(file).lemma_run_completes(arrivals);
    }
}

/// A refusal ends the sender's part without error and without one byte of
/// the file on the connection, whatever reads might still be tried.
pub proof fn lemma_refusal_sends_nothing(
    size: u64,
    offer_line: Seq<u8>,
    file: Seq<u8>,
    reads: Seq<nat>,
)
    requires
        ReceiveState::AwaitingOffer.after_offer(TransferMessageView::decoded_line(offer_line))
            is Deciding,
    ensures
        ({
            let sender = replied_sender(size, reply_line(offer_line, Decision::Reject));
            &&& sender == SendState::Declined
            &&& sender.outcome_spec() == Some(
                Ok::<TransferOutcome, TransferError>(TransferOutcome::Declined),
            )
            &&& sender.wanted() == 0
            &&& sender.sent() == 0
            &&& sender.written(file, reads) == Seq::<u8>::empty()
            &&& sender.after_run(file, reads) == sender
        }),
{
    lemma_reply_is_understood(offer_line, Decision::Reject);
    let sender = replied_sender(size, reply_line(offer_line, Decision::Reject));
    sender.pump(file).lemma_run_at_end(reads);
}

/// A connection that closes before all announced bytes have come is
/// reported as ended too early, with the count of the bytes that did come;
/// those bytes are in the file, and the transfer does not count as completed.
pub proof fn lemma_short_stream_is_an_error(
    filename: Seq<char>,
    size: u64,
    offer_line: Seq<u8>,
    incoming: Seq<u8>,
    arrivals: Seq<nat>,
)
    requires
        TransferMessageView::decoded_line(offer_line) == Some(
            TransferMessageView::FileOffer { filename, size },
        ),
        incoming.len() < size,
        arrivals.len() > incoming.len(),
    ensures
        ({
            let receiver = decided_receiver(offer_line, Decision::Accept);
            &&& receiver.after_run(incoming, arrivals).outcome_spec() == Some(
                Err::<TransferOutcome, TransferError>(
                    TransferError::PrematureTermination {
                        transferred: incoming.len() as u64,
                        expected: size,
                    },
                ),
            )
            &&& receiver.stored(incoming, arrivals) == incoming
        }),
{
    let receiver = decided_receiver(offer_line, Decision::Accept);
    receiver.pump(incoming).lemma_run_is_cut(arrivals);
    assert(Seq::<u8>::empty() + incoming =~= incoming);
}

/// Two connections served side by side: each entry of `schedule` says which
/// of the two reads next, the first (`true`) or the second, and how much the
/// read would hand over.
pub open spec fn served_together(first: Pump, second: Pump, schedule: Seq<(bool, nat)>) -> (
    Pump,
    Pump,
)
    decreases schedule.len(),
{
    if schedule.len() == 0 {
        (first, second)
    } else if schedule[0].0 {
        served_together(first.step(schedule[0].1), second, schedule.drop_first())
    } else {
        served_together(first, second.step(schedule[0].1), schedule.drop_first())
    }
}

/// The reads of one of the two connections, in the order of the schedule.
pub open spec fn reads_of(schedule: Seq<(bool, nat)>, first: bool) -> Seq<nat>
    decreases schedule.len(),
{
    if schedule.len() == 0 {
        Seq::empty()
    } else if schedule[0].0 == first {
        seq![schedule[0].1] + reads_of(schedule.drop_first(), first)
    } else {
        reads_of(schedule.drop_first(), first)
    }
}

/// However the reads of two connections interleave, each connection ends
/// where its own reads alone would have taken it.
pub proof fn lemma_connections_are_independent(
    first: Pump,
    second: Pump,
    schedule: Seq<(bool, nat)>,
)
    ensures
        served_together(first, second, schedule) == (
            first.run(reads_of(schedule, true)),
            second.run(reads_of(schedule, false)),
        ),
    decreases schedule.len(),
{
    if schedule.len() > 0 {
        let grant = schedule[0].1;
        let rest = schedule.drop_first();
        if schedule[0].0 {
            lemma_connections_are_independent(first.step(grant), second, rest);
            let own = seq![grant] + reads_of(rest, true);
            assert(own.drop_first() =~= reads_of(rest, true));
            assert(own[0] == grant);
        } else {
            lemma_connections_are_independent(first, second.step(grant), rest);
            let own = seq![grant] + reads_of(rest, false);
            assert(own.drop_first() =~= reads_of(rest, false));
            assert(own[0] == grant);
        }
    }
}

/// A connection that gets its whole file stores it and completes, whatever
/// the connection served beside it does: take its reads, fail, or stall.
pub proof fn lemma_concurrent_receive_completes(
    filename: Seq<char>,
    file: Seq<u8>,
    offer_line: Seq<u8>,
    other: Pump,
    schedule: Seq<(bool, nat)>,
)
    requires
        file.len() <= u64::MAX,
        TransferMessageView::decoded_line(offer_line) == Some(
            TransferMessageView::FileOffer { filename, size: file.len() as u64 },
        ),
    ensures
        reads_of(schedule, true).len() >= file.len() ==> ({
            let receiver = decided_receiver(offer_line, Decision::Accept);
            let end = served_together(receiver.pump(file), other, schedule).0;
            end.sink == file && end.payload == (Payload::Complete { total: file.len() as u64 })
        }),
        reads_of(schedule, false).len() >= file.len() ==> ({
            let receiver = decided_receiver(offer_line, Decision::Accept);
            let end = served_together(other, receiver.pump(file), schedule).1;
            end.sink == file && end.payload == (Payload::Complete { total: file.len() as u64 })
        }),
{
    let receiver = decided_receiver(offer_line, Decision::Accept);
    lemma_connections_are_independent(receiver.pump(file), other, schedule);
    lemma_connections_are_independent(other, receiver.pump(file), schedule);
    if reads_of(schedule, true).len() >= file.len() {
        let own = reads_of(schedule, true);
        lemma_transfer_delivers_file(filename, file, offer_line, own, own);
    }
    if reads_of(schedule, false).len() >= file.len() {
        let own = reads_of(schedule, false);
        lemma_transfer_delivers_file(filename, file, offer_line, own, own);
    }
}

} // verus!
