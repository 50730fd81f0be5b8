//! Moving one file over one connection.
//!
//! The sender offers the file and waits for one reply; the receiver reads the
//! offer, decides, and replies. After an acceptance exactly as many bytes as
//! the offer announced follow, chunk by chunk. Each side is a state with
//! transitions: the caller does the reading and writing and reports what
//! came of it.

use vstd::prelude::*;
use crate::protocol::{TransferMessage, TransferMessageView};

verus! {

/// The most bytes that are moved in one step: 64 KiB.
pub const CHUNK_SIZE: usize = 65536;

/// Why a transfer failed.
#[derive(Debug, Clone, Copy, PartialEq, Eq, Structural)]
pub enum TransferError {
    /// The peer sent something other than the message that was due, or
    /// closed the connection in its place.
    ProtocolViolation,
    /// The bytes ended after `transferred` of the `expected` ones.
    PrematureTermination { transferred: u64, expected: u64 },
}

/// How a transfer ended where it did not fail.
#[derive(Debug, Clone, Copy, PartialEq, Eq, Structural)]
pub enum TransferOutcome {
    /// Every byte of the file was moved.
    Completed,
    /// The receiver declined the offer; no byte of the file was moved.
    Declined,
}

/// What a receiver answers to an offer.
#[derive(Debug, Clone, Copy, PartialEq, Eq, Structural)]
pub enum Decision {
    Accept,
    Reject,
}

/// The policy that takes every file.
pub fn accept_all(filename: &str, size: u64) -> (d: Decision)
    ensures
        d == Decision::Accept,
{
    Decision::Accept
}

/// The name under which a file is offered: its own where it has one that is
/// text, else `unknown`.
pub fn offered_name(name: Option<&str>) -> (r: String)
    ensures
        r@ == match name {
            Some(text) => text@,
            None => "unknown"@,
        },
{
    match name {
        Some(text) => text.to_owned(),
        None => "unknown".to_owned(),
    }
}

/// How far the bytes of a file have been moved.
#[derive(Debug, Clone, Copy, PartialEq, Eq, Structural)]
pub enum Payload {
    /// `done` of `total` bytes have been moved and more are to come.
    Moving { done: u64, total: u64 },
    /// All `total` bytes have been moved.
    Complete { total: u64 },
    /// The source ended after `done` of `total` bytes.
    Cut { done: u64, total: u64 },
}

impl Payload {
    /// The payload of a file of `total` bytes before any byte has moved.
    /// An empty file is complete at once.
    pub open spec fn begin_spec(total: u64) -> Payload {
        if total == 0 {
            Payload::Complete { total }
        } else {
            Payload::Moving { done: 0, total }
        }
    }

    /// How many bytes the next step asks for: what is left, up to one chunk.
    pub open spec fn wanted(self) -> nat {
        match self {
            Payload::Moving { done, total } => if done >= total {
                0
            } else if total - done < CHUNK_SIZE {
                (total - done) as nat
            } else {
                CHUNK_SIZE as nat
            },
            _ => 0,
        }
    }

    /// The payload after a step that moved `n` bytes. A step that moved none
    /// found its source ended.
    pub open spec fn after_chunk(self, n: nat) -> Payload {
        match self {
            Payload::Moving { done, total } => if n == 0 {
                Payload::Cut { done, total }
            } else if done + n >= total {
                Payload::Complete { total }
            } else {
                Payload::Moving { done: (done + n) as u64, total }
            },
            _ => self,
        }
    }

    /// How many bytes have been moved.
    pub open spec fn moved(self) -> u64 {
        match self {
            Payload::Moving { done, .. } => done,
            Payload::Complete { total } => total,
            Payload::Cut { done, .. } => done,
        }
    }

    /// How many bytes the file has.
    pub open spec fn total(self) -> u64 {
        match self {
            Payload::Moving { total, .. } => total,
            Payload::Complete { total } => total,
            Payload::Cut { total, .. } => total,
        }
    }

    /// How the payload stands as an outcome: none while bytes are to come.
    pub open spec fn outcome_spec(self) -> Option<Result<TransferOutcome, TransferError>> {
        match self {
            Payload::Moving { .. } => None,
            Payload::Complete { .. } => Some(Ok(TransferOutcome::Completed)),
            Payload::Cut { done, total } => Some(
                Err(TransferError::PrematureTermination { transferred: done, expected: total }),
            ),
        }
    }

    /// Starts the payload of a file of `total` bytes.
    pub fn begin(total: u64) -> (r: Payload)
        ensures
            r == Payload::begin_spec(total),
    {
        if total == 0 {
            Payload::Complete { total }
        } else {
            Payload::Moving { done: 0, total }
        }
    }

    /// The number of bytes to ask for in the next step.
    pub fn chunk_len(&self) -> (n: usize)
        ensures
            n == self.wanted(),
            n <= CHUNK_SIZE,
    {
        match self {
            Payload::Moving { done, total } => {
                if *done >= *total {
                    0
                } else if *total - *done < CHUNK_SIZE as u64 {
                    (*total - *done) as usize
                } else {
                    CHUNK_SIZE
                }
            },
            _ => 0,
        }
    }

    /// Takes in a step that moved `n` bytes.
    pub fn on_chunk(self, n: usize) -> (r: Payload)
        requires
            n <= self.wanted(),
        ensures
            r == self.after_chunk(n as nat),
    {
        match self {
            Payload::Moving { done, total } => {
                if n == 0 {
                    Payload::Cut { done, total }
                } else if n as u64 >= total - done {
                    Payload::Complete { total }
                } else {
                    Payload::Moving { done: done + n as u64, total }
                }
            },
            _ => self,
        }
    }

    /// The bytes moved so far and the bytes of the file: what a caller shows
    /// as progress after each step.
    pub fn progress(&self) -> (r: (u64, u64))
        ensures
            r.0 == self.moved(),
            r.1 == self.total(),
    {
        match self {
            Payload::Moving { done, total } => (*done, *total),
            Payload::Complete { total } => (*total, *total),
            Payload::Cut { done, total } => (*done, *total),
        }
    }
}

/// Where the sending side of a transfer stands.
#[derive(Debug, Clone, Copy, PartialEq, Eq, Structural)]
pub enum SendState {
    /// The offer of a file of `size` bytes is out; one reply is due.
    AwaitingReply { size: u64 },
    /// The receiver accepted; the payload is on its way or at its end.
    Streaming { payload: Payload },
    /// The receiver declined.
    Declined,
    /// The reply was neither an acceptance nor a refusal.
    Violated,
}

impl SendState {
    /// The state after the reply, `None` standing for a line that is no message.
    pub open spec fn after_reply(self, reply: Option<TransferMessageView>) -> SendState {
        match self {
            SendState::AwaitingReply { size } => match reply {
                Some(TransferMessageView::Accept) => SendState::Streaming {
                    payload: Payload::begin_spec(size),
                },
                Some(TransferMessageView::Reject) => SendState::Declined,
                _ => SendState::Violated,
            },
            _ => self,
        }
    }

    /// How many bytes of the file to read and send next.
    pub open spec fn wanted(self) -> nat {
        match self {
            SendState::Streaming { payload } => payload.wanted(),
            _ => 0,
        }
    }

    /// The state after `n` bytes of the file were read and sent.
    pub open spec fn after_chunk(self, n: nat) -> SendState {
        match self {
            SendState::Streaming { payload } => SendState::Streaming {
                payload: payload.after_chunk(n),
            },
            _ => self,
        }
    }

    /// How many bytes of the file have been sent.
    pub open spec fn sent(self) -> u64 {
        match self {
            SendState::Streaming { payload } => payload.moved(),
            _ => 0,
        }
    }

    /// How the transfer ended, or `None` while it goes on.
    pub open spec fn outcome_spec(self) -> Option<Result<TransferOutcome, TransferError>> {
        match self {
            SendState::AwaitingReply { .. } => None,
            SendState::Streaming { payload } => payload.outcome_spec(),
            SendState::Declined => Some(Ok(TransferOutcome::Declined)),
            SendState::Violated => Some(Err(TransferError::ProtocolViolation)),
        }
    }

    /// Opens a transfer: the state to start from and the line to send first,
    /// which offers `filename` with its `size`.
    pub fn offer(filename: String, size: u64) -> (r: (SendState, Vec<u8>))
        ensures
            r.0 == (SendState::AwaitingReply { size }),
            r.1@ == (TransferMessageView::FileOffer { filename: filename@, size }).wire(),
            TransferMessageView::decoded_line(r.1@) == Some(
                TransferMessageView::FileOffer { filename: filename@, size },
            ),
    {
        let message = TransferMessage::FileOffer { filename, size };
        (SendState::AwaitingReply { size }, message.to_bytes())
    }

    /// Takes in the line that the receiver sent in reply; a closed connection
    /// counts as an empty line.
    ///
    /// An acceptance starts the payload, a refusal ends the transfer without
    /// error, and anything else is a protocol violation.
    pub fn on_reply(self, line: &[u8]) -> (r: SendState)
        ensures
            r == self.after_reply(TransferMessageView::decoded_line(line@)),
    {
        match self {
            SendState::AwaitingReply { size } => match TransferMessage::from_line(line) {
                Some(TransferMessage::Accept) => SendState::Streaming {
                    payload: Payload::begin(size),
                },
                Some(TransferMessage::Reject) => SendState::Declined,
                _ => SendState::Violated,
            },
            _ => self,
        }
    }

    /// The number of bytes to read from the file and send next; zero where
    /// nothing is to be sent.
    pub fn chunk_len(&self) -> (n: usize)
        ensures
            n == self.wanted(),
            n <= CHUNK_SIZE,
    {
        match self {
            SendState::Streaming { payload } => payload.chunk_len(),
            _ => 0,
        }
    }

    /// Takes in that `n` bytes were read from the file and sent; `n` is zero
    /// where the file had ended.
    pub fn on_chunk(self, n: usize) -> (r: SendState)
        requires
            n <= self.wanted(),
        ensures
            r == self.after_chunk(n as nat),
    {
        match self {
            SendState::Streaming { payload } => SendState::Streaming {
                payload: payload.on_chunk(n),
            },
            _ => self,
        }
    }

    /// The bytes sent so far and the size of the file, for a transfer that
    /// was accepted.
    pub fn progress(&self) -> (r: Option<(u64, u64)>)
        ensures
            r == match *self {
                SendState::Streaming { payload } => Some((payload.moved(), payload.total())),
                _ => None,
            },
    {
        match self {
            SendState::Streaming { payload } => Some(payload.progress()),
            _ => None,
        }
    }

    /// How the transfer ended, or `None` while it goes on.
    pub fn outcome(&self) -> (r: Option<Result<TransferOutcome, TransferError>>)
        ensures
            r == self.outcome_spec(),
    {
        match self {
            SendState::AwaitingReply { .. } => None,
            SendState::Streaming { payload } => payload_outcome(payload),
            SendState::Declined => Some(Ok(TransferOutcome::Declined)),
            SendState::Violated => Some(Err(TransferError::ProtocolViolation)),
        }
    }
}

fn payload_outcome(payload: &Payload) -> (r: Option<Result<TransferOutcome, TransferError>>)
    ensures
        r == payload.outcome_spec(),
{
    match payload {
        Payload::Moving { .. } => None,
        Payload::Complete { .. } => Some(Ok(TransferOutcome::Completed)),
        Payload::Cut { done, total } => Some(
            Err(TransferError::PrematureTermination { transferred: *done, expected: *total }),
        ),
    }
}

/// Where the receiving side of one connection stands.
#[derive(Debug, Clone, Copy, PartialEq, Eq, Structural)]
pub enum ReceiveState {
    /// The connection is open; the offer is due.
    AwaitingOffer,
    /// A file of `size` bytes was offered; the decision is due.
    Deciding { size: u64 },
    /// The offer was accepted; the payload is on its way or at its end.
    Receiving { payload: Payload },
    /// The offer was declined.
    Declined,
    /// The first line was no offer.
    Violated,
}

impl ReceiveState {
    /// The state after the first line, `None` standing for a line that is no
    /// message.
    pub open spec fn after_offer(self, offer: Option<TransferMessageView>) -> ReceiveState {
        match self {
            ReceiveState::AwaitingOffer => match offer {
                Some(TransferMessageView::FileOffer { size, .. }) => ReceiveState::Deciding { size },
                _ => ReceiveState::Violated,
            },
            _ => self,
        }
    }

    /// The name and size of the file that the first line offers, where this
    /// state waits for an offer and the line is one.
    pub open spec fn offered(self, offer: Option<TransferMessageView>) -> Option<(Seq<char>, u64)> {
        match (self, offer) {
            (
                ReceiveState::AwaitingOffer,
                Some(TransferMessageView::FileOffer { filename, size }),
            ) => Some((filename, size)),
            _ => None,
        }
    }

    /// The state after the decision on the offer.
    pub open spec fn after_decision(self, decision: Decision) -> ReceiveState {
        match self {
            ReceiveState::Deciding { size } => match decision {
                Decision::Accept => ReceiveState::Receiving { payload: Payload::begin_spec(size) },
                Decision::Reject => ReceiveState::Declined,
            },
            _ => self,
        }
    }

    /// The line that tells the sender of the decision; nothing where no
    /// decision was due.
    pub open spec fn reply_for(self, decision: Decision) -> Seq<u8> {
        match self {
            ReceiveState::Deciding { .. } => match decision {
                Decision::Accept => TransferMessageView::Accept.wire(),
                Decision::Reject => TransferMessageView::Reject.wire(),
            },
            _ => Seq::empty(),
        }
    }

    /// How many bytes to read from the connection next.
    pub open spec fn wanted(self) -> nat {
        match self {
            ReceiveState::Receiving { payload } => payload.wanted(),
            _ => 0,
        }
    }

    /// The state after `n` bytes were read and written to the file.
    pub open spec fn after_chunk(self, n: nat) -> ReceiveState {
        match self {
            ReceiveState::Receiving { payload } => ReceiveState::Receiving {
                payload: payload.after_chunk(n),
            },
            _ => self,
        }
    }

    /// How the transfer ended, or `None` while it goes on.
    pub open spec fn outcome_spec(self) -> Option<Result<TransferOutcome, TransferError>> {
        match self {
            ReceiveState::AwaitingOffer => None,
            ReceiveState::Deciding { .. } => None,
            ReceiveState::Receiving { payload } => payload.outcome_spec(),
            ReceiveState::Declined => Some(Ok(TransferOutcome::Declined)),
            ReceiveState::Violated => Some(Err(TransferError::ProtocolViolation)),
        }
    }

    /// The state of a connection that was just accepted.
    pub fn new() -> (r: ReceiveState)
        ensures
            r == ReceiveState::AwaitingOffer,
    {
        ReceiveState::AwaitingOffer
    }

    /// Takes in the first line of the connection; a closed connection counts
    /// as an empty line.
    ///
    /// An offer is handed back with the state in which its decision is due.
    /// Anything else is a protocol violation.
    pub fn on_offer(self, line: &[u8]) -> (r: (ReceiveState, Option<(String, u64)>))
        ensures
            r.0 == self.after_offer(TransferMessageView::decoded_line(line@)),
            match r.1 {
                Some((filename, size)) => self.offered(TransferMessageView::decoded_line(line@))
                    == Some((filename@, size)),
                None => self.offered(TransferMessageView::decoded_line(line@)) is None,
            },
    {
        match self {
            ReceiveState::AwaitingOffer => match TransferMessage::from_line(line) {
                Some(TransferMessage::FileOffer { filename, size }) => (
                    ReceiveState::Deciding { size },
                    Some((filename, size)),
                ),
                _ => (ReceiveState::Violated, None),
            },
            _ => (self, None),
        }
    }

    /// Takes in the decision on the offer and gives the line to send back.
    ///
    /// After an acceptance the payload begins; after a refusal the transfer
    /// is over and nothing more is read.
    pub fn decide(self, decision: Decision) -> (r: (ReceiveState, Vec<u8>))
        ensures
            r.0 == self.after_decision(decision),
            r.1@ == self.reply_for(decision),
    {
        match self {
            ReceiveState::Deciding { size } => match decision {
                Decision::Accept => (
                    ReceiveState::Receiving { payload: Payload::begin(size) },
                    TransferMessage::Accept.to_bytes(),
                ),
                Decision::Reject => (ReceiveState::Declined, TransferMessage::Reject.to_bytes()),
            },
            _ => (self, Vec::new()),
        }
    }

    /// The number of bytes to read from the connection next; zero where
    /// nothing is to be read. It never reaches past the end of the file.
    pub fn chunk_len(&self) -> (n: usize)
        ensures
            n == self.wanted(),
            n <= CHUNK_SIZE,
    {
        match self {
            ReceiveState::Receiving { payload } => payload.chunk_len(),
            _ => 0,
        }
    }

    /// Takes in that `n` bytes were read and written to the file; `n` is zero
    /// where the connection was closed.
    pub fn on_chunk(self, n: usize) -> (r: ReceiveState)
        requires
            n <= self.wanted(),
        ensures
            r == self.after_chunk(n as nat),
    {
        match self {
            ReceiveState::Receiving { payload } => ReceiveState::Receiving {
                payload: payload.on_chunk(n),
            },
            _ => self,
        }
    }

    /// The bytes received so far and the size of the file, for a transfer
    /// that was accepted.
    pub fn progress(&self) -> (r: Option<(u64, u64)>)
        ensures
            r == match *self {
                ReceiveState::Receiving { payload } => Some((payload.moved(), payload.total())),
                _ => None,
            },
    {
        match self {
            ReceiveState::Receiving { payload } => Some(payload.progress()),
            _ => None,
        }
    }

    /// How the transfer ended, or `None` while it goes on.
    pub fn outcome(&self) -> (r: Option<Result<TransferOutcome, TransferError>>)
        ensures
            r == self.outcome_spec(),
    {
        match self {
            ReceiveState::AwaitingOffer => None,
            ReceiveState::Deciding { .. } => None,
            ReceiveState::Receiving { payload } => payload_outcome(payload),
            ReceiveState::Declined => Some(Ok(TransferOutcome::Declined)),
            ReceiveState::Violated => Some(Err(TransferError::ProtocolViolation)),
        }
    }
}

} // verus!
