//! The two message families and their wire encoding.
//!
//! A message without fields is written as its name between double quotes.
//! A message with fields is written as a record (see [`crate::frame`]).
//! Decoding passes over JSON white space before and after the message and
//! accepts a record in exactly that layout; the string field may be any
//! literal that the JSON reader accepts.

use vstd::prelude::*;
use vstd::string::StringSliceAdditionalSpecFns;
use vstd::slice::slice_subrange;
use crate::frame::{build_record, holds_at, is_mark, lemma_record_injective, lemma_record_layout, record, split_record};
use crate::json::{json_string_text, json_string_value, read_json_string, write_json_string};
use crate::line::{
    json_trimmed, lemma_stripped_text, trim, trim_json, trimmed, WhiteSpace, LINE_FEED,
};

verus! {

/// Whether `bytes` is a record with this opening and mark whose string
/// literal reads as `text` and whose number is `number`.
pub open spec fn reads_as_record(
    bytes: Seq<u8>,
    opening: Seq<u8>,
    mark: Seq<u8>,
    text: Seq<char>,
    number: nat,
) -> bool {
    exists|literal: Seq<u8>|
        bytes == #[trigger] record(opening, literal, mark, number) && json_string_value(literal)
            == Some(text)
}

/// A record reads as one text and one number only.
pub proof fn lemma_record_one_reading(
    bytes: Seq<u8>,
    opening: Seq<u8>,
    mark: Seq<u8>,
    text_a: Seq<char>,
    number_a: nat,
    text_b: Seq<char>,
    number_b: nat,
)
    requires
        is_mark(mark),
        reads_as_record(bytes, opening, mark, text_a, number_a),
        reads_as_record(bytes, opening, mark, text_b, number_b),
    ensures
        text_a == text_b,
        number_a == number_b,
{
    let lit_a = choose|literal: Seq<u8>|
        bytes == #[trigger] record(opening, literal, mark, number_a) && json_string_value(literal)
            == Some(text_a);
    let lit_b = choose|literal: Seq<u8>|
        bytes == #[trigger] record(opening, literal, mark, number_b) && json_string_value(literal)
            == Some(text_b);
    lemma_record_injective(opening, mark, lit_a, number_a, lit_b, number_b);
}

/// A record whose literal the JSON reader refuses reads as nothing.
pub proof fn lemma_unread_literal(
    bytes: Seq<u8>,
    opening: Seq<u8>,
    mark: Seq<u8>,
    literal: Seq<u8>,
    number: nat,
    text: Seq<char>,
    other: nat,
)
    requires
        is_mark(mark),
        bytes == record(opening, literal, mark, number),
        json_string_value(literal) is None,
    ensures
        !reads_as_record(bytes, opening, mark, text, other),
{
    if reads_as_record(bytes, opening, mark, text, other) {
        let lit = choose|lit: Seq<u8>|
            bytes == #[trigger] record(opening, lit, mark, other) && json_string_value(lit) == Some(
                text,
            );
        lemma_record_injective(opening, mark, lit, other, literal, number);
    }
}

/// A record starts with its opening.
pub proof fn lemma_record_reading_starts(
    bytes: Seq<u8>,
    opening: Seq<u8>,
    mark: Seq<u8>,
    text: Seq<char>,
    number: nat,
)
    requires
        reads_as_record(bytes, opening, mark, text, number),
    ensures
        bytes.len() >= opening.len() + mark.len() + 3,
        bytes.subrange(0, opening.len() as int) == opening,
        bytes.last() == 125,
{
    let lit = choose|literal: Seq<u8>|
        bytes == #[trigger] record(opening, literal, mark, number) && json_string_value(literal)
            == Some(text);
    lemma_record_layout(opening, lit, mark, number);
    crate::digits::lemma_decimal_canonical(number);
}

/// Writes `s` as a JSON string literal.
fn literal_of(s: &str) -> (out: Vec<u8>)
    ensures
        out@ == json_string_text(s@),
        json_string_value(out@) == Some(s@),
        forall|i: int| 0 <= i < out@.len() ==> out@[i] != LINE_FEED,
{
    match write_json_string(s) {
        Ok(text) => text,
        Err(_) => Vec::new(),
    }
}

/// The UDP port on which hosts ask for and announce receivers.
pub const DISCOVERY_PORT: u16 = 45678;

/// The TCP port on which a receiver accepts files unless told otherwise.
pub const TRANSFER_PORT: u16 = 45679;

/// An IP address, as the number that its bytes spell in network order.
#[derive(Debug, Clone, Copy, PartialEq, Eq, Structural)]
pub enum IpAddress {
    V4(u32),
    V6(u128),
}

/// An IP address and a port.
#[derive(Debug, Clone, Copy, PartialEq, Eq, Structural)]
pub struct SocketAddress {
    pub ip: IpAddress,
    pub port: u16,
}

/// A host that was found on the network and takes files.
#[derive(Debug)]
pub struct Peer {
    /// The name that the host announced.
    pub name: String,
    /// Where the host accepts file connections.
    pub addr: SocketAddress,
}

/// What a [`Peer`] holds, as mathematical values.
pub struct PeerView {
    pub name: Seq<char>,
    pub addr: SocketAddress,
}

impl View for Peer {
    type V = PeerView;

    open spec fn view(&self) -> PeerView {
        PeerView { name: self.name@, addr: self.addr }
    }
}

impl Clone for Peer {
    fn clone(&self) -> (r: Self)
        ensures
            r@ == self@,
    {
        Peer { name: self.name.clone(), addr: self.addr }
    }
}

impl PartialEq for Peer {
    fn eq(&self, other: &Self) -> (r: bool) {
        self.name == other.name && self.addr == other.addr
    }
}

impl vstd::std_specs::cmp::PartialEqSpecImpl for Peer {
    open spec fn obeys_eq_spec() -> bool {
        true
    }

    open spec fn eq_spec(&self, other: &Self) -> bool {
        self@ == other@
    }
}

/// A message of the discovery protocol.
#[derive(Debug)]
pub enum DiscoveryMessage {
    /// A receiver makes itself known.
    Announce { name: String, transfer_port: u16 },
    /// A host asks which receivers are there.
    Query,
}

/// What a [`DiscoveryMessage`] holds, as mathematical values.
pub enum DiscoveryMessageView {
    Announce { name: Seq<char>, transfer_port: u16 },
    Query,
}

impl View for DiscoveryMessage {
    type V = DiscoveryMessageView;

    open spec fn view(&self) -> DiscoveryMessageView {
        match self {
            DiscoveryMessage::Announce { name, transfer_port } => DiscoveryMessageView::Announce {
                name: name@,
                transfer_port: *transfer_port,
            },
            DiscoveryMessage::Query => DiscoveryMessageView::Query,
        }
    }
}

impl Clone for DiscoveryMessage {
    fn clone(&self) -> (r: Self)
        ensures
            r@ == self@,
    {
        match self {
            DiscoveryMessage::Announce { name, transfer_port } => DiscoveryMessage::Announce {
                name: name.clone(),
                transfer_port: *transfer_port,
            },
            DiscoveryMessage::Query => DiscoveryMessage::Query,
        }
    }
}

impl PartialEq for DiscoveryMessage {
    fn eq(&self, other: &Self) -> (r: bool) {
        match (self, other) {
            (
                DiscoveryMessage::Announce { name, transfer_port },
                DiscoveryMessage::Announce { name: other_name, transfer_port: other_port },
            ) => *name == *other_name && *transfer_port == *other_port,
            (DiscoveryMessage::Query, DiscoveryMessage::Query) => true,
            _ => false,
        }
    }
}

impl vstd::std_specs::cmp::PartialEqSpecImpl for DiscoveryMessage {
    open spec fn obeys_eq_spec() -> bool {
        true
    }

    open spec fn eq_spec(&self, other: &Self) -> bool {
        self@ == other@
    }
}

/// The text `"Query"`, quotes included.
pub open spec fn query_text() -> Seq<u8> {
    seq![34u8, 81u8, 117u8, 101u8, 114u8, 121u8, 34u8]
}

/// The text `{"Announce":{"name":`.
pub open spec fn announce_opening() -> Seq<u8> {
    seq![
        123u8, 34u8, 65u8, 110u8, 110u8, 111u8, 117u8, 110u8, 99u8, 101u8, 34u8, 58u8, 123u8, 34u8,
        110u8, 97u8, 109u8, 101u8, 34u8, 58u8,
    ]
}

/// The text `,"transfer_port":`.
pub open spec fn port_mark() -> Seq<u8> {
    seq![
        44u8, 34u8, 116u8, 114u8, 97u8, 110u8, 115u8, 102u8, 101u8, 114u8, 95u8, 112u8, 111u8,
        114u8, 116u8, 34u8, 58u8,
    ]
}

fn query_bytes() -> (r: &'static [u8])
    ensures
        r@ == query_text(),
{
    let s: &'static str = "\"Query\"";
    proof {
        reveal_strlit("\"Query\"");
        vstd::string::is_ascii_spec_bytes(s);
        assert(s.spec_bytes() =~= query_text());
    }
    s.as_bytes()
}

fn announce_opening_bytes() -> (r: &'static [u8])
    ensures
        r@ == announce_opening(),
{
    let s: &'static str = "{\"Announce\":{\"name\":";
    proof {
        reveal_strlit("{\"Announce\":{\"name\":");
        vstd::string::is_ascii_spec_bytes(s);
        assert(s.spec_bytes() =~= announce_opening());
    }
    s.as_bytes()
}

fn port_mark_bytes() -> (r: &'static [u8])
    ensures
        r@ == port_mark(),
{
    let s: &'static str = ",\"transfer_port\":";
    proof {
        reveal_strlit(",\"transfer_port\":");
        vstd::string::is_ascii_spec_bytes(s);
        assert(s.spec_bytes() =~= port_mark());
    }
    s.as_bytes()
}

impl DiscoveryMessageView {
    /// The datagram that carries this message.
    pub open spec fn wire(self) -> Seq<u8> {
        match self {
            DiscoveryMessageView::Query => query_text(),
            DiscoveryMessageView::Announce { name, transfer_port } => record(
                announce_opening(),
                json_string_text(name),
                port_mark(),
                transfer_port as nat,
            ),
        }
    }

    /// Whether `bytes` is a datagram that reads as this message.
    pub open spec fn is_read_from(self, bytes: Seq<u8>) -> bool {
        match self {
            DiscoveryMessageView::Query => bytes == query_text(),
            DiscoveryMessageView::Announce { name, transfer_port } => reads_as_record(
                bytes,
                announce_opening(),
                port_mark(),
                name,
                transfer_port as nat,
            ),
        }
    }

    /// The message that the text `bytes` reads as, if it reads as any.
    pub open spec fn decoded_text(bytes: Seq<u8>) -> Option<DiscoveryMessageView> {
        if exists|m: DiscoveryMessageView| m.is_read_from(bytes) {
            Some(choose|m: DiscoveryMessageView| m.is_read_from(bytes))
        } else {
            None
        }
    }

    /// The message that a datagram decodes to: what its text reads as once
    /// the JSON white space at both ends is passed over.
    pub open spec fn decoded(bytes: Seq<u8>) -> Option<DiscoveryMessageView> {
        Self::decoded_text(json_trimmed(bytes))
    }

    /// Text that reads as a message neither starts nor ends with white space.
    pub proof fn lemma_reading_ends(self, bytes: Seq<u8>)
        requires
            self.is_read_from(bytes),
        ensures
            bytes.len() > 0,
            self is Query ==> bytes[0] == 34 && bytes.last() == 34,
            self is Announce ==> bytes[0] == 123 && bytes.last() == 125,
    {
        if let DiscoveryMessageView::Announce { name, transfer_port } = self {
            lemma_record_reading_starts(
                bytes,
                announce_opening(),
                port_mark(),
                name,
                transfer_port as nat,
            );
            assert(bytes[0] == bytes.subrange(0, announce_opening().len() as int)[0]);
        }
    }

    /// A datagram reads as at most one message.
    pub proof fn lemma_one_reading(bytes: Seq<u8>, a: DiscoveryMessageView, b: DiscoveryMessageView)
        requires
            a.is_read_from(bytes),
            b.is_read_from(bytes),
        ensures
            a == b,
    {
        match (a, b) {
            (
                DiscoveryMessageView::Announce { name: name_a, transfer_port: port_a },
                DiscoveryMessageView::Announce { name: name_b, transfer_port: port_b },
            ) => {
                lemma_record_one_reading(
                    bytes,
                    announce_opening(),
                    port_mark(),
                    name_a,
                    port_a as nat,
                    name_b,
                    port_b as nat,
                );
            },
            (DiscoveryMessageView::Announce { name, transfer_port }, DiscoveryMessageView::Query) => {
                lemma_record_reading_starts(
                    bytes,
                    announce_opening(),
                    port_mark(),
                    name,
                    transfer_port as nat,
                );
                assert(bytes[0] == bytes.subrange(0, announce_opening().len() as int)[0]);
            },
            (DiscoveryMessageView::Query, DiscoveryMessageView::Announce { name, transfer_port }) => {
                lemma_record_reading_starts(
                    bytes,
                    announce_opening(),
                    port_mark(),
                    name,
                    transfer_port as nat,
                );
                assert(bytes[0] == bytes.subrange(0, announce_opening().len() as int)[0]);
            },
            (DiscoveryMessageView::Query, DiscoveryMessageView::Query) => {},
        }
    }

    /// Text that reads as a message reads as no other.
    pub proof fn lemma_decoded_text(self, bytes: Seq<u8>)
        requires
            self.is_read_from(bytes),
        ensures
            Self::decoded_text(bytes) == Some(self),
    {
        let other = choose|m: DiscoveryMessageView| m.is_read_from(bytes);
        Self::lemma_one_reading(bytes, self, other);
    }

    /// A datagram that is text which reads as a message decodes to that
    /// message.
    pub proof fn lemma_decoded(self, bytes: Seq<u8>)
        requires
            self.is_read_from(bytes),
        ensures
            Self::decoded(bytes) == Some(self),
    {
        self.lemma_reading_ends(bytes);
        lemma_stripped_text(bytes, WhiteSpace::Json);
        self.lemma_decoded_text(bytes);
    }
}

impl DiscoveryMessage {
    /// Encodes the message as one datagram.
    ///
    /// The datagram decodes to the same message again.
    pub fn to_bytes(&self) -> (out: Vec<u8>)
        ensures
            out@ == self@.wire(),
            DiscoveryMessageView::decoded(out@) == Some(self@),
    {
        match self {
            DiscoveryMessage::Query => {
                let out = vstd::slice::slice_to_vec(query_bytes());
                proof {
                    self@.lemma_decoded(out@);
                }
                out
            },
            DiscoveryMessage::Announce { name, transfer_port } => {
                let literal = literal_of(name.as_str());
                let out = build_record(
                    announce_opening_bytes(),
                    literal.as_slice(),
                    port_mark_bytes(),
                    *transfer_port as u64,
                );
                proof {
                    assert(out@ == record(
                        announce_opening(),
                        literal@,
                        port_mark(),
                        *transfer_port as nat,
                    ));
                    assert(reads_as_record(
                        out@,
                        announce_opening(),
                        port_mark(),
                        name@,
                        *transfer_port as nat,
                    ));
                    self@.lemma_decoded(out@);
                }
                out
            },
        }
    }

    /// Decodes one datagram. JSON white space before and after the message
    /// is passed over.
    ///
    /// Bytes that are no message give `None`: a listener drops them.
    pub fn from_bytes(bytes: &[u8]) -> (r: Option<DiscoveryMessage>)
        ensures
            match r {
                Some(m) => DiscoveryMessageView::decoded(bytes@) == Some(m@),
                None => DiscoveryMessageView::decoded(bytes@) is None,
            },
    {
        DiscoveryMessage::from_text(trim_json(bytes))
    }

    /// Decodes the text of one message, with nothing around it.
    fn from_text(bytes: &[u8]) -> (r: Option<DiscoveryMessage>)
        ensures
            match r {
                Some(m) => DiscoveryMessageView::decoded_text(bytes@) == Some(m@),
                None => DiscoveryMessageView::decoded_text(bytes@) is None,
            },
    {
        let query = query_bytes();
        if bytes.len() == query.len() && holds_at(bytes, 0, query) {
            assert(bytes@.subrange(0, bytes@.len() as int) =~= bytes@);
            proof {
                DiscoveryMessageView::Query.lemma_decoded_text(bytes@);
            }
            return Some(DiscoveryMessage::Query);
        }
        assert(bytes@ != query_text()) by {
            if bytes@ == query_text() {
                assert(bytes@.subrange(0, bytes@.len() as int) =~= bytes@);
            }
        }
        let opening = announce_opening_bytes();
        let mark = port_mark_bytes();
        let (end, port) = match split_record(bytes, opening, mark, 65535) {
            Some(parts) => parts,
            None => {
                assert forall|m: DiscoveryMessageView| !m.is_read_from(bytes@) by {
                    if let DiscoveryMessageView::Announce { name, transfer_port } = m {
                        assert(transfer_port as nat <= 65535);
                    }
                }
                return None;
            },
        };
        let literal = slice_subrange(bytes, opening.len(), end);
        match read_json_string(literal) {
            Ok(name) => {
                let message = DiscoveryMessage::Announce { name, transfer_port: port as u16 };
                proof {
                    assert(bytes@ == record(
                        announce_opening(),
                        literal@,
                        port_mark(),
                        (port as u16) as nat,
                    ));
                    assert(reads_as_record(
                        bytes@,
                        announce_opening(),
                        port_mark(),
                        name@,
                        (port as u16) as nat,
                    ));
                    message@.lemma_decoded_text(bytes@);
                }
                Some(message)
            },
            Err(_) => {
                assert forall|m: DiscoveryMessageView| !m.is_read_from(bytes@) by {
                    if m.is_read_from(bytes@) {
                        if let DiscoveryMessageView::Announce { name, transfer_port } = m {
                            lemma_unread_literal(
                                bytes@,
                                announce_opening(),
                                port_mark(),
                                literal@,
                                port as nat,
                                name,
                                transfer_port as nat,
                            );
                        }
                    }
                }
                None
            },
        }
    }
}

/// A control message of the transfer protocol.
#[derive(Debug)]
pub enum TransferMessage {
    /// The sender offers a file of `size` bytes.
    FileOffer { filename: String, size: u64 },
    /// The receiver takes the file.
    Accept,
    /// The receiver declines the file.
    Reject,
    /// Reserved: neither side sends it.
    Complete,
}

/// What a [`TransferMessage`] holds, as mathematical values.
pub enum TransferMessageView {
    FileOffer { filename: Seq<char>, size: u64 },
    Accept,
    Reject,
    Complete,
}

impl View for TransferMessage {
    type V = TransferMessageView;

    open spec fn view(&self) -> TransferMessageView {
        match self {
            TransferMessage::FileOffer { filename, size } => TransferMessageView::FileOffer {
                filename: filename@,
                size: *size,
            },
            TransferMessage::Accept => TransferMessageView::Accept,
            TransferMessage::Reject => TransferMessageView::Reject,
            TransferMessage::Complete => TransferMessageView::Complete,
        }
    }
}

impl Clone for TransferMessage {
    fn clone(&self) -> (r: Self)
        ensures
            r@ == self@,
    {
        match self {
            TransferMessage::FileOffer { filename, size } => TransferMessage::FileOffer {
                filename: filename.clone(),
                size: *size,
            },
            TransferMessage::Accept => TransferMessage::Accept,
            TransferMessage::Reject => TransferMessage::Reject,
            TransferMessage::Complete => TransferMessage::Complete,
        }
    }
}

impl PartialEq for TransferMessage {
    fn eq(&self, other: &Self) -> (r: bool) {
        match (self, other) {
            (
                TransferMessage::FileOffer { filename, size },
                TransferMessage::FileOffer { filename: other_name, size: other_size },
            ) => *filename == *other_name && *size == *other_size,
            (TransferMessage::Accept, TransferMessage::Accept) => true,
            (TransferMessage::Reject, TransferMessage::Reject) => true,
            (TransferMessage::Complete, TransferMessage::Complete) => true,
            _ => false,
        }
    }
}

impl vstd::std_specs::cmp::PartialEqSpecImpl for TransferMessage {
    open spec fn obeys_eq_spec() -> bool {
        true
    }

    open spec fn eq_spec(&self, other: &Self) -> bool {
        self@ == other@
    }
}

/// The text `{"FileOffer":{"filename":`.
pub open spec fn offer_opening() -> Seq<u8> {
    seq![
        123u8, 34u8, 70u8, 105u8, 108u8, 101u8, 79u8, 102u8, 102u8, 101u8, 114u8, 34u8, 58u8,
        123u8, 34u8, 102u8, 105u8, 108u8, 101u8, 110u8, 97u8, 109u8, 101u8, 34u8, 58u8,
    ]
}

/// The text `,"size":`.
pub open spec fn size_mark() -> Seq<u8> {
    seq![44u8, 34u8, 115u8, 105u8, 122u8, 101u8, 34u8, 58u8]
}

/// The text `"Accept"`, quotes included.
pub open spec fn accept_text() -> Seq<u8> {
    seq![34u8, 65u8, 99u8, 99u8, 101u8, 112u8, 116u8, 34u8]
}

/// The text `"Reject"`, quotes included.
pub open spec fn reject_text() -> Seq<u8> {
    seq![34u8, 82u8, 101u8, 106u8, 101u8, 99u8, 116u8, 34u8]
}

/// The text `"Complete"`, quotes included.
pub open spec fn complete_text() -> Seq<u8> {
    seq![34u8, 67u8, 111u8, 109u8, 112u8, 108u8, 101u8, 116u8, 101u8, 34u8]
}

fn offer_opening_bytes() -> (r: &'static [u8])
    ensures
        r@ == offer_opening(),
{
    let s: &'static str = "{\"FileOffer\":{\"filename\":";
    proof {
        reveal_strlit("{\"FileOffer\":{\"filename\":");
        vstd::string::is_ascii_spec_bytes(s);
        assert(s.spec_bytes() =~= offer_opening());
    }
    s.as_bytes()
}

fn size_mark_bytes() -> (r: &'static [u8])
    ensures
        r@ == size_mark(),
{
    let s: &'static str = ",\"size\":";
    proof {
        reveal_strlit(",\"size\":");
        vstd::string::is_ascii_spec_bytes(s);
        assert(s.spec_bytes() =~= size_mark());
    }
    s.as_bytes()
}

fn accept_bytes() -> (r: &'static [u8])
    ensures
        r@ == accept_text(),
{
    let s: &'static str = "\"Accept\"";
    proof {
        reveal_strlit("\"Accept\"");
        vstd::string::is_ascii_spec_bytes(s);
        assert(s.spec_bytes() =~= accept_text());
    }
    s.as_bytes()
}

fn reject_bytes() -> (r: &'static [u8])
    ensures
        r@ == reject_text(),
{
    let s: &'static str = "\"Reject\"";
    proof {
        reveal_strlit("\"Reject\"");
        vstd::string::is_ascii_spec_bytes(s);
        assert(s.spec_bytes() =~= reject_text());
    }
    s.as_bytes()
}

fn complete_bytes() -> (r: &'static [u8])
    ensures
        r@ == complete_text(),
{
    let s: &'static str = "\"Complete\"";
    proof {
        reveal_strlit("\"Complete\"");
        vstd::string::is_ascii_spec_bytes(s);
        assert(s.spec_bytes() =~= complete_text());
    }
    s.as_bytes()
}

/// Whether `bytes` is exactly `text`.
fn is_text(bytes: &[u8], text: &[u8]) -> (r: bool)
    ensures
        r == (bytes@ == text@),
{
    assert(bytes@.subrange(0, bytes@.len() as int) =~= bytes@);
    bytes.len() == text.len() && holds_at(bytes, 0, text)
}

impl TransferMessageView {
    /// The text of this message, without the line feed that ends it.
    pub open spec fn body(self) -> Seq<u8> {
        match self {
            TransferMessageView::FileOffer { filename, size } => record(
                offer_opening(),
                json_string_text(filename),
                size_mark(),
                size as nat,
            ),
            TransferMessageView::Accept => accept_text(),
            TransferMessageView::Reject => reject_text(),
            TransferMessageView::Complete => complete_text(),
        }
    }

    /// The line that carries this message: its text and one line feed.
    pub open spec fn wire(self) -> Seq<u8> {
        self.body().push(LINE_FEED)
    }

    /// Whether `bytes` is text that reads as this message.
    pub open spec fn is_read_from(self, bytes: Seq<u8>) -> bool {
        match self {
            TransferMessageView::FileOffer { filename, size } => reads_as_record(
                bytes,
                offer_opening(),
                size_mark(),
                filename,
                size as nat,
            ),
            TransferMessageView::Accept => bytes == accept_text(),
            TransferMessageView::Reject => bytes == reject_text(),
            TransferMessageView::Complete => bytes == complete_text(),
        }
    }

    /// The message that the text `bytes` reads as, if it reads as any.
    pub open spec fn decoded_text(bytes: Seq<u8>) -> Option<TransferMessageView> {
        if exists|m: TransferMessageView| m.is_read_from(bytes) {
            Some(choose|m: TransferMessageView| m.is_read_from(bytes))
        } else {
            None
        }
    }

    /// The message that bytes decode to: what their text reads as once the
    /// JSON white space at both ends, the line feed among it, is passed over.
    pub open spec fn decoded(bytes: Seq<u8>) -> Option<TransferMessageView> {
        Self::decoded_text(json_trimmed(bytes))
    }

    /// The message that a line decodes to once the ASCII white space at its
    /// ends is taken off.
    pub open spec fn decoded_line(line: Seq<u8>) -> Option<TransferMessageView> {
        Self::decoded(trimmed(line))
    }

    /// Text that reads as a message starts and ends as that message's kind does.
    pub proof fn lemma_reading_ends(self, bytes: Seq<u8>)
        requires
            self.is_read_from(bytes),
        ensures
            bytes.len() >= 8,
            self is FileOffer ==> bytes[0] == 123 && bytes.last() == 125,
            self is Accept ==> bytes[0] == 34 && bytes[1] == 65 && bytes.last() == 34,
            self is Reject ==> bytes[0] == 34 && bytes[1] == 82 && bytes.last() == 34,
            self is Complete ==> bytes[0] == 34 && bytes[1] == 67 && bytes.last() == 34,
    {
        if let TransferMessageView::FileOffer { filename, size } = self {
            lemma_record_reading_starts(bytes, offer_opening(), size_mark(), filename, size as nat);
            assert(bytes[0] == bytes.subrange(0, offer_opening().len() as int)[0]);
        }
    }

    /// Text reads as at most one message.
    pub proof fn lemma_one_reading(bytes: Seq<u8>, a: TransferMessageView, b: TransferMessageView)
        requires
            a.is_read_from(bytes),
            b.is_read_from(bytes),
        ensures
            a == b,
    {
        a.lemma_reading_ends(bytes);
        b.lemma_reading_ends(bytes);
        if let TransferMessageView::FileOffer { filename: name_a, size: size_a } = a {
            if let TransferMessageView::FileOffer { filename: name_b, size: size_b } = b {
                lemma_record_one_reading(
                    bytes,
                    offer_opening(),
                    size_mark(),
                    name_a,
                    size_a as nat,
                    name_b,
                    size_b as nat,
                );
            }
        }
    }

    /// Text that reads as a message reads as no other.
    pub proof fn lemma_decoded_text(self, bytes: Seq<u8>)
        requires
            self.is_read_from(bytes),
        ensures
            Self::decoded_text(bytes) == Some(self),
    {
        let other = choose|m: TransferMessageView| m.is_read_from(bytes);
        Self::lemma_one_reading(bytes, self, other);
    }

    /// Text that reads as a message decodes to that message, with or without
    /// the line feed after it.
    pub proof fn lemma_decoded(self, bytes: Seq<u8>)
        requires
            self.is_read_from(bytes),
        ensures
            Self::decoded(bytes) == Some(self),
            Self::decoded(bytes.push(LINE_FEED)) == Some(self),
    {
        self.lemma_reading_ends(bytes);
        lemma_stripped_text(bytes, WhiteSpace::Json);
        self.lemma_decoded_text(bytes);
    }

    /// A line made of text that reads as a message, and a line feed, decodes
    /// to that message.
    pub proof fn lemma_decoded_line(self, bytes: Seq<u8>)
        requires
            self.is_read_from(bytes),
        ensures
            Self::decoded_line(bytes.push(LINE_FEED)) == Some(self),
    {
        self.lemma_reading_ends(bytes);
        lemma_stripped_text(bytes, WhiteSpace::Ascii);
        self.lemma_decoded(bytes);
    }
}

impl TransferMessage {
    /// Encodes the message as one line: its text, then a line feed.
    ///
    /// The line feed is the only one in the line, so a reader that stops at
    /// the first line feed has read the message and nothing else; and the
    /// line decodes to the same message again, as bytes and as a line.
    pub fn to_bytes(&self) -> (out: Vec<u8>)
        ensures
            out@ == self@.wire(),
            forall|i: int| 0 <= i < out@.len() - 1 ==> out@[i] != LINE_FEED,
            TransferMessageView::decoded(out@) == Some(self@),
            TransferMessageView::decoded_line(out@) == Some(self@),
    {
        let mut out = match self {
            TransferMessage::FileOffer { filename, size } => {
                let literal = literal_of(filename.as_str());
                let out = build_record(
                    offer_opening_bytes(),
                    literal.as_slice(),
                    size_mark_bytes(),
                    *size,
                );
                proof {
                    assert(out@ == record(offer_opening(), literal@, size_mark(), *size as nat));
                    assert(reads_as_record(
                        out@,
                        offer_opening(),
                        size_mark(),
                        filename@,
                        *size as nat,
                    ));
                    lemma_record_has_no_line_feed(
                        offer_opening(),
                        literal@,
                        size_mark(),
                        *size as nat,
                    );
                }
                out
            },
            TransferMessage::Accept => vstd::slice::slice_to_vec(accept_bytes()),
            TransferMessage::Reject => vstd::slice::slice_to_vec(reject_bytes()),
            TransferMessage::Complete => vstd::slice::slice_to_vec(complete_bytes()),
        };
        proof {
            assert(out@ == self@.body());
            assert(self@.is_read_from(out@));
            self@.lemma_decoded(out@);
            self@.lemma_decoded_line(out@);
        }
        out.push(LINE_FEED);
        out
    }

    /// Decodes one message. JSON white space before and after it, such as
    /// the line feed that ends its line, is passed over.
    ///
    /// Bytes that are no message give `None`.
    pub fn from_bytes(bytes: &[u8]) -> (r: Option<TransferMessage>)
        ensures
            match r {
                Some(m) => TransferMessageView::decoded(bytes@) == Some(m@),
                None => TransferMessageView::decoded(bytes@) is None,
            },
    {
        TransferMessage::from_text(trim_json(bytes))
    }

    /// Decodes the text of one message, with nothing around it.
    fn from_text(bytes: &[u8]) -> (r: Option<TransferMessage>)
        ensures
            match r {
                Some(m) => TransferMessageView::decoded_text(bytes@) == Some(m@),
                None => TransferMessageView::decoded_text(bytes@) is None,
            },
    {
        if is_text(bytes, accept_bytes()) {
            proof {
                TransferMessageView::Accept.lemma_decoded_text(bytes@);
            }
            return Some(TransferMessage::Accept);
        }
        if is_text(bytes, reject_bytes()) {
            proof {
                TransferMessageView::Reject.lemma_decoded_text(bytes@);
            }
            return Some(TransferMessage::Reject);
        }
        if is_text(bytes, complete_bytes()) {
            proof {
                TransferMessageView::Complete.lemma_decoded_text(bytes@);
            }
            return Some(TransferMessage::Complete);
        }
        let opening = offer_opening_bytes();
        let mark = size_mark_bytes();
        let (end, size) = match split_record(bytes, opening, mark, u64::MAX) {
            Some(parts) => parts,
            None => {
                assert forall|m: TransferMessageView| !m.is_read_from(bytes@) by {
                    if let TransferMessageView::FileOffer { filename, size } = m {
                        assert(size as nat <= u64::MAX);
                    }
                }
                return None;
            },
        };
        let literal = slice_subrange(bytes, opening.len(), end);
        match read_json_string(literal) {
            Ok(filename) => {
                let message = TransferMessage::FileOffer { filename, size };
                proof {
                    assert(bytes@ == record(offer_opening(), literal@, size_mark(), size as nat));
                    assert(reads_as_record(
                        bytes@,
                        offer_opening(),
                        size_mark(),
                        filename@,
                        size as nat,
                    ));
                    message@.lemma_decoded_text(bytes@);
                }
                Some(message)
            },
            Err(_) => {
                assert forall|m: TransferMessageView| !m.is_read_from(bytes@) by {
                    if m.is_read_from(bytes@) {
                        if let TransferMessageView::FileOffer { filename, size: other } = m {
                            lemma_unread_literal(
                                bytes@,
                                offer_opening(),
                                size_mark(),
                                literal@,
                                size as nat,
                                filename,
                                other as nat,
                            );
                        }
                    }
                }
                None
            },
        }
    }

    /// Decodes one line as it was read from the connection: the white space
    /// at its ends, the line feed among it, is taken off first.
    ///
    /// An empty line, which is what a closed connection gives, is no message.
    pub fn from_line(line: &[u8]) -> (r: Option<TransferMessage>)
        ensures
            match r {
                Some(m) => TransferMessageView::decoded_line(line@) == Some(m@),
                None => TransferMessageView::decoded_line(line@) is None,
            },
    {
        TransferMessage::from_bytes(trim(line))
    }
}

/// A record holds no line feed unless its literal or its mark or opening does.
pub proof fn lemma_record_has_no_line_feed(
    opening: Seq<u8>,
    literal: Seq<u8>,
    mark: Seq<u8>,
    number: nat,
)
    requires
        forall|i: int| 0 <= i < opening.len() ==> opening[i] != LINE_FEED,
        forall|i: int| 0 <= i < literal.len() ==> literal[i] != LINE_FEED,
        forall|i: int| 0 <= i < mark.len() ==> mark[i] != LINE_FEED,
    ensures
        forall|i: int|
            0 <= i < record(opening, literal, mark, number).len() ==> record(
                opening,
                literal,
                mark,
                number,
            )[i] != LINE_FEED,
{
    crate::digits::lemma_decimal_canonical(number);
    let d = crate::digits::decimal(number);
    let r = record(opening, literal, mark, number);
    assert forall|i: int| 0 <= i < r.len() implies r[i] != LINE_FEED by {
        let a = opening.len() as int;
        let b = a + literal.len();
        let c = b + mark.len();
        let e = c + d.len();
        if i < a {
            assert(r[i] == opening[i]);
        } else if i < b {
            assert(r[i] == literal[i - a]);
        } else if i < c {
            assert(r[i] == mark[i - b]);
        } else if i < e {
            assert(r[i] == d[i - c]);
            assert(crate::digits::is_digit(d[i - c]));
        } else {
        }
    }
}

} // verus!
