//! Finding receivers on the local network.
//!
//! A host that looks for receivers broadcasts a query and keeps a table of
//! the announcements that come back. A receiver answers each query with an
//! announcement of its own. Both are decisions on datagrams; the socket
//! belongs to the caller.

use vstd::prelude::*;
use crate::protocol::{
    DiscoveryMessage, DiscoveryMessageView, IpAddress, Peer, PeerView, SocketAddress,
    DISCOVERY_PORT,
};

verus! {

/// Where a query is sent: the broadcast address, on the discovery port.
pub fn query_target() -> (r: SocketAddress)
    ensures
        r == (SocketAddress { ip: IpAddress::V4(0xffff_ffff), port: DISCOVERY_PORT }),
{
    SocketAddress { ip: IpAddress::V4(0xffff_ffff), port: DISCOVERY_PORT }
}

/// Where a receiver listens for queries: every interface, on the discovery port.
pub fn listen_address() -> (r: SocketAddress)
    ensures
        r == (SocketAddress { ip: IpAddress::V4(0), port: DISCOVERY_PORT }),
{
    SocketAddress { ip: IpAddress::V4(0), port: DISCOVERY_PORT }
}

/// The peer that an announcement from `source` describes: the announced
/// name, at the source's address and the announced port.
pub open spec fn announced_peer(source: IpAddress, name: Seq<char>, transfer_port: u16) -> PeerView {
    PeerView { name, addr: SocketAddress { ip: source, port: transfer_port } }
}

/// The table after a datagram from `source`: an announcement takes the
/// source's entry, anything else leaves the table as it was.
pub open spec fn after_datagram(
    table: Map<IpAddress, PeerView>,
    source: IpAddress,
    datagram: Seq<u8>,
) -> Map<IpAddress, PeerView> {
    match DiscoveryMessageView::decoded(datagram) {
        Some(DiscoveryMessageView::Announce { name, transfer_port }) => table.insert(
            source,
            announced_peer(source, name, transfer_port),
        ),
        _ => table,
    }
}

/// What a receiver sends back for a datagram: its announcement for a query,
/// nothing for anything else.
pub open spec fn answer_for(datagram: Seq<u8>, name: Seq<char>, transfer_port: u16) -> Option<
    Seq<u8>,
> {
    match DiscoveryMessageView::decoded(datagram) {
        Some(DiscoveryMessageView::Query) => Some(
            (DiscoveryMessageView::Announce { name, transfer_port }).wire(),
        ),
        _ => None,
    }
}

/// Decides what a receiver named `name`, which takes files on
/// `transfer_port`, sends back to the source of `datagram`.
///
/// A query is answered with the receiver's announcement. An announcement of
/// another host, or bytes that are no message, are passed over: the answer is
/// `None`, never an error, and nothing is kept from one datagram to the next.
pub fn answer(datagram: &[u8], name: &str, transfer_port: u16) -> (reply: Option<Vec<u8>>)
    ensures
        match reply {
            Some(bytes) => answer_for(datagram@, name@, transfer_port) == Some(bytes@)
                && DiscoveryMessageView::decoded(bytes@) == Some(
                DiscoveryMessageView::Announce { name: name@, transfer_port },
            ),
            None => answer_for(datagram@, name@, transfer_port) is None,
        },
        DiscoveryMessageView::decoded(datagram@) is None ==> reply is None,
{
    match DiscoveryMessage::from_bytes(datagram) {
        Some(DiscoveryMessage::Query) => {
            let announce = DiscoveryMessage::Announce { name: name.to_owned(), transfer_port };
            Some(announce.to_bytes())
        },
        _ => None,
    }
}

/// Whether no two peers of `peers` have the same IP address.
pub open spec fn distinct_sources(peers: Seq<Peer>) -> bool {
    forall|i: int, j: int|
        0 <= i < j < peers.len() ==> (#[trigger] peers[i]).addr.ip != (#[trigger] peers[j]).addr.ip
}

/// Whether `peers` lists the entries of `table`, each once, in any order.
pub open spec fn lists(peers: Seq<Peer>, table: Map<IpAddress, PeerView>) -> bool {
    &&& distinct_sources(peers)
    &&& forall|i: int|
        0 <= i < peers.len() ==> table.contains_key((#[trigger] peers[i]).addr.ip) && table[peers[i].addr.ip]
            == peers[i]@
    &&& forall|ip: IpAddress| #[trigger]
        table.contains_key(ip) ==> exists|i: int|
            0 <= i < peers.len() && (#[trigger] peers[i]).addr.ip == ip
}

/// The peers heard of during one discovery, one entry for each source address.
pub struct PeerTable {
    peers: Vec<Peer>,
}

impl PeerTable {
    #[verifier::type_invariant]
    spec fn well_formed(self) -> bool {
        distinct_sources(self.peers@)
    }

    /// The table as a map from source address to peer.
    pub closed spec fn view(&self) -> Map<IpAddress, PeerView> {
        Map::new(
            |ip: IpAddress| exists|i: int| 0 <= i < self.peers@.len() && (#[trigger] self.peers@[i]).addr.ip == ip,
            |ip: IpAddress|
                self.peers@[choose|i: int|
                    0 <= i < self.peers@.len() && (#[trigger] self.peers@[i]).addr.ip == ip]@,
        )
    }

    /// An empty table.
    pub fn new() -> (r: PeerTable)
        ensures
            r@ == Map::<IpAddress, PeerView>::empty(),
    {
        let r = PeerTable { peers: Vec::new() };
        assert(r@ =~= Map::<IpAddress, PeerView>::empty());
        r
    }

    /// The number of peers in the table.
    pub fn len(&self) -> (n: usize)
        ensures
            n == self@.dom().len(),
            self@.dom().finite(),
    {
        proof {
            use_type_invariant(&*self);
            lemma_listing_len(self.peers@, self@);
        }
        self.peers.len()
    }

    /// Puts `peer` in the place of the entry with its IP address, or adds it
    /// where there is none.
    pub fn record(&mut self, peer: Peer)
        ensures
            final(self)@ == old(self)@.insert(peer.addr.ip, peer@),
    {
        proof {
            use_type_invariant(&*self);
        }
        let ghost before = self.peers@;
        let ghost table = self@;
        let ghost entry = peer@;
        let ip = peer.addr.ip;
        let mut peers: Vec<Peer> = Vec::new();
        core::mem::swap(&mut peers, &mut self.peers);
        let mut i: usize = 0;
        while i < peers.len() && peers[i].addr.ip != ip
            invariant
                i <= peers.len(),
                peers@ == before,
                forall|j: int| 0 <= j < i ==> (#[trigger] peers@[j]).addr.ip != ip,
            decreases peers.len() - i,
        {
            i = i + 1;
        }
        if i < peers.len() {
            peers.set(i, peer);
        } else {
            peers.push(peer);
        }
        proof {
            assert forall|a: int, b: int| 0 <= a < b < peers@.len() implies (#[trigger] peers@[a]).addr.ip
                != (#[trigger] peers@[b]).addr.ip by {
                if a != i && b != i {
                    assert(peers@[a] == before[a] && peers@[b] == before[b]);
                } else if a == i {
                    if i < before.len() {
                        assert(peers@[b] == before[b]);
                        assert(before[i as int].addr.ip == ip);
                    }
                } else {
                    assert(peers@[a] == before[a]);
                    if i < before.len() {
                        assert(before[i as int].addr.ip == ip);
                    }
                }
            }
        }
        self.peers = peers;
        proof {
            let after = self.peers@;
            let goal = table.insert(ip, entry);
            assert(after[i as int]@ == entry);
            assert forall|k: IpAddress| self@.contains_key(k) == goal.contains_key(k) by {
                if self@.contains_key(k) {
                    let j = choose|j: int| 0 <= j < after.len() && (#[trigger] after[j]).addr.ip == k;
                    if j != i {
                        assert(before[j].addr.ip == k);
                    }
                }
                if goal.contains_key(k) {
                    if k == ip {
                        assert(after[i as int].addr.ip == k);
                    } else {
                        let j = choose|j: int|
                            0 <= j < before.len() && (#[trigger] before[j]).addr.ip == k;
                        assert(after[j].addr.ip == k);
                    }
                }
            }
            assert forall|k: IpAddress| self@.contains_key(k) implies self@[k] == goal[k] by {
                let j = choose|j: int| 0 <= j < after.len() && (#[trigger] after[j]).addr.ip == k;
                if k == ip {
                    assert(after[i as int].addr.ip == ip);
                    if j != i {
                        if j < i {
                            assert(after[j].addr.ip != after[i as int].addr.ip);
                        } else {
                            assert(after[i as int].addr.ip != after[j].addr.ip);
                        }
                    }
                } else {
                    assert(j != i);
                    assert(after[j] == before[j]);
                    let h = choose|h: int|
                        0 <= h < before.len() && (#[trigger] before[h]).addr.ip == k;
                    if h != j {
                        if h < j {
                            assert(before[h].addr.ip != before[j].addr.ip);
                        } else {
                            assert(before[j].addr.ip != before[h].addr.ip);
                        }
                    }
                }
            }
            assert(self@ =~= goal);
        }
    }

    /// Takes in one datagram that came from `source`.
    ///
    /// An announcement takes the place of whatever the table held for that
    /// source. A query, or bytes that are no message, change nothing.
    pub fn on_datagram(&mut self, source: IpAddress, datagram: &[u8])
        ensures
            final(self)@ == after_datagram(old(self)@, source, datagram@),
    {
        match DiscoveryMessage::from_bytes(datagram) {
            Some(DiscoveryMessage::Announce { name, transfer_port }) => {
                self.record(Peer { name, addr: SocketAddress { ip: source, port: transfer_port } });
            },
            _ => {},
        }
    }

    /// The peers of the table, each once; their order means nothing.
    pub fn into_peers(self) -> (peers: Vec<Peer>)
        ensures
            lists(peers@, self@),
            peers@.len() == self@.dom().len(),
    {
        proof {
            use_type_invariant(&self);
            self.lemma_lists();
            lemma_listing_len(self.peers@, self@);
        }
        self.peers
    }

    proof fn lemma_lists(self)
        requires
            distinct_sources(self.peers@),
        ensures
            lists(self.peers@, self@),
    {
        let peers = self.peers@;
        assert forall|i: int| 0 <= i < peers.len() implies self@.contains_key((#[trigger] peers[i]).addr.ip)
            && self@[peers[i].addr.ip] == peers[i]@ by {
            let ip = peers[i].addr.ip;
            let j = choose|j: int| 0 <= j < peers.len() && (#[trigger] peers[j]).addr.ip == ip;
            if j != i {
                if j < i {
                    assert(peers[j].addr.ip != peers[i].addr.ip);
                } else {
                    assert(peers[i].addr.ip != peers[j].addr.ip);
                }
            }
        }
    }
}

/// Of two announcements from one source, the later one stays: the table is
/// what it would be had the earlier one never come, and every listing of it
/// has one peer for that source, the one that the later datagram announced.
pub proof fn lemma_latest_announce_wins(
    table: Map<IpAddress, PeerView>,
    source: IpAddress,
    first: Seq<u8>,
    second: Seq<u8>,
    peers: Seq<Peer>,
)
    requires
        DiscoveryMessageView::decoded(first) is Some,
        DiscoveryMessageView::decoded(first)->0 is Announce,
        DiscoveryMessageView::decoded(second) is Some,
        DiscoveryMessageView::decoded(second)->0 is Announce,
        lists(peers, after_datagram(after_datagram(table, source, first), source, second)),
    ensures
        after_datagram(after_datagram(table, source, first), source, second) == after_datagram(
            table,
            source,
            second,
        ),
        exists|i: int|
            0 <= i < peers.len() && (#[trigger] peers[i]).addr.ip == source && peers[i]@
                == announced_peer(
                source,
                DiscoveryMessageView::decoded(second)->0->name,
                DiscoveryMessageView::decoded(second)->0->transfer_port,
            ) && forall|j: int|
                0 <= j < peers.len() && j != i ==> (#[trigger] peers[j]).addr.ip != source,
{
    let once = after_datagram(table, source, second);
    let twice = after_datagram(after_datagram(table, source, first), source, second);
    assert(twice =~= once);
    assert(twice.contains_key(source));
    let i = choose|i: int| 0 <= i < peers.len() && (#[trigger] peers[i]).addr.ip == source;
    assert forall|j: int| 0 <= j < peers.len() && j != i implies (#[trigger] peers[j]).addr.ip
        != source by {
        if j < i {
            assert(peers[j].addr.ip != peers[i].addr.ip);
        } else {
            assert(peers[i].addr.ip != peers[j].addr.ip);
        }
    }
}

/// Bytes that are no message leave the table as it was and get no answer.
pub proof fn lemma_foreign_datagram_is_dropped(
    table: Map<IpAddress, PeerView>,
    source: IpAddress,
    datagram: Seq<u8>,
    name: Seq<char>,
    transfer_port: u16,
)
    requires
        DiscoveryMessageView::decoded(datagram) is None,
    ensures
        after_datagram(table, source, datagram) == table,
        answer_for(datagram, name, transfer_port) is None,
{
}

/// A listing has as many peers as the table has entries.
pub proof fn lemma_listing_len(peers: Seq<Peer>, table: Map<IpAddress, PeerView>)
    requires
        lists(peers, table),
    ensures
        table.dom().finite(),
        table.dom().len() == peers.len(),
    decreases peers.len(),
{
    if peers.len() == 0 {
        assert(table.dom() =~= Set::<IpAddress>::empty());
    } else {
        let last = peers.last();
        let rest = peers.drop_last();
        let smaller = table.remove(last.addr.ip);
        assert forall|i: int| 0 <= i < rest.len() implies smaller.contains_key((#[trigger] rest[i]).addr.ip)
            && smaller[rest[i].addr.ip] == rest[i]@ by {
            assert(rest[i] == peers[i]);
            assert(peers[i].addr.ip != peers[peers.len() - 1].addr.ip);
        }
        assert forall|ip: IpAddress| #[trigger] smaller.contains_key(ip) implies exists|i: int|
            0 <= i < rest.len() && (#[trigger] rest[i]).addr.ip == ip by {
            assert(table.contains_key(ip));
            let i = choose|i: int| 0 <= i < peers.len() && (#[trigger] peers[i]).addr.ip == ip;
            assert(rest[i] == peers[i]);
        }
        assert forall|i: int, j: int| 0 <= i < j < rest.len() implies (#[trigger] rest[i]).addr.ip != (
        #[trigger] rest[j]).addr.ip by {
            assert(rest[i] == peers[i] && rest[j] == peers[j]);
        }
        lemma_listing_len(rest, smaller);
        assert(table.contains_key(peers[peers.len() - 1].addr.ip));
        assert(table.dom() =~= smaller.dom().insert(last.addr.ip));
    }
}

} // verus!
