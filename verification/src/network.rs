//! What the core knows of the overlay transport: its configuration, the
//! events it reports, the commands it takes, and the table of known peers.

use vstd::prelude::*;
use crate::protocol::ProtocolMessage;

pub mod utils;

verus! {

/// What the transport reports.
#[derive(Debug, Clone)]
#[allow(inconsistent_fields)]
pub enum NetworkEvent {
    /// A protocol message arrived from a peer.
    MessageReceived { peer_id: String, message: ProtocolMessage },
    /// A peer was discovered at some addresses.
    PeerDiscovered { peer_id: String, addrs: Vec<String> },
    /// A connection to a peer was established.
    PeerConnected { peer_id: String },
    /// The connection to a peer was closed.
    PeerDisconnected { peer_id: String },
    /// The transport has come up.
    Connected,
    /// The transport has gone down.
    Disconnected,
}

/// What the transport is asked to do.
#[derive(Debug, Clone)]
#[allow(inconsistent_fields)]
pub enum NetworkCommand {
    /// Send a message to one peer, or to all where no peer is named.
    SendMessage { peer_id: Option<String>, message: ProtocolMessage },
    /// Dial an address.
    ConnectPeer { addr: String },
    /// Close the connection to a peer.
    DisconnectPeer { peer_id: String },
    /// Stop the transport.
    Shutdown,
}

impl NetworkCommand {
    /// Whether the transport stops after this command.
    pub open spec fn spec_stops(self) -> bool {
        self is Shutdown
    }

    /// Whether the transport stops after this command: only `Shutdown`
    /// ends its loop.
    pub fn stops(&self) -> (r: bool)
        ensures
            r == self.spec_stops(),
    {
        match self {
            NetworkCommand::Shutdown => true,
            _ => false,
        }
    }
}

/// Configuration of the overlay transport.
#[derive(Debug, Clone)]
pub struct NetworkConfig {
    /// Addresses to listen on.
    pub listen_addrs: Vec<String>,
    /// Peers to dial at start.
    pub bootstrap_peers: Vec<String>,
    /// Whether peers on the local network are discovered.
    pub enable_mdns: bool,
    /// The gossip topic.
    pub topic: String,
}

impl Default for NetworkConfig {
    /// Listens on any TCP and any QUIC port, dials nobody, discovers local
    /// peers, and gossips on the topic `securechat-v1`.
    fn default() -> (config: Self)
        ensures
            config.listen_addrs@.len() == 2,
            config.listen_addrs@[0]@ == "/ip4/0.0.0.0/tcp/0"@,
            config.listen_addrs@[1]@ == "/ip4/0.0.0.0/udp/0/quic-v1"@,
            config.bootstrap_peers@.len() == 0,
            config.enable_mdns,
            config.topic@ == "securechat-v1"@,
    {
        let mut listen_addrs: Vec<String> = Vec::new();
        listen_addrs.push("/ip4/0.0.0.0/tcp/0".to_owned());
        listen_addrs.push("/ip4/0.0.0.0/udp/0/quic-v1".to_owned());
        NetworkConfig {
            listen_addrs,
            bootstrap_peers: Vec::new(),
            enable_mdns: true,
            topic: "securechat-v1".to_owned(),
        }
    }
}

/// What is known of one peer.
#[derive(Debug, Clone)]
pub struct PeerInfo {
    /// The peer's identifier on the transport.
    pub peer_id: String,
    /// The peer's identity public key.
    pub public_key: [u8; 32],
    /// The name the peer shows, if known.
    pub display_name: Option<String>,
    /// When the peer was last seen, on the caller's clock.
    pub last_seen: u64,
    /// Addresses the peer was seen at.
    pub addresses: Vec<String>,
    /// Whether the peer's key was verified out of band.
    pub trusted: bool,
}

/// The table of known peers: at most one entry for each identifier, in the
/// order in which the identifiers were first added.
pub struct PeerManager {
    known_peers: Vec<PeerInfo>,
}

/// The place of the entry for an identifier, or the length where there is
/// none.
pub open spec fn position_of(peers: Seq<PeerInfo>, peer_id: Seq<char>) -> int
    decreases peers.len(),
{
    if peers.len() == 0 {
        0
    } else if peers[0].peer_id@ == peer_id {
        0
    } else {
        1 + position_of(peers.drop_first(), peer_id)
    }
}

/// Whether no two entries have the same identifier.
pub open spec fn ids_distinct(peers: Seq<PeerInfo>) -> bool {
    forall|i: int, j: int|
        0 <= i < j < peers.len() ==> (#[trigger] peers[i]).peer_id@ != (#[trigger] peers[j]).peer_id@
}

/// The entries that are trusted, in their order.
pub open spec fn trusted_of(peers: Seq<PeerInfo>) -> Seq<PeerInfo>
    decreases peers.len(),
{
    if peers.len() == 0 {
        Seq::empty()
    } else if peers.last().trusted {
        trusted_of(peers.drop_last()).push(peers.last())
    } else {
        trusted_of(peers.drop_last())
    }
}

/// An entry with its time of last sight replaced.
pub open spec fn seen_at(peer: PeerInfo, now: u64) -> PeerInfo {
    PeerInfo { last_seen: now, ..peer }
}

/// The place found by `position_of` is within the sequence or at its end;
/// no entry before it has the identifier, and the entry at it has.
pub proof fn lemma_position_of(peers: Seq<PeerInfo>, peer_id: Seq<char>)
    ensures
        0 <= position_of(peers, peer_id) <= peers.len(),
        forall|j: int|
            0 <= j < position_of(peers, peer_id) ==> (#[trigger] peers[j]).peer_id@ != peer_id,
        position_of(peers, peer_id) < peers.len() ==> peers[position_of(
            peers,
            peer_id,
        )].peer_id@ == peer_id,
    decreases peers.len(),
{
    if peers.len() > 0 && peers[0].peer_id@ != peer_id {
        let rest = peers.drop_first();
        lemma_position_of(rest, peer_id);
        assert forall|j: int| 0 <= j < position_of(peers, peer_id) implies (#[trigger] peers[j]).peer_id@
            != peer_id by {
            if j > 0 {
                assert(peers[j] == rest[j - 1]);
            }
        }
        if position_of(peers, peer_id) < peers.len() {
            assert(peers[position_of(peers, peer_id)] == rest[position_of(rest, peer_id)]);
        }
    }
}

impl PeerManager {
    /// The entries, in the order in which their identifiers were first
    /// added.
    pub closed spec fn peers(&self) -> Seq<PeerInfo> {
        self.known_peers@
    }

    /// No two entries have the same identifier.
    pub open spec fn wf(&self) -> bool {
        ids_distinct(self.peers())
    }

    /// The entry for an identifier, if there is one.
    pub open spec fn lookup(&self, peer_id: Seq<char>) -> Option<PeerInfo> {
        let i = position_of(self.peers(), peer_id);
        if i < self.peers().len() {
            Some(self.peers()[i])
        } else {
            None
        }
    }

    /// An empty table.
    pub fn new() -> (manager: Self)
        ensures
            manager.wf(),
            manager.peers() == Seq::<PeerInfo>::empty(),
    {
        PeerManager { known_peers: Vec::new() }
    }

    /// The place of the entry for an identifier.
    fn find(&self, peer_id: &String) -> (i: usize)
        ensures
            i == position_of(self.peers(), peer_id@),
            i <= self.peers().len(),
    {
        let mut i: usize = 0;
        while i < self.known_peers.len()
            invariant
                i <= self.known_peers@.len(),
                forall|j: int| 0 <= j < i ==> (#[trigger] self.known_peers@[j]).peer_id@ != peer_id@,
            decreases self.known_peers@.len() - i,
        {
            if self.known_peers[i].peer_id == *peer_id {
                proof {
                    lemma_position_of(self.peers(), peer_id@);
                    let p = position_of(self.peers(), peer_id@);
                    if p < i {
                        assert(self.known_peers@[p].peer_id@ == peer_id@);
                    }
                    if p > i {
                        assert(self.peers()[i as int].peer_id@ != peer_id@);
                    }
                }
                return i;
            }
            i += 1;
        }
        proof {
            lemma_position_of(self.peers(), peer_id@);
            let p = position_of(self.peers(), peer_id@);
            if p < i {
                assert(self.known_peers@[p].peer_id@ == peer_id@);
            }
        }
        i
    }

    /// Adds a peer. An entry with the same identifier is replaced in its
    /// place; a new identifier goes to the end. The other entries stay.
    pub fn add_peer(&mut self, info: PeerInfo)
        requires
            old(self).wf(),
        ensures
            final(self).wf(),
            final(self).lookup(info.peer_id@) == Some(info),
            forall|id: Seq<char>|
                id != info.peer_id@ ==> #[trigger] final(self).lookup(id) == old(self).lookup(id),
            old(self).lookup(info.peer_id@) is Some ==> final(self).peers() == old(
                self,
            ).peers().update(position_of(old(self).peers(), info.peer_id@), info),
            old(self).lookup(info.peer_id@) is None ==> final(self).peers() == old(
                self,
            ).peers().push(info),
    {
        let ghost before = self.peers();
        let ghost id = info.peer_id@;
        let i = self.find(&info.peer_id);
        if i < self.known_peers.len() {
            self.known_peers[i] = info;
        } else {
            self.known_peers.push(info);
        }
        proof {
            let after = self.peers();
            lemma_position_of(before, id);
            lemma_position_of(after, id);
            assert(after[i as int].peer_id@ == id);
            assert forall|a: int, b: int| 0 <= a < b < after.len() implies (#[trigger] after[a]).peer_id@
                != (#[trigger] after[b]).peer_id@ by {
                if a != i && b != i {
                    assert(after[a] == before[a]);
                    assert(after[b] == before[b]);
                } else if a == i {
                    assert(after[b] == before[b]);
                } else {
                    assert(after[a] == before[a]);
                }
            }
            if position_of(after, id) < i {
                assert(after[position_of(after, id)] == before[position_of(after, id)]);
            }
            assert forall|other: Seq<char>| other != id implies #[trigger] self.lookup(other)
                == old(self).lookup(other) by {
                lemma_position_of(before, other);
                lemma_position_of(after, other);
                let p = position_of(before, other);
                let q = position_of(after, other);
                if p < before.len() {
                    assert(after[p] == before[p]);
                    if q < p {
                        assert(after[q].peer_id@ == other);
                        assert(after[q] == before[q]);
                    }
                    if p < q {
                        assert(after[p].peer_id@ != other);
                    }
                } else {
                    if q < after.len() {
                        assert(after[q].peer_id@ == other);
                        assert(q != i);
                        assert(after[q] == before[q]);
                    }
                }
            }
        }
    }

    /// The entry for an identifier, if there is one.
    pub fn get_peer(&self, peer_id: &str) -> (peer: Option<&PeerInfo>)
        ensures
            match peer {
                Some(p) => self.lookup(peer_id@) == Some(*p),
                None => self.lookup(peer_id@) is None,
            },
    {
        let id = peer_id.to_owned();
        let i = self.find(&id);
        if i < self.known_peers.len() {
            Some(&self.known_peers[i])
        } else {
            None
        }
    }

    /// Records that a peer was seen at `now`. An unknown identifier changes
    /// nothing.
    pub fn update_last_seen(&mut self, peer_id: &str, now: u64)
        requires
            old(self).wf(),
        ensures
            final(self).wf(),
            match old(self).lookup(peer_id@) {
                Some(p) => final(self).peers() == old(self).peers().update(
                    position_of(old(self).peers(), peer_id@),
                    seen_at(p, now),
                ),
                None => final(self).peers() == old(self).peers(),
            },
    {
        let id = peer_id.to_owned();
        let i = self.find(&id);
        if i < self.known_peers.len() {
            let ghost before = self.peers();
            proof {
                lemma_position_of(before, peer_id@);
            }
            self.known_peers[i].last_seen = now;
            proof {
                let after = self.peers();
                assert(after =~= before.update(i as int, seen_at(before[i as int], now)));
                assert forall|a: int, b: int| 0 <= a < b < after.len() implies (#[trigger] after[a]).peer_id@
                    != (#[trigger] after[b]).peer_id@ by {
                    assert(after[a].peer_id@ == before[a].peer_id@);
                    assert(after[b].peer_id@ == before[b].peer_id@);
                }
            }
        }
    }

    /// The trusted peers, in the order of the table.
    pub fn get_trusted_peers(&self) -> (trusted: Vec<&PeerInfo>)
        ensures
            trusted@.len() == trusted_of(self.peers()).len(),
            forall|k: int| 0 <= k < trusted@.len() ==> *(#[trigger] trusted@[k]) == trusted_of(
                self.peers(),
            )[k],
    {
        let mut trusted: Vec<&PeerInfo> = Vec::new();
        let mut i: usize = 0;
        while i < self.known_peers.len()
            invariant
                i <= self.known_peers@.len(),
                trusted@.len() == trusted_of(self.known_peers@.subrange(0, i as int)).len(),
                forall|k: int|
                    0 <= k < trusted@.len() ==> *(#[trigger] trusted@[k]) == trusted_of(
                        self.known_peers@.subrange(0, i as int),
                    )[k],
            decreases self.known_peers@.len() - i,
        {
            let ghost prefix = self.known_peers@.subrange(0, i + 1);
            assert(prefix.drop_last() =~= self.known_peers@.subrange(0, i as int));
            assert(prefix.last() == self.known_peers@[i as int]);
            if self.known_peers[i].trusted {
                trusted.push(&self.known_peers[i]);
            }
            i += 1;
        }
        assert(self.known_peers@.subrange(0, i as int) =~= self.known_peers@);
        trusted
    }
}

} // verus!
