//! Which peers are connected, and on which stream each is reached.

use vstd::prelude::*;

use crate::table;
use crate::table::Table;
use crate::text;

verus! {

/// Manages several connections at once. A stream is known here by its number only.
pub struct NetworkManager {
    peers: Table<String, u64>,
}

/// The connections as contracts speak of them.
pub struct NetworkView {
    /// The stream on which each peer is reached.
    pub streams: Map<Seq<char>, u64>,
    /// The addresses of the peers, in the order in which they connected.
    pub addresses: Seq<Seq<char>>,
}

/// What came of reading from a peer.
pub enum ReadEvent {
    /// The peer closed the connection.
    Closed,
    /// So many bytes came.
    Received(usize),
    /// Reading failed.
    Failed,
}

impl NetworkView {
    /// Each peer is listed once.
    pub open spec fn valid(self) -> bool {
        &&& self.addresses.no_duplicates()
        &&& forall|addr: Seq<char>| #[trigger]
            self.streams.dom().contains(addr) <==> self.addresses.contains(addr)
    }

    /// The connections without one peer.
    pub open spec fn without(self, addr: Seq<char>) -> NetworkView {
        NetworkView {
            streams: self.streams.remove(addr),
            addresses: table::without_key(self.addresses, addr),
        }
    }

    /// The connections without some peers.
    pub open spec fn without_all(self, gone: Seq<Seq<char>>) -> NetworkView {
        NetworkView {
            streams: self.streams.remove_keys(gone.to_set()),
            addresses: table::without_keys(self.addresses, gone),
        }
    }
}

impl View for NetworkManager {
    type V = NetworkView;

    closed spec fn view(&self) -> NetworkView {
        NetworkView { streams: self.peers.map(), addresses: self.peers.keys() }
    }
}

impl NetworkManager {
    /// A manager without connections.
    pub fn new() -> (r: Self)
        ensures
            r@.valid(),
            r@ == (NetworkView { streams: Map::empty(), addresses: Seq::empty() }),
    {
        let r = NetworkManager { peers: Table::new() };
        assert(r@.streams =~= Map::<Seq<char>, u64>::empty());
        r
    }

    /// Notes that a peer is reached on a stream. An earlier stream of the peer is given up.
    pub fn add_peer(&mut self, addr: String, stream: u64)
        requires
            old(self)@.valid(),
        ensures
            final(self)@.valid(),
            final(self)@.streams == old(self)@.streams.insert(addr@, stream),
            final(self)@.addresses == table::with_key(old(self)@.addresses, addr@),
    {
        let ghost before = self@;
        self.peers.insert(addr, stream);
        proof {
            table::lemma_with_key(before.addresses, addr@);
            self.peers.lemma_domain();
        }
    }

    /// The stream on which a message to a peer is to be written; none if the peer is not connected.
    pub fn send_message(&self, addr: &str) -> (r: Option<u64>)
        requires
            self@.valid(),
        ensures
            match r {
                Some(stream) => self@.streams.dom().contains(addr@) && stream
                    == self@.streams[addr@],
                None => !self@.streams.dom().contains(addr@),
            },
    {
        match self.peers.get(&addr.to_string()) {
            Some(stream) => Some(*stream),
            None => None,
        }
    }

    /// Takes note of whether a message could be written to a peer. A peer that could not be written
    /// to is removed.
    pub fn message_written(&mut self, addr: &str, written: bool)
        requires
            old(self)@.valid(),
        ensures
            final(self)@.valid(),
            final(self)@ == if written {
                old(self)@
            } else {
                old(self)@.without(addr@)
            },
    {
        if !written {
            self.remove_peer(addr);
        }
    }

    fn remove_peer(&mut self, addr: &str)
        requires
            old(self)@.valid(),
        ensures
            final(self)@.valid(),
            final(self)@ == old(self)@.without(addr@),
    {
        let ghost before = self@;
        self.peers.remove(&addr.to_string());
        proof {
            table::lemma_without_key_contains(before.addresses, addr@);
            self.peers.lemma_domain();
        }
    }

    /// The peers to which a message for everybody goes, each with its stream.
    pub fn broadcast_message(&self) -> (r: Vec<(String, u64)>)
        requires
            self@.valid(),
        ensures
            r@.len() == self@.addresses.len(),
            forall|i: int|
                0 <= i < r@.len() ==> (#[trigger] r@[i]).0@ == self@.addresses[i] && r@[i].1
                    == self@.streams[self@.addresses[i]],
    {
        let mut targets: Vec<(String, u64)> = Vec::new();
        let mut i: usize = 0;
        while i < self.peers.len()
            invariant
                self@.valid(),
                i <= self@.addresses.len(),
                targets@.len() == i,
                forall|j: int|
                    0 <= j < i ==> (#[trigger] targets@[j]).0@ == self@.addresses[j]
                        && targets@[j].1 == self@.streams[self@.addresses[j]],
            decreases self@.addresses.len() - i,
        {
            targets.push((self.peers.key_at(i).clone(), *self.peers.value_at(i)));
            i += 1;
        }
        targets
    }

    /// Removes the peers to which a message for everybody could not be written.
    pub fn broadcast_written(&mut self, failed: &Vec<String>)
        requires
            old(self)@.valid(),
        ensures
            final(self)@.valid(),
            final(self)@ == old(self)@.without_all(text::string_views(failed@)),
    {
        let ghost before = self@;
        let ghost gone = text::string_views(failed@);
        let mut i: usize = 0;
        proof {
            assert(gone.take(0) =~= Seq::<Seq<char>>::empty());
            table::lemma_without_none(before.addresses);
            assert(before.streams.remove_keys(gone.take(0).to_set()) =~= before.streams);
        }
        while i < failed.len()
            invariant
                i <= failed@.len(),
                gone == text::string_views(failed@),
                self@.valid(),
                self@ == before.without_all(gone.take(i as int)),
            decreases failed@.len() - i,
        {
            let ghost so_far = gone.take(i as int);
            let ghost addr = gone[i as int];
            self.remove_peer(failed[i].as_str());
            proof {
                assert(gone.take(i + 1) =~= so_far.push(addr));
                table::lemma_without_one_more(before.addresses, so_far, addr);
                so_far.lemma_push_to_set_commute(addr);
                assert(self@.streams =~= before.streams.remove_keys(gone.take(i + 1).to_set()));
            }
            i += 1;
        }
        assert(gone.take(i as int) =~= gone);
    }

    /// What follows from reading on the connection of a peer: whether to read on. A peer that
    /// closed its connection is removed; one from which reading failed is not.
    pub fn handle_client(&mut self, addr: &str, event: ReadEvent) -> (go_on: bool)
        requires
            old(self)@.valid(),
        ensures
            final(self)@.valid(),
            go_on == (event is Received),
            final(self)@ == if event is Closed {
                old(self)@.without(addr@)
            } else {
                old(self)@
            },
    {
        match event {
            ReadEvent::Closed => {
                self.remove_peer(addr);
                false
            },
            ReadEvent::Received(_) => true,
            ReadEvent::Failed => false,
        }
    }
}

} // verus!
