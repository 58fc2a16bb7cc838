//! What the hub decides about its connections: the role a connection takes
//! from its first message, the registries of providers and subscribers, what
//! a provider's message does to the state, and what a new subscriber is sent.
//! The sockets and channels are the caller's (`S` is the sending half of a
//! connection).
use vstd::prelude::*;
use crate::chart::chart_processable;
use crate::command::{Command, InitCommandType, SocketError, SocketErrorType};
use crate::data_store::DataStore;
use crate::json::{Json, JsonValue};
use crate::json_diff::json_difference;
use crate::text::str_equal;
use crate::assoc::{assoc_get, lemma_assoc_get_index, lemma_assoc_get_none, lemma_assoc_get_unique};

verus! {

/// The connections of one kind, by address.
pub struct PeerMap<S> {
    peers: Vec<(String, S)>,
}

/// The addresses and senders of a list of pairs, in order.
pub open spec fn peer_entries<S>(peers: Seq<(String, S)>) -> Seq<(Seq<char>, S)> {
    peers.map_values(|p: (String, S)| (p.0@, p.1))
}

/// No address appears twice.
pub open spec fn addresses_unique<S>(e: Seq<(Seq<char>, S)>) -> bool {
    forall|a: int, b: int| 0 <= a < b < e.len() ==> e[a].0 != e[b].0
}

/// Two lists of pairs without repeated addresses that hold the same pairs for
/// every address other than `a` give every such address the same sender.
proof fn lemma_same_senders<S>(e: Seq<(Seq<char>, S)>, f: Seq<(Seq<char>, S)>, a: Seq<char>)
    requires
        addresses_unique(e),
        addresses_unique(f),
        forall|k: Seq<char>, v: S| k != a ==> (e.contains((k, v)) <==> f.contains((k, v))),
    ensures
        forall|k: Seq<char>| k != a ==> assoc_get(f, k) == assoc_get(e, k),
{
    assert forall|k: Seq<char>| k != a implies assoc_get(f, k) == assoc_get(e, k) by {
        lemma_assoc_get_unique(e, k);
        lemma_assoc_get_unique(f, k);
        if let Some(v) = assoc_get(e, k) {
            let j = choose|j: int| 0 <= j < e.len() && e[j] == (k, v);
            assert(e.contains((k, v)));
            let j2 = choose|j2: int| 0 <= j2 < f.len() && f[j2] == (k, v);
            assert(forall|x: int| 0 <= x < j2 ==> f[x].0 != k);
            lemma_assoc_get_index(f, k, j2);
        } else if let Some(v) = assoc_get(f, k) {
            let j = choose|j: int| 0 <= j < f.len() && f[j] == (k, v);
            assert(f.contains((k, v)));
            let j2 = choose|j2: int| 0 <= j2 < e.len() && e[j2] == (k, v);
            assert(forall|x: int| 0 <= x < j2 ==> e[x].0 != k);
            lemma_assoc_get_index(e, k, j2);
        }
    }
}

impl<S> PeerMap<S> {
    /// No address appears twice.
    #[verifier::type_invariant]
    spec fn addresses_unique(&self) -> bool {
        addresses_unique(peer_entries(self.peers@))
    }

    /// The addresses and their senders, in the order they came.
    pub closed spec fn entries(&self) -> Seq<(Seq<char>, S)> {
        peer_entries(self.peers@)
    }

    /// The sender of an address.
    pub open spec fn sender(&self, addr: Seq<char>) -> Option<S> {
        assoc_get(self.entries(), addr)
    }

    /// No connection is registered.
    pub fn new() -> (r: Self)
        ensures
            r.entries() == Seq::<(Seq<char>, S)>::empty(),
            forall|k: Seq<char>| r.sender(k) is None,
    {
        let peers: Vec<(String, S)> = Vec::new();
        assert(peer_entries(peers@) =~= Seq::<(Seq<char>, S)>::empty());
        PeerMap { peers }
    }

    /// Whether an address is registered.
    pub fn contains_key(&self, addr: &str) -> (r: bool)
        ensures
            r == self.sender(addr@) is Some,
    {
        proof {
            use_type_invariant(self);
        }
        let ghost e = self.entries();
        let mut i: usize = 0;
        while i < self.peers.len()
            invariant
                e == self.entries(),
                i <= self.peers@.len(),
                e.len() == self.peers@.len(),
                forall|j: int| 0 <= j < i ==> e[j].0 != addr@,
            decreases self.peers.len() - i,
        {
            assert(e[i as int].0 == self.peers@[i as int].0@);
            if str_equal(self.peers[i].0.as_str(), addr) {
                proof {
                    lemma_assoc_get_index(e, addr@, i as int);
                }
                return true;
            }
            i = i + 1;
        }
        proof {
            lemma_assoc_get_none(e, addr@);
        }
        false
    }

    /// Registers `tx` under `addr`, replacing the sender it had.
    pub fn insert(&mut self, addr: String, tx: S)
        ensures
            final(self).sender(addr@) == Some(tx),
            forall|k: Seq<char>| k != addr@ ==> final(self).sender(k) == old(self).sender(k),
    {
        proof {
            use_type_invariant(&*self);
        }
        let mut peers: Vec<(String, S)> = Vec::new();
        std::mem::swap(&mut peers, &mut self.peers);
        let ghost e = peer_entries(peers@);
        assert(e == old(self).entries());
        let ghost a = addr@;
        let mut i: usize = 0;
        while i < peers.len()
            invariant
                e == peer_entries(peers@),
                e == old(self).entries(),
                addresses_unique(e),
                a == addr@,
                i <= peers@.len(),
                e.len() == peers@.len(),
                forall|j: int| 0 <= j < i ==> e[j].0 != addr@,
            decreases peers.len() - i,
        {
            assert(e[i as int].0 == peers@[i as int].0@);
            if str_equal(peers[i].0.as_str(), addr.as_str()) {
                let ghost t = tx;
                peers.set(i, (addr, tx));
                let ghost f = peer_entries(peers@);
                proof {
                    assert(f =~= e.update(i as int, (a, t)));
                    assert(e[i as int].0 == a);
                    assert forall|x: int, y: int| 0 <= x < y < f.len() implies f[x].0 != f[y].0 by {
                        assert(f[x].0 == e[x].0 && f[y].0 == e[y].0);
                    }
                    lemma_assoc_get_index(f, a, i as int);
                    assert forall|k: Seq<char>, v: S| k != a implies (e.contains((k, v)) <==> f.contains((k, v))) by {
                        if e.contains((k, v)) {
                            let j = choose|j: int| 0 <= j < e.len() && e[j] == (k, v);
                            assert(f[j] == e[j]);
                        }
                        if f.contains((k, v)) {
                            let j = choose|j: int| 0 <= j < f.len() && f[j] == (k, v);
                            assert(f[j] == e[j]);
                        }
                    }
                    lemma_same_senders(e, f, a);
                }
                self.peers = peers;
                return;
            }
            i = i + 1;
        }
        let ghost t = tx;
        peers.push((addr, tx));
        let ghost f = peer_entries(peers@);
        proof {
            assert(f =~= e.push((a, t)));
            assert forall|x: int, y: int| 0 <= x < y < f.len() implies f[x].0 != f[y].0 by {
                if y < e.len() {
                    assert(f[x] == e[x] && f[y] == e[y]);
                } else {
                    assert(f[x] == e[x]);
                }
            }
            lemma_assoc_get_index(f, a, e.len() as int);
            assert forall|k: Seq<char>, v: S| k != a implies (e.contains((k, v)) <==> f.contains((k, v))) by {
                if e.contains((k, v)) {
                    let j = choose|j: int| 0 <= j < e.len() && e[j] == (k, v);
                    assert(f[j] == e[j]);
                }
                if f.contains((k, v)) {
                    let j = choose|j: int| 0 <= j < f.len() && f[j] == (k, v);
                    if j < e.len() {
                        assert(f[j] == e[j]);
                    }
                }
            }
            lemma_same_senders(e, f, a);
        }
        self.peers = peers;
    }

    /// Forgets the sender of `addr`.
    pub fn remove(&mut self, addr: &str)
        ensures
            final(self).sender(addr@) is None,
            forall|k: Seq<char>| k != addr@ ==> final(self).sender(k) == old(self).sender(k),
    {
        proof {
            use_type_invariant(&*self);
        }
        let mut peers: Vec<(String, S)> = Vec::new();
        std::mem::swap(&mut peers, &mut self.peers);
        let ghost e = peer_entries(peers@);
        assert(e == old(self).entries());
        let mut i: usize = 0;
        while i < peers.len()
            invariant
                e == peer_entries(peers@),
                e == old(self).entries(),
                addresses_unique(e),
                i <= peers@.len(),
                e.len() == peers@.len(),
                forall|j: int| 0 <= j < i ==> e[j].0 != addr@,
            decreases peers.len() - i,
        {
            assert(e[i as int].0 == peers@[i as int].0@);
            if str_equal(peers[i].0.as_str(), addr) {
                let _removed = peers.remove(i);
                let ghost f = peer_entries(peers@);
                proof {
                    assert(f =~= e.remove(i as int));
                    assert forall|x: int, y: int| 0 <= x < y < f.len() implies f[x].0 != f[y].0 by {
                        let xx = if x < i { x } else { x + 1 };
                        let yy = if y < i { y } else { y + 1 };
                        assert(f[x] == e[xx] && f[y] == e[yy]);
                    }
                    assert forall|j: int| 0 <= j < f.len() implies f[j].0 != addr@ by {
                        if j < i {
                            assert(f[j] == e[j]);
                        } else {
                            assert(f[j] == e[j + 1]);
                            assert(e[i as int].0 == addr@);
                        }
                    }
                    lemma_assoc_get_none(f, addr@);
                    assert forall|k: Seq<char>, v: S| k != addr@ implies (e.contains((k, v)) <==> f.contains((k, v))) by {
                        if e.contains((k, v)) {
                            let j = choose|j: int| 0 <= j < e.len() && e[j] == (k, v);
                            if j < i {
                                assert(f[j] == e[j]);
                            } else {
                                assert(j != i);
                                assert(f[j - 1] == e[j]);
                            }
                        }
                        if f.contains((k, v)) {
                            let j = choose|j: int| 0 <= j < f.len() && f[j] == (k, v);
                            if j < i {
                                assert(f[j] == e[j]);
                            } else {
                                assert(f[j] == e[j + 1]);
                            }
                        }
                    }
                    lemma_same_senders(e, f, addr@);
                }
                self.peers = peers;
                return;
            }
            i = i + 1;
        }
        proof {
            lemma_assoc_get_none(e, addr@);
        }
        self.peers = peers;
    }

    /// The senders of all registered connections, in the order they came.
    pub fn senders(&self) -> (r: Vec<&S>)
        ensures
            r@.len() == self.entries().len(),
            forall|i: int| 0 <= i < r@.len() ==> *(#[trigger] r@[i]) == self.entries()[i].1,
    {
        let mut out: Vec<&S> = Vec::new();
        let mut i: usize = 0;
        while i < self.peers.len()
            invariant
                i <= self.peers@.len(),
                out@.len() == i,
                forall|j: int| 0 <= j < i ==> *(#[trigger] out@[j]) == self.entries()[j].1,
            decreases self.peers.len() - i,
        {
            out.push(&self.peers[i].1);
            i = i + 1;
        }
        out
    }
}

/// The hub.
pub struct Server {}

impl Server {
    pub fn new() -> Self {
        Server {}
    }

    /// The role a connection takes from its first message: the role an `Init`
    /// message names, none for any other message.
    pub fn connection_role(first: &Command) -> (r: Option<InitCommandType>)
        ensures
            match first {
                Command::Init(ic) => r == Some(ic.kind),
                _ => r is None,
            },
    {
        match first {
            Command::Init(ic) => Some(ic.kind),
            _ => None,
        }
    }

    /// Registers a connection by the role its first message names: a
    /// subscriber among the subscribers, a provider among the providers;
    /// a connection whose first message is not `Init` is registered nowhere.
    pub fn register_connection<S>(
        first: &Command,
        addr: String,
        tx: S,
        provider_peers: &mut PeerMap<S>,
        subscriber_peers: &mut PeerMap<S>,
    ) -> (r: Option<InitCommandType>)
        ensures
            r == match first {
                Command::Init(ic) => Some(ic.kind),
                _ => None,
            },
            r == Some(InitCommandType::Subscriber) ==> final(subscriber_peers).sender(addr@) == Some(tx)
                && (forall|k: Seq<char>| k != addr@ ==> final(subscriber_peers).sender(k) == old(subscriber_peers).sender(k))
                && *final(provider_peers) == *old(provider_peers),
            r == Some(InitCommandType::Provider) ==> final(provider_peers).sender(addr@) == Some(tx)
                && (forall|k: Seq<char>| k != addr@ ==> final(provider_peers).sender(k) == old(provider_peers).sender(k))
                && *final(subscriber_peers) == *old(subscriber_peers),
            r is None ==> *final(provider_peers) == *old(provider_peers) && *final(subscriber_peers) == *old(subscriber_peers),
    {
        let role = Server::connection_role(first);
        match role {
            Some(InitCommandType::Subscriber) => subscriber_peers.insert(addr, tx),
            Some(InitCommandType::Provider) => provider_peers.insert(addr, tx),
            None => {},
        }
        role
    }

    /// Forgets a closed connection in both registries.
    pub fn clean_closed_client<S>(addr: &str, provider_peers: &mut PeerMap<S>, subscriber_peers: &mut PeerMap<S>)
        ensures
            final(provider_peers).sender(addr@) is None,
            final(subscriber_peers).sender(addr@) is None,
            forall|k: Seq<char>| k != addr@ ==> final(provider_peers).sender(k) == old(provider_peers).sender(k),
            forall|k: Seq<char>| k != addr@ ==> final(subscriber_peers).sender(k) == old(subscriber_peers).sender(k),
    {
        if provider_peers.contains_key(addr) {
            provider_peers.remove(addr);
        }
        if subscriber_peers.contains_key(addr) {
            subscriber_peers.remove(addr);
        }
    }

    /// What a new subscriber is sent first: the whole state.
    pub fn initial_state(data_store: &DataStore) -> (r: Command)
        ensures
            r matches Command::InitialState(s) && s.view() == data_store.current_state.view(),
    {
        Command::InitialState(data_store.current_state.deep_clone())
    }

    /// What a provider's message does: data goes into the state and yields
    /// the message with the difference, to be sent to every subscriber; any
    /// other message changes nothing and yields nothing.
    pub fn provider_command(addr: &String, command: Command, data_store: &mut DataStore) -> (r: Option<Command>)
        requires
            old(data_store).current_state.view() is Object,
            command matches Command::Data(d) ==> chart_processable(
                d.view(),
                old(data_store).current_state.view()->Object_0,
            ),
        ensures
            match command {
                Command::Data(d) => {
                    &&& final(data_store).current_state.view() == crate::data_store::state_after_entry(
                        old(data_store).current_state.view(),
                        d.view(),
                    )
                    &&& r matches Some(Command::Data(diff)) && diff.view() == json_difference(
                        old(data_store).current_state.view(),
                        final(data_store).current_state.view(),
                    )
                },
                _ => r is None && final(data_store).current_state == old(data_store).current_state,
            },
    {
        match command {
            Command::Data(d) => Some(data_store.add_entry(addr.clone(), &d)),
            _ => None,
        }
    }

    /// The message that reports a message that could not be read.
    pub fn parse_error(message: String) -> (r: Command)
        ensures
            r matches Command::Error(e) && e.error_type == SocketErrorType::ParseError && e.message == message,
    {
        Command::Error(SocketError { error_type: SocketErrorType::ParseError, message })
    }
}

} // verus!
