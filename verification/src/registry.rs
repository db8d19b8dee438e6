//! Which authenticated connection serves each peer of each virtual network.
//! The connection type is a parameter: the relay stores its QUIC connections
//! here, and the verified rules decide registration, lookup and removal.

use vstd::prelude::*;
use std::collections::HashMap;

use crate::text::str_eq;

verus! {

broadcast use vstd::std_specs::hash::group_hash_axioms;

/// Most peers one virtual network may hold.
pub const MAX_NETWORK_PEERS: usize = 100_000;

/// A peer's connection, with the connection's stable id.
#[derive(Debug)]
pub struct RegisteredPeer<C> {
    pub handle: C,
    pub stable_id: usize,
}

#[derive(Clone, Copy, Debug, PartialEq, Eq)]
pub enum RegistryError {
    PeerLimit,
}

pub open spec fn registry_error_text(e: RegistryError) -> &'static str {
    match e {
        RegistryError::PeerLimit => "virtual network reached its peer limit",
    }
}

impl RegistryError {
    pub fn message(&self) -> (r: &'static str)
        ensures
            r == registry_error_text(*self),
    {
        match self {
            RegistryError::PeerLimit => "virtual network reached its peer limit",
        }
    }
}

pub type Networks<C> = Map<Seq<char>, Map<u32, RegisteredPeer<C>>>;

/// The peers of network `id` (none when the network is not known).
pub open spec fn network_of<C>(m: Networks<C>, id: Seq<char>) -> Map<u32, RegisteredPeer<C>> {
    if m.dom().contains(id) {
        m[id]
    } else {
        Map::empty()
    }
}

/// Every known network has between one and `MAX_NETWORK_PEERS` peers.
pub open spec fn networks_well_formed<C>(m: Networks<C>) -> bool {
    &&& m.dom().finite()
    &&& forall|id: Seq<char>|
        #[trigger] m.dom().contains(id) ==> m[id].dom().finite() && 0 < m[id].len()
            <= MAX_NETWORK_PEERS
}

/// Registering `entry` as peer `peer` of network `id`: refused when the
/// network is full and does not hold that peer yet; otherwise the entry
/// replaces any previous one, which is handed back.
pub open spec fn register_outcome<C>(
    m: Networks<C>,
    id: Seq<char>,
    peer: u32,
    entry: RegisteredPeer<C>,
) -> Result<(Networks<C>, Option<RegisteredPeer<C>>), RegistryError> {
    let net = network_of(m, id);
    if net.len() >= MAX_NETWORK_PEERS && !net.dom().contains(peer) {
        Err(RegistryError::PeerLimit)
    } else {
        Ok(
            (
                m.insert(id, net.insert(peer, entry)),
                if net.dom().contains(peer) {
                    Some(net[peer])
                } else {
                    None
                },
            ),
        )
    }
}

pub open spec fn lookup_outcome<C>(m: Networks<C>, id: Seq<char>, peer: u32) -> Option<
    RegisteredPeer<C>,
> {
    if network_of(m, id).dom().contains(peer) {
        Some(network_of(m, id)[peer])
    } else {
        None
    }
}

/// Removing peer `peer` of network `id`, but only while it is still served
/// by the connection with `stable_id`; a network left empty is forgotten.
pub open spec fn unregister_outcome<C>(
    m: Networks<C>,
    id: Seq<char>,
    peer: u32,
    stable_id: usize,
) -> Networks<C> {
    if !m.dom().contains(id) {
        m
    } else {
        let net = m[id];
        let net2 = if net.dom().contains(peer) && net[peer].stable_id == stable_id {
            net.remove(peer)
        } else {
            net
        };
        if net2.len() == 0 {
            m.remove(id)
        } else {
            m.insert(id, net2)
        }
    }
}

/// Routing reaches the connection registered last for a peer: after a
/// registration, looking that peer up finds the new connection, and every
/// other peer, in this network or another, is looked up as before.
pub proof fn law_lookup_after_register<C>(
    m: Networks<C>,
    id: Seq<char>,
    peer: u32,
    entry: RegisteredPeer<C>,
    other_id: Seq<char>,
    other_peer: u32,
)
    requires
        register_outcome(m, id, peer, entry) is Ok,
    ensures
        ({
            let m2 = register_outcome(m, id, peer, entry)->Ok_0.0;
            &&& lookup_outcome(m2, id, peer) == Some(entry)
            &&& (other_id != id || other_peer != peer) ==> lookup_outcome(m2, other_id, other_peer)
                == lookup_outcome(m, other_id, other_peer)
        }),
{
}

/// A registration refused for a full network changes nothing.
pub proof fn law_refused_registration_changes_nothing<C>(
    m: Networks<C>,
    id: Seq<char>,
    peer: u32,
    entry: RegisteredPeer<C>,
)
    requires
        networks_well_formed(m),
        register_outcome(m, id, peer, entry) is Err,
    ensures
        m.dom().contains(id),
        m[id].len() == MAX_NETWORK_PEERS,
        !m[id].dom().contains(peer),
{
}

/// A connection that ends after it was replaced leaves its replacement in
/// place; a connection that ends while it still serves its peer removes it.
/// Either way, no other peer is affected.
pub proof fn law_unregister_only_own_connection<C>(
    m: Networks<C>,
    id: Seq<char>,
    peer: u32,
    stable_id: usize,
    other_id: Seq<char>,
    other_peer: u32,
)
    requires
        networks_well_formed(m),
    ensures
        ({
            let m2 = unregister_outcome(m, id, peer, stable_id);
            &&& (lookup_outcome(m, id, peer) matches Some(e) && e.stable_id != stable_id)
                ==> lookup_outcome(m2, id, peer) == lookup_outcome(m, id, peer)
            &&& (lookup_outcome(m, id, peer) matches Some(e) && e.stable_id == stable_id)
                ==> lookup_outcome(m2, id, peer) is None
            &&& (other_id != id || other_peer != peer) ==> lookup_outcome(m2, other_id, other_peer)
                == lookup_outcome(m, other_id, other_peer)
        }),
{
    let m2 = unregister_outcome(m, id, peer, stable_id);
    if m.dom().contains(id) {
        let net = m[id];
        let net2 = if net.dom().contains(peer) && net[peer].stable_id == stable_id {
            net.remove(peer)
        } else {
            net
        };
        assert(net2.dom().finite());
        vstd::set_lib::lemma_set_empty_equivalency_len(net2.dom());
        if net2.len() == 0 {
            assert(!net2.dom().contains(other_peer));
            assert(!net2.dom().contains(peer));
        }
    }
}

struct Network<C> {
    id: String,
    peers: HashMap<u32, RegisteredPeer<C>>,
}

spec fn nets_map<C>(s: Seq<Network<C>>) -> Networks<C>
    decreases s.len(),
{
    if s.len() == 0 {
        Map::empty()
    } else {
        nets_map(s.drop_last()).insert(s.last().id@, s.last().peers@)
    }
}

spec fn distinct_ids<C>(s: Seq<Network<C>>) -> bool {
    forall|i: int, j: int| 0 <= i < j < s.len() ==> s[i].id@ != s[j].id@
}

proof fn lemma_nets_contains<C>(s: Seq<Network<C>>, k: Seq<char>)
    ensures
        nets_map(s).dom().contains(k) <==> exists|i: int| 0 <= i < s.len() && s[i].id@ == k,
    decreases s.len(),
{
    if s.len() > 0 {
        lemma_nets_contains(s.drop_last(), k);
        if nets_map(s).dom().contains(k) && k != s.last().id@ {
            let i = choose|i: int| 0 <= i < s.len() - 1 && s.drop_last()[i].id@ == k;
            assert(s[i].id@ == k);
        }
        if exists|i: int| 0 <= i < s.len() && s[i].id@ == k {
            let i = choose|i: int| 0 <= i < s.len() && s[i].id@ == k;
            if i < s.len() - 1 {
                assert(s.drop_last()[i].id@ == k);
            }
        }
    }
}

proof fn lemma_nets_at<C>(s: Seq<Network<C>>, i: int)
    requires
        distinct_ids(s),
        0 <= i < s.len(),
    ensures
        nets_map(s).dom().contains(s[i].id@),
        nets_map(s)[s[i].id@] == s[i].peers@,
    decreases s.len(),
{
    if i < s.len() - 1 {
        lemma_nets_at(s.drop_last(), i);
    }
}

proof fn lemma_nets_finite<C>(s: Seq<Network<C>>)
    ensures
        nets_map(s).dom().finite(),
    decreases s.len(),
{
    if s.len() > 0 {
        lemma_nets_finite(s.drop_last());
    }
}

proof fn lemma_nets_update<C>(s: Seq<Network<C>>, i: int, e: Network<C>)
    requires
        distinct_ids(s),
        0 <= i < s.len(),
        e.id@ == s[i].id@,
    ensures
        nets_map(s.update(i, e)) == nets_map(s).insert(e.id@, e.peers@),
        distinct_ids(s.update(i, e)),
    decreases s.len(),
{
    let t = s.update(i, e);
    if i == s.len() - 1 {
        assert(t.drop_last() =~= s.drop_last());
    } else {
        assert(t.drop_last() =~= s.drop_last().update(i, e));
        lemma_nets_update(s.drop_last(), i, e);
        assert(s.last().id@ != e.id@);
    }
    assert(nets_map(t) =~= nets_map(s).insert(e.id@, e.peers@));
}

proof fn lemma_nets_remove<C>(s: Seq<Network<C>>, i: int)
    requires
        distinct_ids(s),
        0 <= i < s.len(),
    ensures
        nets_map(s.remove(i)) == nets_map(s).remove(s[i].id@),
        distinct_ids(s.remove(i)),
    decreases s.len(),
{
    let t = s.remove(i);
    let k = s[i].id@;
    if i == s.len() - 1 {
        assert(t =~= s.drop_last());
        lemma_nets_contains(s.drop_last(), k);
        assert(!nets_map(s.drop_last()).dom().contains(k));
    } else {
        assert(t.drop_last() =~= s.drop_last().remove(i));
        lemma_nets_remove(s.drop_last(), i);
        assert(t.last() == s.last());
        assert(s.last().id@ != k);
    }
    assert(nets_map(t) =~= nets_map(s).remove(k));
}

proof fn lemma_nets_push<C>(s: Seq<Network<C>>, e: Network<C>)
    requires
        distinct_ids(s),
        !nets_map(s).dom().contains(e.id@),
    ensures
        nets_map(s.push(e)) == nets_map(s).insert(e.id@, e.peers@),
        distinct_ids(s.push(e)),
{
    assert(s.push(e).drop_last() =~= s);
    assert forall|i: int| 0 <= i < s.len() implies s[i].id@ != e.id@ by {
        lemma_nets_contains(s, s[i].id@);
    }
}

/// The networks of the relay and the peer connections in each.
///
/// Networks are held in a vector with no id twice rather than a `HashMap`
/// keyed by `String`: vstd's `HashMap` specification relates a map's
/// contents to its view only for key types whose hashing it models
/// (`obeys_key_model`), and `String` is not one of them. Within a network,
/// peers are keyed by their `u32` id in a `HashMap`, which vstd does model.
pub struct PeerRegistry<C> {
    networks: Vec<Network<C>>,
}

impl<C> View for PeerRegistry<C> {
    type V = Networks<C>;

    closed spec fn view(&self) -> Networks<C> {
        nets_map(self.networks@)
    }
}

impl<C> PeerRegistry<C> {
    #[verifier::type_invariant]
    spec fn inv(&self) -> bool {
        &&& distinct_ids(self.networks@)
        &&& networks_well_formed(nets_map(self.networks@))
    }

    pub fn new() -> (r: PeerRegistry<C>)
        ensures
            r@ == Map::<Seq<char>, Map<u32, RegisteredPeer<C>>>::empty(),
            networks_well_formed(r@),
    {
        PeerRegistry { networks: Vec::new() }
    }

    /// Index of network `id`, if it is known.
    fn find(networks: &Vec<Network<C>>, id: &str) -> (r: Option<usize>)
        ensures
            match r {
                Some(i) => i < networks@.len() && networks@[i as int].id@ == id@,
                None => forall|i: int| 0 <= i < networks@.len() ==> networks@[i].id@ != id@,
            },
    {
        let mut i: usize = 0;
        while i < networks.len()
            invariant
                i <= networks@.len(),
                forall|k: int| 0 <= k < i ==> networks@[k].id@ != id@,
            decreases networks@.len() - i,
        {
            if str_eq(networks[i].id.as_str(), id) {
                return Some(i);
            }
            i += 1;
        }
        None
    }

    /// Records `handle` as the connection of peer `peer_id` in network
    /// `network_id`, handing back the connection it replaces, if any.
    pub fn register(&mut self, network_id: &str, peer_id: u32, handle: C, stable_id: usize) -> (r:
        Result<Option<RegisteredPeer<C>>, RegistryError>)
        ensures
            match register_outcome(
                old(self)@,
                network_id@,
                peer_id,
                RegisteredPeer { handle, stable_id },
            ) {
                Ok((m, prev)) => r == Ok::<_, RegistryError>(prev) && final(self)@ == m,
                Err(e) => r == Err::<Option<RegisteredPeer<C>>, _>(e) && final(self)@ == old(
                    self,
                )@,
            },
            networks_well_formed(final(self)@),
    {
        proof {
            use_type_invariant(&*self);
        }
        let ghost m = self@;
        let entry = RegisteredPeer { handle, stable_id };
        let ghost e = entry;
        let mut networks: Vec<Network<C>> = Vec::new();
        std::mem::swap(&mut networks, &mut self.networks);
        let ghost s = networks@;
        match Self::find(&networks, network_id) {
            Some(i) => {
                proof {
                    lemma_nets_at(s, i as int);
                }
                let net = &networks[i];
                if net.peers.len() >= MAX_NETWORK_PEERS && !net.peers.contains_key(&peer_id) {
                    self.networks = networks;
                    return Err(RegistryError::PeerLimit);
                }
                let previous = networks[i].peers.insert(peer_id, entry);
                proof {
                    lemma_nets_update(s, i as int, networks@[i as int]);
                    assert(networks@ == s.update(i as int, networks@[i as int]));
                    lemma_nets_finite(networks@);
                    assert(networks_well_formed(nets_map(networks@)));
                }
                self.networks = networks;
                Ok(previous)
            },
            None => {
                proof {
                    lemma_nets_contains(s, network_id@);
                }
                let mut peers: HashMap<u32, RegisteredPeer<C>> = HashMap::new();
                let previous = peers.insert(peer_id, entry);
                let net = Network { id: network_id.to_owned(), peers };
                proof {
                    lemma_nets_push(s, net);
                    lemma_nets_finite(s.push(net));
                    assert(net.peers@ =~= Map::<u32, RegisteredPeer<C>>::empty().insert(peer_id, e));
                    assert(nets_map(s.push(net)) =~= m.insert(network_id@, net.peers@));
                }
                networks.push(net);
                self.networks = networks;
                Ok(previous)
            },
        }
    }

    /// The connection registered for peer `peer_id` of network `network_id`.
    pub fn lookup(&self, network_id: &str, peer_id: u32) -> (r: Option<&RegisteredPeer<C>>)
        ensures
            match lookup_outcome(self@, network_id@, peer_id) {
                Some(e) => r == Some(&e),
                None => r is None,
            },
            networks_well_formed(self@),
    {
        proof {
            use_type_invariant(self);
        }
        match Self::find(&self.networks, network_id) {
            Some(i) => {
                proof {
                    lemma_nets_at(self.networks@, i as int);
                }
                self.networks[i].peers.get(&peer_id)
            },
            None => {
                proof {
                    lemma_nets_contains(self.networks@, network_id@);
                }
                None
            },
        }
    }

    /// Removes peer `peer_id` of network `network_id` if the connection with
    /// `stable_id` still serves it; a network left without peers is dropped.
    pub fn unregister(&mut self, network_id: &str, peer_id: u32, stable_id: usize)
        ensures
            final(self)@ == unregister_outcome(old(self)@, network_id@, peer_id, stable_id),
            networks_well_formed(final(self)@),
    {
        proof {
            use_type_invariant(&*self);
        }
        let ghost m = self@;
        let mut networks: Vec<Network<C>> = Vec::new();
        std::mem::swap(&mut networks, &mut self.networks);
        let ghost s = networks@;
        match Self::find(&networks, network_id) {
            Some(i) => {
                proof {
                    lemma_nets_at(s, i as int);
                }
                let matches = match networks[i].peers.get(&peer_id) {
                    Some(peer) => peer.stable_id == stable_id,
                    None => false,
                };
                if matches {
                    networks[i].peers.remove(&peer_id);
                }
                let ghost net2 = networks@[i as int].peers@;
                assert(net2 == unregister_outcome(m, network_id@, peer_id, stable_id)[network_id@]
                    || net2.len() == 0);
                if networks[i].peers.len() == 0 {
                    let ghost t = networks@;
                    proof {
                        lemma_nets_update(s, i as int, t[i as int]);
                        lemma_nets_remove(t, i as int);
                    }
                    networks.remove(i);
                    proof {
                        lemma_nets_finite(networks@);
                        assert(nets_map(networks@) =~= unregister_outcome(
                            m,
                            network_id@,
                            peer_id,
                            stable_id,
                        ));
                    }
                } else {
                    proof {
                        lemma_nets_update(s, i as int, networks@[i as int]);
                        assert(networks@ == s.update(i as int, networks@[i as int]));
                        lemma_nets_finite(networks@);
                        assert(nets_map(networks@) =~= unregister_outcome(
                            m,
                            network_id@,
                            peer_id,
                            stable_id,
                        ));
                    }
                }
                self.networks = networks;
            },
            None => {
                proof {
                    lemma_nets_contains(s, network_id@);
                }
                self.networks = networks;
            },
        }
    }
}

} // verus!
