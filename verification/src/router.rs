//! The flood router: which topics the node subscribes to, which messages it
//! has seen lately, and to whom an envelope goes. It decides; the caller
//! sends.

use vstd::prelude::*;
use vstd::slice::slice_to_vec;
use crate::cache::{
    cache_wf, copies, lemma_recorded, recorded, DedupKey, DedupKeyView, RecentMessageCache,
};
use crate::membership::{
    has_peer, ids_of, lemma_peer_position, peer_ids, view_wf, DiscoveredPeerView, MembershipView,
};
use crate::peer::{PeerIdentity, Topic};

verus! {

/// An envelope as contracts speak of it.
pub struct EnvelopeView {
    pub origin: Seq<u8>,
    pub sequence: u64,
    pub topic: Seq<char>,
    pub payload: Seq<u8>,
}

impl EnvelopeView {
    /// The key by which the envelope is known again.
    pub open spec fn key(self) -> DedupKeyView {
        DedupKeyView { origin: self.origin, sequence: self.sequence }
    }
}

/// What the router passes on: a payload for a topic, marked with the peer
/// that published it and the number that the peer gave it. Two envelopes
/// with the same origin and number are the same message, by whatever path
/// they come.
#[derive(Debug, PartialEq, Eq)]
pub struct FloodEnvelope {
    pub origin: PeerIdentity,
    pub sequence: u64,
    pub topic: Topic,
    pub payload: Vec<u8>,
}

impl View for FloodEnvelope {
    type V = EnvelopeView;

    open spec fn view(&self) -> EnvelopeView {
        EnvelopeView {
            origin: self.origin@,
            sequence: self.sequence,
            topic: self.topic@,
            payload: self.payload@,
        }
    }
}

impl FloodEnvelope {
    /// The key by which the envelope is known again.
    pub fn key(&self) -> (key: DedupKey)
        ensures
            key@ == self@.key(),
    {
        DedupKey { origin: self.origin.clone(), sequence: self.sequence }
    }
}

impl Clone for FloodEnvelope {
    fn clone(&self) -> (copy: Self)
        ensures
            copy@ == self@,
    {
        FloodEnvelope {
            origin: self.origin.clone(),
            sequence: self.sequence,
            topic: self.topic.clone(),
            payload: slice_to_vec(self.payload.as_slice()),
        }
    }
}

/// A router as contracts speak of it.
pub struct RouterView {
    pub local: Seq<u8>,
    pub subscriptions: Seq<Seq<char>>,
    pub recent: Seq<DedupKeyView>,
    pub capacity: nat,
    pub next_sequence: u64,
}

/// What the router decides about an envelope that came in, as contracts
/// speak of it.
pub struct ReceptionView {
    pub fresh: bool,
    pub deliver: bool,
    pub forward_to: Seq<Seq<u8>>,
}

/// What a router has to be: its cache is well formed, and it lists no topic
/// twice.
pub open spec fn router_wf(state: RouterView) -> bool {
    &&& cache_wf(state.recent, state.capacity)
    &&& state.subscriptions.no_duplicates()
}

/// The peers of `peers` but the one that is `excluded`, in their order.
pub open spec fn except(peers: Seq<Seq<u8>>, excluded: Option<Seq<u8>>) -> Seq<Seq<u8>>
    decreases peers.len(),
{
    if peers.len() == 0 {
        Seq::empty()
    } else if excluded == Some(peers.last()) {
        except(peers.drop_last(), excluded)
    } else {
        except(peers.drop_last(), excluded).push(peers.last())
    }
}

/// The number that follows `sequence`; after the largest comes 0 again.
pub open spec fn following(sequence: u64) -> u64 {
    if sequence == u64::MAX {
        0
    } else {
        (sequence + 1) as u64
    }
}

/// The router after it subscribed to `topic`.
pub open spec fn subscribed(state: RouterView, topic: Seq<char>) -> RouterView {
    if state.subscriptions.contains(topic) {
        state
    } else {
        RouterView { subscriptions: state.subscriptions.push(topic), ..state }
    }
}

/// The envelope that the router makes of a payload that it publishes: its
/// own identity, and the next number that it has not given out.
pub open spec fn publication(state: RouterView, topic: Seq<char>, payload: Seq<u8>) -> EnvelopeView {
    EnvelopeView { origin: state.local, sequence: state.next_sequence, topic, payload }
}

/// The router after it published: the envelope's key is recorded, and the
/// number is used up.
pub open spec fn published(state: RouterView, topic: Seq<char>, payload: Seq<u8>) -> RouterView {
    RouterView {
        recent: recorded(
            state.recent,
            publication(state, topic, payload).key(),
            state.capacity,
        ),
        next_sequence: following(state.next_sequence),
        ..state
    }
}

/// The router after `envelope` came in: its key is recorded. Where the key
/// was held already, nothing changes.
pub open spec fn received(state: RouterView, envelope: EnvelopeView) -> RouterView {
    RouterView { recent: recorded(state.recent, envelope.key(), state.capacity), ..state }
}

/// What the router decides about `envelope`, come in from `from` while
/// `peers` are in the membership view. An envelope whose key the cache holds
/// is discarded. A new one is shown where the router subscribes to its
/// topic, and goes on, whatever its topic, to every peer but the one that
/// it came from.
pub open spec fn reception(
    state: RouterView,
    envelope: EnvelopeView,
    from: Option<Seq<u8>>,
    peers: Seq<Seq<u8>>,
) -> ReceptionView {
    if state.recent.contains(envelope.key()) {
        ReceptionView { fresh: false, deliver: false, forward_to: Seq::empty() }
    } else {
        ReceptionView {
            fresh: true,
            deliver: state.subscriptions.contains(envelope.topic),
            forward_to: except(peers, from),
        }
    }
}

/// Leaving a peer out keeps the others, each in its place and none twice;
/// leaving none out keeps all.
pub proof fn lemma_except(peers: Seq<Seq<u8>>, excluded: Option<Seq<u8>>)
    ensures
        forall|id: Seq<u8>|
            except(peers, excluded).contains(id) <==> peers.contains(id) && excluded != Some(id),
        peers.no_duplicates() ==> except(peers, excluded).no_duplicates(),
        excluded is None ==> except(peers, excluded) == peers,
        except(peers, excluded).len() <= peers.len(),
    decreases peers.len(),
{
    if peers.len() > 0 {
        let rest = peers.drop_last();
        let last = peers.last();
        let kept = except(rest, excluded);
        let all = except(peers, excluded);
        lemma_except(rest, excluded);
        assert forall|id: Seq<u8>| all.contains(id) <==> peers.contains(id) && excluded != Some(
            id,
        ) by {
            if peers.contains(id) {
                let k = choose|k: int| 0 <= k < peers.len() && peers[k] == id;
                if k < rest.len() {
                    assert(rest[k] == id);
                }
            }
            if rest.contains(id) {
                let k = choose|k: int| 0 <= k < rest.len() && rest[k] == id;
                assert(peers[k] == id);
            }
            if kept.contains(id) && excluded != Some(last) {
                let k = choose|k: int| 0 <= k < kept.len() && kept[k] == id;
                assert(all[k] == id);
            }
            if id == last && excluded != Some(last) {
                assert(all[kept.len() as int] == id);
            }
        }
        if peers.no_duplicates() {
            if excluded != Some(last) {
                assert(!kept.contains(last)) by {
                    if rest.contains(last) {
                        let k = choose|k: int| 0 <= k < rest.len() && rest[k] == last;
                        assert(peers[k] == peers[peers.len() - 1]);
                    }
                }
            }
        }
    }
}

/// Subscribing twice to a topic is subscribing once.
pub proof fn lemma_subscribed_idempotent(state: RouterView, topic: Seq<char>)
    ensures
        subscribed(state, topic).subscriptions.contains(topic),
        subscribed(subscribed(state, topic), topic) == subscribed(state, topic),
        router_wf(state) ==> router_wf(subscribed(state, topic)),
{
    let after = subscribed(state, topic);
    if !state.subscriptions.contains(topic) {
        assert(after.subscriptions[state.subscriptions.len() as int] == topic);
    }
}

/// Of an envelope that is published exactly one copy is recorded in the
/// cache, and the delivery goes to each peer of the membership view exactly
/// once and to no one else.
pub proof fn lemma_published_once(
    state: RouterView,
    topic: Seq<char>,
    payload: Seq<u8>,
    view: Seq<DiscoveredPeerView>,
)
    requires
        router_wf(state),
        view_wf(view),
    ensures
        router_wf(published(state, topic, payload)),
        copies(published(state, topic, payload).recent, publication(state, topic, payload).key())
            == 1,
        peer_ids(view).no_duplicates(),
        forall|id: Seq<u8>| peer_ids(view).contains(id) <==> has_peer(view, id),
{
    lemma_recorded(state.recent, publication(state, topic, payload).key(), state.capacity);
    assert forall|id: Seq<u8>| peer_ids(view).contains(id) <==> has_peer(view, id) by {
        lemma_peer_position(view, id);
    }
}

/// The same envelope delivered twice is shown at most once and goes on at
/// most once: the second delivery changes nothing, shows nothing and sends
/// nothing, whoever brings it and whoever is in the view by then.
pub proof fn lemma_inbound_idempotent(
    state: RouterView,
    envelope: EnvelopeView,
    first_from: Option<Seq<u8>>,
    first_peers: Seq<Seq<u8>>,
    second_from: Option<Seq<u8>>,
    second_peers: Seq<Seq<u8>>,
)
    requires
        router_wf(state),
    ensures
        router_wf(received(state, envelope)),
        received(received(state, envelope), envelope) == received(state, envelope),
        reception(received(state, envelope), envelope, second_from, second_peers) == (
        ReceptionView { fresh: false, deliver: false, forward_to: Seq::empty() }),
        reception(state, envelope, first_from, first_peers).deliver ==> state.subscriptions.contains(
            envelope.topic,
        ),
{
    lemma_recorded(state.recent, envelope.key(), state.capacity);
}

/// An envelope that the node published and that comes back to it is
/// discarded.
pub proof fn lemma_echo_discarded(
    state: RouterView,
    topic: Seq<char>,
    payload: Seq<u8>,
    from: Option<Seq<u8>>,
    peers: Seq<Seq<u8>>,
)
    requires
        router_wf(state),
    ensures
        reception(
            published(state, topic, payload),
            publication(state, topic, payload),
            from,
            peers,
        ) == (ReceptionView { fresh: false, deliver: false, forward_to: Seq::empty() }),
        received(published(state, topic, payload), publication(state, topic, payload))
            == published(state, topic, payload),
{
    lemma_recorded(state.recent, publication(state, topic, payload).key(), state.capacity);
}

/// The router after it published each of `payloads` in turn.
pub open spec fn published_all(state: RouterView, topic: Seq<char>, payloads: Seq<Seq<u8>>) -> RouterView
    decreases payloads.len(),
{
    if payloads.len() == 0 {
        state
    } else {
        published(published_all(state, topic, payloads.drop_last()), topic, payloads.last())
    }
}

/// A router that has seen nothing and has given out no number.
pub open spec fn fresh_router(local: Seq<u8>, capacity: nat) -> RouterView {
    RouterView {
        local,
        subscriptions: Seq::empty(),
        recent: Seq::empty(),
        capacity,
        next_sequence: 0,
    }
}

/// However many messages are published, the cache stays within its bound.
pub proof fn lemma_publishing_stays_bounded(
    state: RouterView,
    topic: Seq<char>,
    payloads: Seq<Seq<u8>>,
)
    requires
        router_wf(state),
    ensures
        router_wf(published_all(state, topic, payloads)),
        published_all(state, topic, payloads).capacity == state.capacity,
        published_all(state, topic, payloads).local == state.local,
        published_all(state, topic, payloads).subscriptions == state.subscriptions,
        published_all(state, topic, payloads).recent.len() <= state.capacity,
    decreases payloads.len(),
{
    if payloads.len() > 0 {
        let before = published_all(state, topic, payloads.drop_last());
        lemma_publishing_stays_bounded(state, topic, payloads.drop_last());
    }
}

/// Of the messages that a fresh router publishes, the cache holds the
/// newest, as many as it may, in the order of their numbers: the oldest
/// are evicted first.
pub proof fn lemma_publishing_evicts_oldest(
    local: Seq<u8>,
    capacity: nat,
    topic: Seq<char>,
    payloads: Seq<Seq<u8>>,
)
    requires
        capacity >= 1,
        payloads.len() <= u64::MAX,
    ensures
        published_all(fresh_router(local, capacity), topic, payloads).next_sequence
            == payloads.len(),
        published_all(fresh_router(local, capacity), topic, payloads).recent == Seq::new(
            if payloads.len() > capacity {
                capacity
            } else {
                payloads.len()
            },
            |i: int|
                DedupKeyView {
                    origin: local,
                    sequence: (i + if payloads.len() > capacity {
                        payloads.len() - capacity
                    } else {
                        0
                    }) as u64,
                },
        ),
    decreases payloads.len(),
{
    if payloads.len() > 0 {
        let earlier = payloads.drop_last();
        lemma_publishing_evicts_oldest(local, capacity, topic, earlier);
        lemma_publishing_stays_bounded(fresh_router(local, capacity), topic, earlier);
    }
}

/// What the router hands back when it has published: the envelope to send,
/// and the peers to send it to.
#[derive(Debug, PartialEq, Eq)]
pub struct Publication {
    pub envelope: FloodEnvelope,
    pub targets: Vec<PeerIdentity>,
}

/// What the router decides about an envelope that came in: whether it was
/// new, whether it is to be shown, and whom it is to be passed on to.
#[derive(Debug, PartialEq, Eq)]
pub struct Reception {
    pub fresh: bool,
    pub deliver: bool,
    pub forward_to: Vec<PeerIdentity>,
}

impl View for Reception {
    type V = ReceptionView;

    open spec fn view(&self) -> ReceptionView {
        ReceptionView {
            fresh: self.fresh,
            deliver: self.deliver,
            forward_to: ids_of(self.forward_to@),
        }
    }
}

/// The identifier of the peer that an envelope came from, where it is known.
pub open spec fn id_of(from: Option<&PeerIdentity>) -> Option<Seq<u8>> {
    match from {
        Some(peer) => Some(peer@),
        None => None,
    }
}

/// The peers of `peers` but `excluded`.
fn peers_except(peers: &Vec<PeerIdentity>, excluded: Option<&PeerIdentity>) -> (kept: Vec<
    PeerIdentity,
>)
    ensures
        ids_of(kept@) == except(ids_of(peers@), id_of(excluded)),
{
    let mut kept: Vec<PeerIdentity> = Vec::new();
    let mut i: usize = 0;
    while i < peers.len()
        invariant
            i <= peers@.len(),
            ids_of(kept@) == except(ids_of(peers@).take(i as int), id_of(excluded)),
        decreases peers@.len() - i,
    {
        let ghost upto = ids_of(peers@).take(i + 1);
        assert(upto.drop_last() =~= ids_of(peers@).take(i as int));
        let left_out = match excluded {
            Some(peer) => peer.same_as(&peers[i]),
            None => false,
        };
        if !left_out {
            kept.push(peers[i].clone());
        }
        i += 1;
    }
    assert(ids_of(peers@).take(i as int) =~= ids_of(peers@));
    kept
}

/// The router of one node.
pub struct FloodRouter {
    local: PeerIdentity,
    subscriptions: Vec<Topic>,
    recent: RecentMessageCache,
    next_sequence: u64,
}

impl View for FloodRouter {
    type V = RouterView;

    closed spec fn view(&self) -> RouterView {
        RouterView {
            local: self.local@,
            subscriptions: self.subscriptions@.map_values(|topic: Topic| topic@),
            recent: self.recent@,
            capacity: self.recent.bound(),
            next_sequence: self.next_sequence,
        }
    }
}

impl FloodRouter {
    /// Whether the router is well formed. Every router that this library
    /// hands out is, and its methods keep it so.
    pub open spec fn wf(&self) -> bool {
        router_wf(self@)
    }

    /// A router for the node `local` that remembers the last `capacity`
    /// messages; none where `capacity` is 0. It subscribes to nothing, has
    /// seen nothing, and numbers its messages from 0.
    pub fn new(local: PeerIdentity, capacity: usize) -> (router: Option<FloodRouter>)
        ensures
            router is Some <==> capacity > 0,
            router is Some ==> router.unwrap().wf() && router.unwrap()@ == (RouterView {
                local: local@,
                subscriptions: Seq::empty(),
                recent: Seq::empty(),
                capacity: capacity as nat,
                next_sequence: 0,
            }),
    {
        match RecentMessageCache::new(capacity) {
            None => None,
            Some(recent) => {
                let router = FloodRouter {
                    local,
                    subscriptions: Vec::new(),
                    recent,
                    next_sequence: 0,
                };
                assert(router@.subscriptions =~= Seq::<Seq<char>>::empty());
                Some(router)
            },
        }
    }

    /// The node that the router belongs to.
    pub fn local(&self) -> (local: &PeerIdentity)
        ensures
            local@ == self@.local,
    {
        &self.local
    }

    /// Whether the router subscribes to `topic`.
    pub fn is_subscribed(&self, topic: &Topic) -> (held: bool)
        ensures
            held == self@.subscriptions.contains(topic@),
    {
        let mut i: usize = 0;
        while i < self.subscriptions.len()
            invariant
                i <= self.subscriptions@.len(),
                self@.subscriptions.len() == self.subscriptions@.len(),
                forall|j: int| 0 <= j < i ==> self@.subscriptions[j] != topic@,
            decreases self.subscriptions@.len() - i,
        {
            if self.subscriptions[i].same_as(topic) {
                assert(self@.subscriptions[i as int] == topic@);
                return true;
            }
            i += 1;
        }
        false
    }

    /// Whether the router has seen the message with that key lately.
    pub fn has_seen(&self, key: &DedupKey) -> (seen: bool)
        ensures
            seen == self@.recent.contains(key@),
    {
        self.recent.contains(key)
    }

    /// Subscribes to `topic`. Returns whether the subscription is new; a
    /// second subscription to a topic changes nothing.
    pub fn subscribe(&mut self, topic: Topic) -> (added: bool)
        requires
            old(self).wf(),
        ensures
            final(self).wf(),
            final(self)@ == subscribed(old(self)@, topic@),
            final(self)@.subscriptions.contains(topic@),
            added == !old(self)@.subscriptions.contains(topic@),
    {
        proof {
            lemma_subscribed_idempotent(self@, topic@);
        }
        if self.is_subscribed(&topic) {
            false
        } else {
            self.subscriptions.push(topic);
            assert(self@.subscriptions =~= old(self)@.subscriptions.push(topic@));
            true
        }
    }

    /// Publishes `payload` under `topic`: makes the envelope, with the next
    /// number of this node, records its key, and names as targets the peers
    /// that are in the membership view now, each once. A send that fails is
    /// the caller's to log and to skip.
    pub fn publish(&mut self, topic: Topic, payload: Vec<u8>, view: &MembershipView) -> (out:
        Publication)
        requires
            old(self).wf(),
            view.wf(),
        ensures
            final(self).wf(),
            final(self)@ == published(old(self)@, topic@, payload@),
            out.envelope@ == publication(old(self)@, topic@, payload@),
            final(self)@.recent.contains(out.envelope@.key()),
            copies(final(self)@.recent, out.envelope@.key()) == 1,
            ids_of(out.targets@) == peer_ids(view@),
            ids_of(out.targets@).no_duplicates(),
    {
        let envelope = FloodEnvelope {
            origin: self.local.clone(),
            sequence: self.next_sequence,
            topic,
            payload,
        };
        self.recent.insert(envelope.key());
        self.next_sequence = if self.next_sequence == u64::MAX {
            0
        } else {
            self.next_sequence + 1
        };
        let targets = view.current_peers();
        Publication { envelope, targets }
    }

    /// Takes in an envelope that `from` sent, while `view` holds the peers.
    /// An envelope that the cache knows is discarded: it is neither shown nor
    /// passed on. A new one is recorded; it is to be shown where the router
    /// subscribes to its topic, and it is to be passed on, whatever its
    /// topic, to every peer of the view but the sender.
    pub fn on_inbound(
        &mut self,
        envelope: &FloodEnvelope,
        from: Option<&PeerIdentity>,
        view: &MembershipView,
    ) -> (out: Reception)
        requires
            old(self).wf(),
            view.wf(),
        ensures
            final(self).wf(),
            final(self)@ == received(old(self)@, envelope@),
            out@ == reception(old(self)@, envelope@, id_of(from), peer_ids(view@)),
            final(self)@.recent.contains(envelope@.key()),
            ids_of(out.forward_to@).no_duplicates(),
    {
        proof {
            lemma_except(peer_ids(view@), id_of(from));
        }
        let fresh = self.recent.insert(envelope.key());
        if !fresh {
            let forward_to: Vec<PeerIdentity> = Vec::new();
            assert(ids_of(forward_to@) =~= Seq::<Seq<u8>>::empty());
            return Reception { fresh: false, deliver: false, forward_to };
        }
        let deliver = self.is_subscribed(&envelope.topic);
        let peers = view.current_peers();
        let forward_to = peers_except(&peers, from);
        Reception { fresh: true, deliver, forward_to }
    }
}

} // verus!
