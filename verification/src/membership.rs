//! The membership view: the peers that discovery currently vouches for, each
//! with the addresses it was found at. Only discovery events change it.

use vstd::prelude::*;
use crate::peer::PeerIdentity;

verus! {

/// A peer of the view as contracts speak of it.
pub struct DiscoveredPeerView {
    pub id: Seq<u8>,
    pub addresses: Seq<Seq<char>>,
}

/// The texts that a list of strings holds.
pub open spec fn texts_of(list: Seq<String>) -> Seq<Seq<char>> {
    list.map_values(|text: String| text@)
}

/// The identifiers that a list of identities holds.
pub open spec fn ids_of(list: Seq<PeerIdentity>) -> Seq<Seq<u8>> {
    list.map_values(|id: PeerIdentity| id@)
}

/// The identifiers of a view's peers, in the view's order.
pub open spec fn peer_ids(view: Seq<DiscoveredPeerView>) -> Seq<Seq<u8>> {
    view.map_values(|peer: DiscoveredPeerView| peer.id)
}

/// Where `id` stands in the view: the index of the first peer with that
/// identifier, or the view's length where there is none.
pub open spec fn peer_position(view: Seq<DiscoveredPeerView>, id: Seq<u8>) -> int
    decreases view.len(),
{
    if view.len() == 0 {
        0
    } else if view[0].id == id {
        0
    } else {
        1 + peer_position(view.drop_first(), id)
    }
}

/// Whether the view holds a peer with that identifier.
pub open spec fn has_peer(view: Seq<DiscoveredPeerView>, id: Seq<u8>) -> bool {
    peer_position(view, id) < view.len()
}

/// The addresses known after `found` were reported: those known before, then
/// each reported address that was not among them yet, once.
pub open spec fn merge_addresses(known: Seq<Seq<char>>, found: Seq<Seq<char>>) -> Seq<Seq<char>>
    decreases found.len(),
{
    if found.len() == 0 {
        known
    } else if known.contains(found[0]) {
        merge_addresses(known, found.drop_first())
    } else {
        merge_addresses(known.push(found[0]), found.drop_first())
    }
}

/// What a view has to be: no peer stands in it twice, every peer has an
/// address that vouches for it, and no address is listed twice for a peer.
pub open spec fn view_wf(view: Seq<DiscoveredPeerView>) -> bool {
    &&& forall|i: int, j: int|
        0 <= i < view.len() && 0 <= j < view.len() && i != j ==> (#[trigger] view[i]).id != (
        #[trigger] view[j]).id
    &&& forall|i: int|
        0 <= i < view.len() ==> (#[trigger] view[i]).addresses.len() > 0
            && view[i].addresses.no_duplicates()
}

/// The view after `id` was discovered at the addresses `found`. A peer that
/// is known has the new addresses added to its own; a peer that is new joins
/// at the end, unless it was reported without any address.
pub open spec fn discovered(
    view: Seq<DiscoveredPeerView>,
    id: Seq<u8>,
    found: Seq<Seq<char>>,
) -> Seq<DiscoveredPeerView> {
    let at = peer_position(view, id);
    if at < view.len() {
        view.update(
            at,
            DiscoveredPeerView { id, addresses: merge_addresses(view[at].addresses, found) },
        )
    } else if found.len() == 0 {
        view
    } else {
        view.push(DiscoveredPeerView { id, addresses: merge_addresses(Seq::empty(), found) })
    }
}

/// The view after discovery reported `id` expired. The peer leaves, unless
/// the listener still has a record of it.
pub open spec fn expired(view: Seq<DiscoveredPeerView>, id: Seq<u8>, still_listed: bool) -> Seq<
    DiscoveredPeerView,
> {
    let at = peer_position(view, id);
    if still_listed || at >= view.len() {
        view
    } else {
        view.remove(at)
    }
}

/// The position of an identifier is an index of the view or its length, it
/// names the first peer with that identifier, and it is the length exactly
/// when no peer has it.
pub proof fn lemma_peer_position(view: Seq<DiscoveredPeerView>, id: Seq<u8>)
    ensures
        0 <= peer_position(view, id) <= view.len(),
        peer_position(view, id) < view.len() ==> view[peer_position(view, id)].id == id,
        forall|j: int| 0 <= j < peer_position(view, id) ==> (#[trigger] view[j]).id != id,
        has_peer(view, id) <==> peer_ids(view).contains(id),
    decreases view.len(),
{
    if view.len() > 0 && view[0].id != id {
        let rest = view.drop_first();
        lemma_peer_position(rest, id);
        let at = peer_position(view, id);
        assert forall|j: int| 0 <= j < at implies (#[trigger] view[j]).id != id by {
            if j > 0 {
                assert(view[j] == rest[j - 1]);
            }
        }
        if peer_ids(rest).contains(id) {
            let k = choose|k: int| 0 <= k < rest.len() && peer_ids(rest)[k] == id;
            assert(peer_ids(view)[k + 1] == id);
        }
    } else if view.len() > 0 {
        assert(peer_ids(view)[0] == id);
    }
}

/// Merging keeps what was known in its place, lists nothing twice, and holds
/// exactly the addresses that were known or found.
pub proof fn lemma_merge_addresses(known: Seq<Seq<char>>, found: Seq<Seq<char>>)
    requires
        known.no_duplicates(),
    ensures
        merge_addresses(known, found).no_duplicates(),
        merge_addresses(known, found).len() >= known.len(),
        found.len() > 0 ==> merge_addresses(known, found).len() > 0,
        forall|i: int| 0 <= i < known.len() ==> merge_addresses(known, found)[i] == known[i],
        forall|a: Seq<char>|
            merge_addresses(known, found).contains(a) <==> known.contains(a) || found.contains(a),
    decreases found.len(),
{
    if found.len() > 0 {
        let first = found[0];
        let rest = found.drop_first();
        let next = if known.contains(first) {
            known
        } else {
            known.push(first)
        };
        lemma_merge_addresses(next, rest);
        let merged = merge_addresses(known, found);
        assert forall|a: Seq<char>| merged.contains(a) <==> known.contains(a) || found.contains(
            a,
        ) by {
            if found.contains(a) {
                let k = choose|k: int| 0 <= k < found.len() && found[k] == a;
                if k > 0 {
                    assert(rest[k - 1] == a);
                } else {
                    assert(next.contains(first)) by {
                        if !known.contains(first) {
                            assert(next[known.len() as int] == first);
                        }
                    }
                }
            }
            if known.contains(a) {
                let k = choose|k: int| 0 <= k < known.len() && known[k] == a;
                assert(next[k] == a);
            }
            if next.contains(a) && !known.contains(a) {
                let k = choose|k: int| 0 <= k < next.len() && next[k] == a;
                assert(k == known.len());
            }
        }
        assert forall|i: int| 0 <= i < known.len() implies merged[i] == known[i] by {
            assert(next[i] == known[i]);
        }
    }
}

/// Addresses that are all known already change nothing when they are merged
/// in again.
pub proof fn lemma_merge_known(known: Seq<Seq<char>>, found: Seq<Seq<char>>)
    requires
        forall|k: int| 0 <= k < found.len() ==> known.contains(#[trigger] found[k]),
    ensures
        merge_addresses(known, found) == known,
    decreases found.len(),
{
    if found.len() > 0 {
        let rest = found.drop_first();
        lemma_merge_known(known, rest);
    }
}

/// A discovery keeps the view well formed.
pub proof fn lemma_discovered_wf(view: Seq<DiscoveredPeerView>, id: Seq<u8>, found: Seq<Seq<char>>)
    requires
        view_wf(view),
    ensures
        view_wf(discovered(view, id, found)),
        has_peer(discovered(view, id, found), id) <==> has_peer(view, id) || found.len() > 0,
        forall|other: Seq<u8>|
            other != id ==> (has_peer(discovered(view, id, found), other) <==> has_peer(
                view,
                other,
            )),
{
    let after = discovered(view, id, found);
    let at = peer_position(view, id);
    lemma_peer_position(view, id);
    lemma_peer_position(after, id);
    if at < view.len() {
        lemma_merge_addresses(view[at].addresses, found);
        assert(peer_ids(after) =~= peer_ids(view));
    } else if found.len() > 0 {
        lemma_merge_addresses(Seq::empty(), found);
        assert(peer_ids(after)[view.len() as int] == id);
    }
    assert forall|other: Seq<u8>| other != id implies (has_peer(after, other) <==> has_peer(
        view,
        other,
    )) by {
        lemma_peer_position(view, other);
        lemma_peer_position(after, other);
        if peer_ids(view).contains(other) {
            let k = choose|k: int| 0 <= k < view.len() && peer_ids(view)[k] == other;
            assert(peer_ids(after)[k] == other);
        }
    }
}

/// An expiry keeps the view well formed; the peer is gone afterwards unless
/// the listener still lists it, and every other peer stays.
pub proof fn lemma_expired_wf(view: Seq<DiscoveredPeerView>, id: Seq<u8>, still_listed: bool)
    requires
        view_wf(view),
    ensures
        view_wf(expired(view, id, still_listed)),
        has_peer(expired(view, id, still_listed), id) <==> has_peer(view, id) && still_listed,
        forall|other: Seq<u8>|
            other != id ==> (has_peer(expired(view, id, still_listed), other) <==> has_peer(
                view,
                other,
            )),
{
    let after = expired(view, id, still_listed);
    let at = peer_position(view, id);
    lemma_peer_position(view, id);
    lemma_peer_position(after, id);
    assert forall|other: Seq<u8>| other != id implies (has_peer(after, other) <==> has_peer(
        view,
        other,
    )) by {
        lemma_peer_position(view, other);
        lemma_peer_position(after, other);
        if !still_listed && at < view.len() {
            if peer_ids(view).contains(other) {
                let k = choose|k: int| 0 <= k < view.len() && peer_ids(view)[k] == other;
                let target = if k < at {
                    k
                } else {
                    k - 1
                };
                assert(peer_ids(after)[target] == other);
            }
        }
    }
}

/// The position of an identifier is the one index that has it and has no
/// peer with it before.
pub proof fn lemma_peer_position_is(view: Seq<DiscoveredPeerView>, id: Seq<u8>, at: int)
    requires
        0 <= at <= view.len(),
        at < view.len() ==> view[at].id == id,
        forall|j: int| 0 <= j < at ==> (#[trigger] view[j]).id != id,
    ensures
        peer_position(view, id) == at,
{
    lemma_peer_position(view, id);
}

/// Discovering a peer twice at the same addresses is discovering it once.
pub proof fn lemma_discovered_idempotent(
    view: Seq<DiscoveredPeerView>,
    id: Seq<u8>,
    found: Seq<Seq<char>>,
)
    requires
        view_wf(view),
    ensures
        discovered(discovered(view, id, found), id, found) == discovered(view, id, found),
{
    let once = discovered(view, id, found);
    let at = peer_position(view, id);
    lemma_peer_position(view, id);
    if at < view.len() {
        let merged = merge_addresses(view[at].addresses, found);
        lemma_merge_addresses(view[at].addresses, found);
        lemma_peer_position_is(once, id, at);
        assert forall|k: int| 0 <= k < found.len() implies merged.contains(
            #[trigger] found[k],
        ) by {
            assert(found.contains(found[k]));
        }
        lemma_merge_known(merged, found);
    } else if found.len() > 0 {
        let merged = merge_addresses(Seq::empty(), found);
        lemma_merge_addresses(Seq::empty(), found);
        lemma_peer_position_is(once, id, at);
        assert forall|k: int| 0 <= k < found.len() implies merged.contains(
            #[trigger] found[k],
        ) by {
            assert(found.contains(found[k]));
        }
        lemma_merge_known(merged, found);
    }
}

/// Expiring a peer twice is expiring it once.
pub proof fn lemma_expired_idempotent(
    view: Seq<DiscoveredPeerView>,
    id: Seq<u8>,
    still_listed: bool,
)
    requires
        view_wf(view),
    ensures
        expired(expired(view, id, still_listed), id, still_listed) == expired(
            view,
            id,
            still_listed,
        ),
{
    lemma_expired_wf(view, id, still_listed);
}

/// A discovery event as contracts speak of it.
pub enum DiscoveryEventView {
    Discovered { peer: Seq<u8>, addresses: Seq<Seq<char>> },
    Expired { peer: Seq<u8>, still_listed: bool },
}

impl DiscoveryEventView {
    /// The peer that the event is about.
    pub open spec fn peer(self) -> Seq<u8> {
        match self {
            DiscoveryEventView::Discovered { peer, .. } => peer,
            DiscoveryEventView::Expired { peer, .. } => peer,
        }
    }
}

/// The view after one event.
pub open spec fn applied(view: Seq<DiscoveredPeerView>, event: DiscoveryEventView) -> Seq<
    DiscoveredPeerView,
> {
    match event {
        DiscoveryEventView::Discovered { peer, addresses } => discovered(view, peer, addresses),
        DiscoveryEventView::Expired { peer, still_listed } => expired(view, peer, still_listed),
    }
}

/// The view after a run of events that began with no peer known.
pub open spec fn replayed(events: Seq<DiscoveryEventView>) -> Seq<DiscoveredPeerView>
    decreases events.len(),
{
    if events.len() == 0 {
        Seq::empty()
    } else {
        applied(replayed(events.drop_last()), events.last())
    }
}

/// Whether the event takes `id` out of the view: an expiry of that peer that
/// the listener does not contradict.
pub open spec fn revokes(event: DiscoveryEventView, id: Seq<u8>) -> bool {
    match event {
        DiscoveryEventView::Expired { peer, still_listed } => peer == id && !still_listed,
        _ => false,
    }
}

/// Whether the event at `at` is a record that still vouches for `id` at the
/// end of the run: it found the peer at some address, and nothing after it
/// took the peer out.
pub open spec fn vouches_at(events: Seq<DiscoveryEventView>, id: Seq<u8>, at: int) -> bool {
    &&& 0 <= at < events.len()
    &&& match events[at] {
        DiscoveryEventView::Discovered { peer, addresses } => peer == id && addresses.len() > 0,
        _ => false,
    }
    &&& forall|later: int| at < later < events.len() ==> !revokes(#[trigger] events[later], id)
}

/// Whether some record of the run still vouches for `id` at its end.
pub open spec fn vouched(events: Seq<DiscoveryEventView>, id: Seq<u8>) -> bool {
    exists|at: int| vouches_at(events, id, at)
}

/// After any run of events the view is well formed: no peer stands in it
/// twice, and no address is listed twice for a peer.
pub proof fn lemma_replayed_wf(events: Seq<DiscoveryEventView>)
    ensures
        view_wf(replayed(events)),
    decreases events.len(),
{
    if events.len() > 0 {
        let before = replayed(events.drop_last());
        lemma_replayed_wf(events.drop_last());
        match events.last() {
            DiscoveryEventView::Discovered { peer, addresses } => {
                lemma_discovered_wf(before, peer, addresses);
            },
            DiscoveryEventView::Expired { peer, still_listed } => {
                lemma_expired_wf(before, peer, still_listed);
            },
        }
    }
}

/// After any run of events the view holds exactly the peers that a record
/// still vouches for: never one without a record, never one short.
pub proof fn lemma_replayed_members(events: Seq<DiscoveryEventView>, id: Seq<u8>)
    ensures
        has_peer(replayed(events), id) <==> vouched(events, id),
    decreases events.len(),
{
    if events.len() > 0 {
        let earlier = events.drop_last();
        let last = events.len() - 1;
        let before = replayed(earlier);
        lemma_replayed_wf(earlier);
        lemma_replayed_members(earlier, id);
        match events.last() {
            DiscoveryEventView::Discovered { peer, addresses } => {
                lemma_discovered_wf(before, peer, addresses);
            },
            DiscoveryEventView::Expired { peer, still_listed } => {
                lemma_expired_wf(before, peer, still_listed);
            },
        }
        if vouched(earlier, id) && !revokes(events.last(), id) {
            let at = choose|at: int| vouches_at(earlier, id, at);
            assert forall|later: int| at < later < events.len() implies !revokes(
                #[trigger] events[later],
                id,
            ) by {
                if later < last {
                    assert(events[later] == earlier[later]);
                }
            }
            assert(vouches_at(events, id, at));
        }
        if vouched(events, id) {
            let at = choose|at: int| vouches_at(events, id, at);
            if at < last {
                assert(vouches_at(earlier, id, at));
            }
        }
        if !vouched(earlier, id) {
            match events.last() {
                DiscoveryEventView::Discovered { peer, addresses } => {
                    if peer == id && addresses.len() > 0 {
                        assert(vouches_at(events, id, last));
                    }
                },
                _ => {},
            }
        }
    }
}

/// A peer that discovery vouches for, and the addresses it was found at.
#[derive(Debug, PartialEq, Eq)]
pub struct DiscoveredPeer {
    pub id: PeerIdentity,
    pub addresses: Vec<String>,
}

impl View for DiscoveredPeer {
    type V = DiscoveredPeerView;

    open spec fn view(&self) -> DiscoveredPeerView {
        DiscoveredPeerView { id: self.id@, addresses: texts_of(self.addresses@) }
    }
}

/// Whether `text` is one of the strings of `list`.
fn text_listed(list: &Vec<String>, text: &String) -> (listed: bool)
    ensures
        listed == texts_of(list@).contains(text@),
{
    let mut i: usize = 0;
    while i < list.len()
        invariant
            i <= list@.len(),
            forall|j: int| 0 <= j < i ==> texts_of(list@)[j] != text@,
        decreases list@.len() - i,
    {
        if list[i] == *text {
            assert(texts_of(list@)[i as int] == text@);
            return true;
        }
        i += 1;
    }
    false
}

/// A copy of a list of strings.
fn copy_texts(list: &Vec<String>) -> (copy: Vec<String>)
    ensures
        texts_of(copy@) == texts_of(list@),
{
    let mut copy: Vec<String> = Vec::new();
    let mut i: usize = 0;
    while i < list.len()
        invariant
            i <= list@.len(),
            copy@.len() == i,
            forall|j: int| 0 <= j < i ==> copy@[j]@ == list@[j]@,
        decreases list@.len() - i,
    {
        copy.push(list[i].clone());
        i += 1;
    }
    copy
}

/// The addresses of a peer after `found` were reported for it.
fn merged_addresses(known: &Vec<String>, found: &[String]) -> (merged: Vec<String>)
    ensures
        texts_of(merged@) == merge_addresses(texts_of(known@), texts_of(found@)),
{
    let mut merged = copy_texts(known);
    let mut i: usize = 0;
    assert(texts_of(found@).skip(0) =~= texts_of(found@));
    while i < found.len()
        invariant
            i <= found@.len(),
            merge_addresses(texts_of(merged@), texts_of(found@).skip(i as int)) == merge_addresses(
                texts_of(known@),
                texts_of(found@),
            ),
        decreases found@.len() - i,
    {
        let ghost before = texts_of(merged@);
        let ghost left = texts_of(found@).skip(i as int);
        assert(left.drop_first() =~= texts_of(found@).skip(i + 1));
        if !text_listed(&merged, &found[i]) {
            merged.push(found[i].clone());
            assert(texts_of(merged@) =~= before.push(left[0]));
        }
        i += 1;
    }
    merged
}

/// The peers that the node floods to: one entry for each peer that discovery
/// vouches for, in the order in which they were first found.
pub struct MembershipView {
    peers: Vec<DiscoveredPeer>,
}

impl View for MembershipView {
    type V = Seq<DiscoveredPeerView>;

    closed spec fn view(&self) -> Seq<DiscoveredPeerView> {
        self.peers@.map_values(|peer: DiscoveredPeer| peer@)
    }
}

impl MembershipView {
    /// Whether the view is well formed. Every view that this library hands
    /// out is, and its methods keep it so.
    pub open spec fn wf(&self) -> bool {
        view_wf(self@)
    }

    /// A view without peers.
    pub fn new() -> (view: MembershipView)
        ensures
            view@ == Seq::<DiscoveredPeerView>::empty(),
            view.wf(),
    {
        let view = MembershipView { peers: Vec::new() };
        view
    }

    /// How many peers the view holds.
    pub fn len(&self) -> (n: usize)
        ensures
            n == self@.len(),
    {
        self.peers.len()
    }

    /// Whether the view holds no peer.
    pub fn is_empty(&self) -> (empty: bool)
        ensures
            empty == (self@.len() == 0),
    {
        self.peers.len() == 0
    }

    /// Where `peer` stands in the view, or the view's length.
    fn position(&self, peer: &PeerIdentity) -> (at: usize)
        ensures
            at == peer_position(self@, peer@),
            at <= self@.len(),
    {
        let mut i: usize = 0;
        assert(self@.skip(0) =~= self@);
        while i < self.peers.len()
            invariant
                i <= self.peers@.len(),
                self@.len() == self.peers@.len(),
                peer_position(self@, peer@) == i + peer_position(self@.skip(i as int), peer@),
            decreases self.peers@.len() - i,
        {
            let ghost left = self@.skip(i as int);
            assert(left.drop_first() =~= self@.skip(i + 1));
            if self.peers[i].id.same_as(peer) {
                return i;
            }
            i += 1;
        }
        i
    }

    /// Whether `peer` is in the view.
    pub fn contains(&self, peer: &PeerIdentity) -> (held: bool)
        ensures
            held == has_peer(self@, peer@),
    {
        self.position(peer) < self.peers.len()
    }

    /// Takes note that discovery found `peer` at `addresses`. A peer that is
    /// known gains the addresses that are new for it; a peer that is new
    /// joins the view, unless it comes without any address. Returns whether
    /// the peer joined.
    pub fn on_discovered(&mut self, peer: &PeerIdentity, addresses: &[String]) -> (joined: bool)
        requires
            old(self).wf(),
        ensures
            final(self).wf(),
            final(self)@ == discovered(old(self)@, peer@, texts_of(addresses@)),
            joined == (!has_peer(old(self)@, peer@) && addresses@.len() > 0),
    {
        proof {
            lemma_discovered_wf(self@, peer@, texts_of(addresses@));
        }
        let at = self.position(peer);
        if at < self.peers.len() {
            let merged = merged_addresses(&self.peers[at].addresses, addresses);
            let entry = DiscoveredPeer { id: peer.clone(), addresses: merged };
            assert(self.peers@.update(at as int, entry).map_values(|peer: DiscoveredPeer| peer@)
                =~= discovered(self@, peer@, texts_of(addresses@)));
            self.peers.set(at, entry);
            false
        } else if addresses.len() == 0 {
            false
        } else {
            let empty: Vec<String> = Vec::new();
            assert(texts_of(empty@) =~= Seq::<Seq<char>>::empty());
            let merged = merged_addresses(&empty, addresses);
            let entry = DiscoveredPeer { id: peer.clone(), addresses: merged };
            assert(self.peers@.push(entry).map_values(|peer: DiscoveredPeer| peer@)
                =~= discovered(self@, peer@, texts_of(addresses@)));
            self.peers.push(entry);
            true
        }
    }

    /// Takes note that discovery reported `peer` expired. The peer leaves the
    /// view, unless the listener still has a record of it (`still_listed`).
    /// Returns whether the peer left.
    pub fn on_expired(&mut self, peer: &PeerIdentity, still_listed: bool) -> (left: bool)
        requires
            old(self).wf(),
        ensures
            final(self).wf(),
            final(self)@ == expired(old(self)@, peer@, still_listed),
            left == (has_peer(old(self)@, peer@) && !still_listed),
    {
        if still_listed {
            return false;
        }
        let at = self.position(peer);
        if at < self.peers.len() {
            assert(self.peers@.remove(at as int).map_values(|peer: DiscoveredPeer| peer@)
                =~= expired(self@, peer@, still_listed));
            self.peers.remove(at);
            true
        } else {
            false
        }
    }

    /// The peers of the view as they are now, each once, in the view's order.
    pub fn current_peers(&self) -> (peers: Vec<PeerIdentity>)
        requires
            self.wf(),
        ensures
            ids_of(peers@) == peer_ids(self@),
            ids_of(peers@).no_duplicates(),
    {
        let mut peers: Vec<PeerIdentity> = Vec::new();
        let mut i: usize = 0;
        while i < self.peers.len()
            invariant
                i <= self.peers@.len(),
                peers@.len() == i,
                forall|j: int| 0 <= j < i ==> peers@[j]@ == self.peers@[j].id@,
            decreases self.peers@.len() - i,
        {
            peers.push(self.peers[i].id.clone());
            i += 1;
        }
        assert(ids_of(peers@) =~= peer_ids(self@));
        peers
    }

    /// The addresses that `peer` was found at, in the order in which they
    /// were first reported, or `None` where the view does not hold the peer.
    pub fn addresses_of(&self, peer: &PeerIdentity) -> (addresses: Option<Vec<String>>)
        ensures
            addresses is Some <==> has_peer(self@, peer@),
            addresses is Some ==> texts_of(addresses.unwrap()@) == self@[peer_position(
                self@,
                peer@,
            )].addresses,
    {
        let at = self.position(peer);
        if at < self.peers.len() {
            Some(copy_texts(&self.peers[at].addresses))
        } else {
            None
        }
    }

    /// Takes note of one discovery event. Returns whether a peer joined or
    /// left.
    pub fn apply(&mut self, event: &DiscoveryEvent) -> (changed: bool)
        requires
            old(self).wf(),
        ensures
            final(self).wf(),
            final(self)@ == applied(old(self)@, event@),
            changed == (has_peer(final(self)@, event@.peer()) != has_peer(
                old(self)@,
                event@.peer(),
            )),
    {
        proof {
            match event@ {
                DiscoveryEventView::Discovered { peer, addresses } => {
                    lemma_discovered_wf(self@, peer, addresses);
                },
                DiscoveryEventView::Expired { peer, still_listed } => {
                    lemma_expired_wf(self@, peer, still_listed);
                },
            }
        }
        match event {
            DiscoveryEvent::Discovered { peer, addresses } => self.on_discovered(
                peer,
                addresses.as_slice(),
            ),
            DiscoveryEvent::Expired { peer, still_listed } => self.on_expired(peer, *still_listed),
        }
    }
}

/// What the discovery service reports.
#[derive(Debug, PartialEq, Eq)]
pub enum DiscoveryEvent {
    /// A peer was found at these addresses.
    Discovered { peer: PeerIdentity, addresses: Vec<String> },
    /// A record of the peer ran out. `still_listed` says whether the
    /// listener has another record of the peer at that moment.
    Expired { peer: PeerIdentity, still_listed: bool },
}

impl View for DiscoveryEvent {
    type V = DiscoveryEventView;

    open spec fn view(&self) -> DiscoveryEventView {
        match self {
            DiscoveryEvent::Discovered { peer, addresses } => DiscoveryEventView::Discovered {
                peer: peer@,
                addresses: texts_of(addresses@),
            },
            DiscoveryEvent::Expired { peer, still_listed } => DiscoveryEventView::Expired {
                peer: peer@,
                still_listed: *still_listed,
            },
        }
    }
}

} // verus!
