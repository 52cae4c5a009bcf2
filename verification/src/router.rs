//! The session router: which session an inbound packet belongs to.
//!
//! The router owns the only map from session ids to inboxes. It hands out the
//! ids itself, from one counter for the whole node, so no two sessions of a
//! node ever have the same id, whatever their kinds. On top of that the two
//! kinds are registered apart: a `PieceDelivery` goes to the download session
//! of its id and to nothing else, every other packet to the seed session of
//! its id and to nothing else, so a download and a seed never receive each
//! other's packets. A packet for which no session of its kind has its id is
//! dropped and counted; it holds nothing else up.
//!
//! `H` is the handle of a session's inbox, whatever the caller uses to reach
//! the session; the router only stores it and hands it out.

use crate::packet::{Packet, PacketType, PacketView};
use std::collections::HashMap;
use vstd::prelude::*;
use vstd::std_specs::hash::*;

verus! {

broadcast use vstd::std_specs::hash::group_hash_axioms;

/// The two kinds of session.
#[derive(Clone, Copy, Debug, PartialEq, Eq, Structural)]
pub enum SessionKind {
    Download,
    Seed,
}

/// Where a packet goes.
#[derive(Clone, Copy, Debug, PartialEq, Eq, Structural)]
pub enum Route {
    /// To the inbox of the download session with this id.
    Download(u64),
    /// To the inbox of the seed session with this id.
    Seed(u64),
    /// Nowhere: no session of the packet's kind has its id.
    Dropped,
}

/// What became of a packet that was handed to the inbox of its session.
#[derive(Clone, Copy, Debug, PartialEq, Eq, Structural)]
pub enum Delivery {
    /// The inbox took the packet.
    Accepted,
    /// The inbox was full and rejected the packet.
    Full,
    /// The inbox is closed: its session has ended.
    Closed,
}

/// The registry of sessions and the count of dropped packets.
pub struct Router<H> {
    downloads: HashMap<u64, H>,
    seeds: HashMap<u64, H>,
    next_id: u64,
    dropped: u64,
}

/// A `Router` as a mathematical value.
pub struct RouterView<H> {
    /// The inboxes of the registered download sessions, by id.
    pub downloads: Map<u64, H>,
    /// The inboxes of the registered seed sessions, by id.
    pub seeds: Map<u64, H>,
    /// The id that the next session gets, of whichever kind it is.
    pub next_id: u64,
    /// Number of packets dropped so far; it stops at `u64::MAX`.
    pub dropped: u64,
}

/// The kind of session that packets of type `packet_type` are for: deliveries
/// are for downloads, everything else is for seeds.
pub open spec fn spec_kind(packet_type: PacketType) -> SessionKind {
    if packet_type == PacketType::PieceDelivery {
        SessionKind::Download
    } else {
        SessionKind::Seed
    }
}

/// `total`, or `u64::MAX` where `total` is more than that.
pub open spec fn spec_saturate(total: nat) -> u64 {
    if total > u64::MAX {
        u64::MAX
    } else {
        total as u64
    }
}

/// Number of `Dropped` among `routes`.
pub open spec fn spec_dropped(routes: Seq<Route>) -> nat
    decreases routes.len(),
{
    if routes.len() == 0 {
        0
    } else {
        spec_dropped(routes.drop_last()) + if routes.last() is Dropped {
            1nat
        } else {
            0nat
        }
    }
}

impl<H> RouterView<H> {
    /// Session ids are unique on the node. Every registered id was handed out
    /// by the router, so it is below the next id to hand out and no id is ever
    /// given twice; and no id is registered under both kinds.
    pub open spec fn wf(self) -> bool {
        &&& forall|id: u64| #[trigger] self.downloads.contains_key(id) ==> id < self.next_id
        &&& forall|id: u64| #[trigger] self.seeds.contains_key(id) ==> id < self.next_id
        &&& forall|id: u64|
            !(#[trigger] self.downloads.contains_key(id) && #[trigger] self.seeds.contains_key(id))
    }

    /// The registered sessions of one kind.
    pub open spec fn sessions(self, kind: SessionKind) -> Map<u64, H> {
        match kind {
            SessionKind::Download => self.downloads,
            SessionKind::Seed => self.seeds,
        }
    }

    /// Where `packet` goes: to the session of its kind that has its id, if
    /// there is one. Nothing but the packet's type and id and the sessions of
    /// that one kind has a say.
    pub open spec fn route(self, packet: PacketView) -> Route {
        match spec_kind(packet.packet_type) {
            SessionKind::Download => if self.downloads.contains_key(packet.thread_id) {
                Route::Download(packet.thread_id)
            } else {
                Route::Dropped
            },
            SessionKind::Seed => if self.seeds.contains_key(packet.thread_id) {
                Route::Seed(packet.thread_id)
            } else {
                Route::Dropped
            },
        }
    }

    /// Where each packet of a batch goes: each as if it had come alone.
    pub open spec fn routes(self, packets: Seq<PacketView>) -> Seq<Route> {
        Seq::new(packets.len(), |at: int| self.route(packets[at]))
    }

    /// The inbox that a route leads to.
    pub open spec fn inbox(self, route: Route) -> Option<H> {
        match route {
            Route::Download(id) => if self.downloads.contains_key(id) {
                Some(self.downloads[id])
            } else {
                None
            },
            Route::Seed(id) => if self.seeds.contains_key(id) {
                Some(self.seeds[id])
            } else {
                None
            },
            Route::Dropped => None,
        }
    }

    /// The router after `count` more packets were dropped.
    pub open spec fn counting(self, count: nat) -> RouterView<H> {
        RouterView { dropped: spec_saturate((self.dropped + count) as nat), ..self }
    }

    /// The router after a session with inbox `inbox` was registered under the
    /// next id.
    pub open spec fn registering(self, kind: SessionKind, inbox: H) -> RouterView<H> {
        match kind {
            SessionKind::Download => RouterView {
                downloads: self.downloads.insert(self.next_id, inbox),
                next_id: (self.next_id + 1) as u64,
                ..self
            },
            SessionKind::Seed => RouterView {
                seeds: self.seeds.insert(self.next_id, inbox),
                next_id: (self.next_id + 1) as u64,
                ..self
            },
        }
    }

    /// The router after a packet on `route` met with `delivery`: a closed
    /// inbox takes its session out of the registry, anything else changes nothing.
    pub open spec fn settled(self, route: Route, delivery: Delivery) -> RouterView<H> {
        if delivery is Closed {
            match route {
                Route::Download(id) => self.removing(SessionKind::Download, id),
                Route::Seed(id) => self.removing(SessionKind::Seed, id),
                Route::Dropped => self,
            }
        } else {
            self
        }
    }

    /// The router with the sessions of one kind replaced by `sessions`.
    pub open spec fn with_sessions(self, kind: SessionKind, sessions: Map<u64, H>) -> RouterView<H> {
        match kind {
            SessionKind::Download => RouterView { downloads: sessions, ..self },
            SessionKind::Seed => RouterView { seeds: sessions, ..self },
        }
    }

    /// The router after the session `id` of a kind was taken out.
    pub open spec fn removing(self, kind: SessionKind, id: u64) -> RouterView<H> {
        match kind {
            SessionKind::Download => RouterView { downloads: self.downloads.remove(id), ..self },
            SessionKind::Seed => RouterView { seeds: self.seeds.remove(id), ..self },
        }
    }
}

/// The kind of session that a packet of type `packet_type` is for.
pub fn classify(packet_type: PacketType) -> (kind: SessionKind)
    ensures
        kind == spec_kind(packet_type),
{
    match packet_type {
        PacketType::PieceDelivery => SessionKind::Download,
        _ => SessionKind::Seed,
    }
}

impl<H> View for Router<H> {
    type V = RouterView<H>;

    closed spec fn view(&self) -> RouterView<H> {
        RouterView {
            downloads: self.downloads@,
            seeds: self.seeds@,
            next_id: self.next_id,
            dropped: self.dropped,
        }
    }
}

impl<H> Router<H> {
    /// What holds of every router: its session ids are unique on the node.
    #[verifier::type_invariant]
    spec fn ids_are_unique(&self) -> bool {
        self@.wf()
    }

    /// A router with no session; the first session gets id 0.
    pub fn new() -> (router: Self)
        ensures
            router@.wf(),
            router@ == (RouterView::<H> {
                downloads: Map::empty(),
                seeds: Map::empty(),
                next_id: 0,
                dropped: 0,
            }),
    {
        Router {
            downloads: HashMap::new(),
            seeds: HashMap::new(),
            next_id: 0,
            dropped: 0,
        }
    }

    /// Registers a session of kind `kind` whose inbox is `inbox`, and hands
    /// back its id: the next one, which no session of the node has or ever
    /// had. Where the ids are used up, the inbox comes back and nothing changes.
    pub fn register(&mut self, kind: SessionKind, inbox: H) -> (result: Result<u64, H>)
        ensures
            final(self)@.wf(),
            match result {
                Ok(id) => {
                    &&& old(self)@.next_id < u64::MAX
                    &&& id == old(self)@.next_id
                    &&& !old(self)@.downloads.contains_key(id)
                    &&& !old(self)@.seeds.contains_key(id)
                    &&& final(self)@ == old(self)@.registering(kind, inbox)
                },
                Err(returned) => {
                    &&& old(self)@.next_id == u64::MAX
                    &&& returned == inbox
                    &&& final(self)@ == old(self)@
                },
            },
    {
        proof {
            use_type_invariant(&*self);
        }
        let id: u64 = self.next_id;
        if id == u64::MAX {
            return Err(inbox);
        }
        proof {
            lemma_ids_are_unique(self@, kind, inbox);
        }
        self.next_id = id + 1;
        let mut sessions: HashMap<u64, H> = HashMap::new();
        match kind {
            SessionKind::Download => {
                std::mem::swap(&mut sessions, &mut self.downloads);
                sessions.insert(id, inbox);
                self.downloads = sessions;
            },
            SessionKind::Seed => {
                std::mem::swap(&mut sessions, &mut self.seeds);
                sessions.insert(id, inbox);
                self.seeds = sessions;
            },
        }
        Ok(id)
    }

    /// Takes the session `id` of kind `kind` out of the registry and hands
    /// back its inbox, if it was registered. Packets for it are dropped from
    /// now on; its id is not given out again.
    pub fn unregister(&mut self, kind: SessionKind, id: u64) -> (inbox: Option<H>)
        ensures
            final(self)@.wf(),
            final(self)@ == old(self)@.removing(kind, id),
            inbox == if old(self)@.sessions(kind).contains_key(id) {
                Some(old(self)@.sessions(kind)[id])
            } else {
                None
            },
    {
        proof {
            use_type_invariant(&*self);
            lemma_removing_keeps_ids(self@, kind, id);
        }
        let mut sessions: HashMap<u64, H> = HashMap::new();
        match kind {
            SessionKind::Download => {
                std::mem::swap(&mut sessions, &mut self.downloads);
                let inbox = sessions.remove(&id);
                self.downloads = sessions;
                inbox
            },
            SessionKind::Seed => {
                std::mem::swap(&mut sessions, &mut self.seeds);
                let inbox = sessions.remove(&id);
                self.seeds = sessions;
                inbox
            },
        }
    }

    /// Takes note of what became of a packet that was sent on `route`. A
    /// session whose inbox is closed has ended: it is taken out of the
    /// registry, so that packets for it are dropped from now on, and its inbox
    /// is handed back. A full inbox only costs the one packet it rejected.
    pub fn settle(&mut self, route: Route, delivery: Delivery) -> (removed: Option<H>)
        ensures
            final(self)@.wf(),
            final(self)@ == old(self)@.settled(route, delivery),
            removed == if delivery is Closed {
                old(self)@.inbox(route)
            } else {
                None
            },
    {
        proof {
            use_type_invariant(&*self);
        }
        match delivery {
            Delivery::Closed => match route {
                Route::Download(id) => self.unregister(SessionKind::Download, id),
                Route::Seed(id) => self.unregister(SessionKind::Seed, id),
                Route::Dropped => None,
            },
            _ => None,
        }
    }

    /// Decides where `packet` goes, and counts it if it goes nowhere.
    pub fn route(&mut self, packet: &Packet) -> (route: Route)
        ensures
            final(self)@.wf(),
            route == old(self)@.route(packet@),
            final(self)@ == old(self)@.counting(
                if route is Dropped {
                    1
                } else {
                    0
                },
            ),
    {
        proof {
            use_type_invariant(&*self);
            lemma_counting_keeps_ids(self@, 1);
            lemma_counting_keeps_ids(self@, 0);
        }
        let route = self.lookup(packet);
        if route == Route::Dropped && self.dropped < u64::MAX {
            self.dropped = self.dropped + 1;
        }
        route
    }

    /// Decides where `packet` would go, without counting anything.
    pub fn lookup(&self, packet: &Packet) -> (route: Route)
        ensures
            self@.wf(),
            route == self@.route(packet@),
    {
        proof {
            use_type_invariant(self);
        }
        let id: u64 = packet.thread_id;
        match classify(packet.packet_type) {
            SessionKind::Download => if self.downloads.contains_key(&id) {
                Route::Download(id)
            } else {
                Route::Dropped
            },
            SessionKind::Seed => if self.seeds.contains_key(&id) {
                Route::Seed(id)
            } else {
                Route::Dropped
            },
        }
    }

    /// Decides where each packet of a batch goes, in the batch's order, and
    /// counts those that go nowhere. Each packet is routed as if it had come
    /// alone: a dropped packet changes nothing for the packets after it.
    pub fn route_batch(&mut self, packets: &Vec<Packet>) -> (routes: Vec<Route>)
        ensures
            final(self)@.wf(),
            routes@ == old(self)@.routes(packets.deep_view()),
            final(self)@ == old(self)@.counting(spec_dropped(routes@)),
    {
        proof {
            use_type_invariant(&*self);
        }
        let mut routes: Vec<Route> = Vec::new();
        let mut at: usize = 0;
        assert(self@ == old(self)@.counting(0));
        while at < packets.len()
            invariant
                at <= packets.len(),
                self@.wf(),
                routes.len() == at,
                forall|k: int| 0 <= k < at ==> routes[k] == old(self)@.route(packets[k]@),
                self@ == old(self)@.counting(spec_dropped(routes@)),
            decreases packets.len() - at,
        {
            let ghost before = routes@;
            let route = self.route(&packets[at]);
            routes.push(route);
            assert(routes@.drop_last() =~= before);
            at += 1;
        }
        assert(routes@ =~= old(self)@.routes(packets.deep_view()));
        routes
    }

    /// The inbox that `route` leads to, if it leads to a registered session.
    pub fn inbox(&self, route: Route) -> (inbox: Option<&H>)
        ensures
            match inbox {
                Some(handle) => self@.inbox(route) == Some(*handle),
                None => self@.inbox(route) is None,
            },
    {
        match route {
            Route::Download(id) => self.downloads.get(&id),
            Route::Seed(id) => self.seeds.get(&id),
            Route::Dropped => None,
        }
    }

    /// Number of packets dropped so far.
    pub fn dropped(&self) -> (count: u64)
        ensures
            count == self@.dropped,
    {
        self.dropped
    }

    /// Number of registered sessions of kind `kind`.
    pub fn session_count(&self, kind: SessionKind) -> (count: usize)
        ensures
            count == self@.sessions(kind).len(),
    {
        match kind {
            SessionKind::Download => self.downloads.len(),
            SessionKind::Seed => self.seeds.len(),
        }
    }
}

/// Counting dropped packets touches no session.
pub proof fn lemma_counting_keeps_ids<H>(router: RouterView<H>, count: nat)
    requires
        router.wf(),
    ensures
        router.counting(count).wf(),
        router.counting(count).downloads == router.downloads,
        router.counting(count).seeds == router.seeds,
        forall|packet: PacketView| #[trigger]
            router.counting(count).route(packet) == router.route(packet),
{
    let after = router.counting(count);
    assert forall|id: u64| #[trigger] after.downloads.contains_key(id) implies id
        < after.next_id by {
        assert(router.downloads.contains_key(id));
    }
    assert forall|id: u64| #[trigger] after.seeds.contains_key(id) implies id < after.next_id by {
        assert(router.seeds.contains_key(id));
    }
    assert forall|id: u64|
        !(#[trigger] after.downloads.contains_key(id) && #[trigger] after.seeds.contains_key(
            id,
        )) by {
        assert(!(router.downloads.contains_key(id) && router.seeds.contains_key(id)));
    }
}

/// Taking a session out leaves every other session where it is, and its id
/// is not given out again.
pub proof fn lemma_removing_keeps_ids<H>(router: RouterView<H>, kind: SessionKind, id: u64)
    requires
        router.wf(),
    ensures
        router.removing(kind, id).wf(),
        router.removing(kind, id).next_id == router.next_id,
        !router.removing(kind, id).sessions(kind).contains_key(id),
        forall|other: u64|
            other != id ==> (#[trigger] router.removing(kind, id).sessions(kind).contains_key(
                other,
            ) <==> router.sessions(kind).contains_key(other)),
{
    let after = router.removing(kind, id);
    assert forall|other: u64| #[trigger] after.downloads.contains_key(other) implies other
        < after.next_id by {
        assert(router.downloads.contains_key(other));
    }
    assert forall|other: u64| #[trigger] after.seeds.contains_key(other) implies other
        < after.next_id by {
        assert(router.seeds.contains_key(other));
    }
    assert forall|other: u64|
        !(#[trigger] after.downloads.contains_key(other) && #[trigger] after.seeds.contains_key(
            other,
        )) by {
        assert(!(router.downloads.contains_key(other) && router.seeds.contains_key(other)));
    }
}

/// Sessions of different kinds never collide. A delivery goes to the download
/// session of its id or nowhere, whatever seed sessions are registered, under
/// the same id or another; every other packet goes to the seed session of its
/// id or nowhere, whatever download sessions are registered.
pub proof fn lemma_kinds_never_collide<H>(router: RouterView<H>, packet: PacketView)
    ensures
        packet.packet_type == PacketType::PieceDelivery ==> router.route(packet) == if router.downloads.contains_key(
            packet.thread_id,
        ) {
            Route::Download(packet.thread_id)
        } else {
            Route::Dropped
        },
        packet.packet_type != PacketType::PieceDelivery ==> router.route(packet) == if router.seeds.contains_key(
            packet.thread_id,
        ) {
            Route::Seed(packet.thread_id)
        } else {
            Route::Dropped
        },
        forall|seeds: Map<u64, H>|
            packet.packet_type == PacketType::PieceDelivery ==> (#[trigger] router.with_sessions(
                SessionKind::Seed,
                seeds,
            )).route(packet) == router.route(packet),
        forall|downloads: Map<u64, H>|
            packet.packet_type != PacketType::PieceDelivery ==> (#[trigger] router.with_sessions(
                SessionKind::Download,
                downloads,
            )).route(packet) == router.route(packet),
{
}

/// A route leads to exactly one inbox: that of the session it names. A
/// dropped packet reaches no inbox.
pub proof fn lemma_route_reaches_its_session<H>(router: RouterView<H>, packet: PacketView)
    ensures
        router.inbox(router.route(packet)) == match router.route(packet) {
            Route::Download(id) => Some(router.downloads[id]),
            Route::Seed(id) => Some(router.seeds[id]),
            Route::Dropped => None,
        },
        router.route(packet) matches Route::Download(id) ==> id == packet.thread_id,
        router.route(packet) matches Route::Seed(id) ==> id == packet.thread_id,
{
}

/// An id is given to one session only. After a registration every session
/// that was registered before still has its own inbox, and the new session
/// has an id that none of them has, of its own kind or of the other.
pub proof fn lemma_ids_are_unique<H>(router: RouterView<H>, kind: SessionKind, inbox: H)
    requires
        router.wf(),
        router.next_id < u64::MAX,
    ensures
        router.registering(kind, inbox).wf(),
        !router.downloads.contains_key(router.next_id),
        !router.seeds.contains_key(router.next_id),
        router.registering(kind, inbox).sessions(kind).contains_key(router.next_id),
        forall|id: u64| #[trigger]
            router.sessions(kind).contains_key(id) ==> router.registering(kind, inbox).sessions(
                kind,
            )[id] == router.sessions(kind)[id],
        forall|other: SessionKind|
            other != kind ==> router.registering(kind, inbox).sessions(other) == router.sessions(
                other,
            ),
{
    let after = router.registering(kind, inbox);
    assert forall|id: u64| #[trigger] after.downloads.contains_key(id) implies id
        < after.next_id by {
        if id != router.next_id {
            assert(router.downloads.contains_key(id));
        }
    }
    assert forall|id: u64| #[trigger] after.seeds.contains_key(id) implies id < after.next_id by {
        if id != router.next_id {
            assert(router.seeds.contains_key(id));
        }
    }
    assert forall|id: u64|
        !(#[trigger] after.downloads.contains_key(id) && #[trigger] after.seeds.contains_key(
            id,
        )) by {
        if id != router.next_id {
            assert(!(router.downloads.contains_key(id) && router.seeds.contains_key(id)));
        }
    }
}

/// No two sessions of a node have the same id: what is registered as a
/// download is not registered as a seed, and the other way round.
pub proof fn lemma_one_session_per_id<H>(router: RouterView<H>, id: u64)
    requires
        router.wf(),
    ensures
        !(router.downloads.contains_key(id) && router.seeds.contains_key(id)),
        router.downloads.contains_key(id) || router.seeds.contains_key(id) ==> id < router.next_id,
{
}

/// A dropped packet does not hold up the packets around it. In a batch, each
/// packet goes where it would go alone; taking any packet out of the batch, a
/// dropped one included, leaves the routes of all the others as they were.
pub proof fn lemma_drop_blocks_nothing<H>(
    router: RouterView<H>,
    packets: Seq<PacketView>,
    at: int,
)
    requires
        0 <= at < packets.len(),
    ensures
        router.routes(packets).len() == packets.len(),
        router.routes(packets)[at] == router.route(packets[at]),
        router.routes(packets.remove(at)) == router.routes(packets).remove(at),
        router.routes(packets.subrange(at + 1, packets.len() as int)) == router.routes(
            packets,
        ).subrange(at + 1, packets.len() as int),
{
    assert(router.routes(packets.remove(at)) =~= router.routes(packets).remove(at));
    assert(router.routes(packets.subrange(at + 1, packets.len() as int)) =~= router.routes(
        packets,
    ).subrange(at + 1, packets.len() as int));
}

/// The number of dropped packets of a batch is the number of its packets whose
/// session is not registered: as many as the batch is long at most, and none
/// where every packet finds its session.
pub proof fn lemma_dropped_count(routes: Seq<Route>)
    ensures
        spec_dropped(routes) <= routes.len(),
        spec_dropped(routes) == 0 <==> forall|at: int|
            0 <= at < routes.len() ==> !(#[trigger] routes[at] is Dropped),
    decreases routes.len(),
{
    if routes.len() > 0 {
        let front = routes.drop_last();
        lemma_dropped_count(front);
        assert(forall|at: int| 0 <= at < front.len() ==> front[at] == routes[at]);
        if spec_dropped(routes) == 0 {
            assert forall|at: int| 0 <= at < routes.len() implies !(#[trigger] routes[at]
                is Dropped) by {
                if at < front.len() {
                    assert(!(front[at] is Dropped));
                }
            }
        }
    }
}

} // verus!
