//! The event loop of a node, as a state machine. The caller polls the
//! keyboard and the network and hands in what it found; the loop says what
//! has changed and what is to be done. Each tick drains the local input
//! first, then the network, then goes idle until it is woken.

use vstd::prelude::*;
use crate::membership::{
    applied, ids_of, lemma_discovered_wf, lemma_expired_wf, peer_ids, texts_of, view_wf,
    DiscoveredPeerView, DiscoveryEvent, DiscoveryEventView, MembershipView,
};
use crate::peer::{PeerIdentity, Topic};
use crate::router::{
    publication, published, received, reception, router_wf, EnvelopeView, FloodEnvelope,
    FloodRouter, RouterView,
};
use crate::wire::{line_of, message_at, message_bytes, ChatMessage, ChatMessageView, DecodeError};

verus! {

/// Why the loop has stopped.
#[derive(Clone, Copy, Debug, PartialEq, Eq, Structural)]
pub enum StopReason {
    /// The local input is closed: there is nothing left to say.
    InputClosed,
    /// The network's event stream has ended.
    NetworkClosed,
    /// The caller asked the loop to stop.
    Shutdown,
}

/// Where the loop stands in its tick.
#[derive(Clone, Copy, Debug, PartialEq, Eq, Structural)]
pub enum Phase {
    /// Nothing is ready; the loop waits to be woken.
    Idle,
    /// The loop takes the input lines that are ready.
    PollingInput,
    /// The loop takes the network and discovery events that are ready.
    PollingNetwork,
    /// The loop has stopped for good.
    Stopped(StopReason),
}

/// Why the loop did not take an event.
#[derive(Clone, Copy, Debug, PartialEq, Eq, Structural)]
pub enum StepError {
    /// The loop has stopped.
    Stopped,
    /// The event does not belong to the phase that the loop is in.
    OutOfTurn,
}

/// What the caller hands to the loop.
#[derive(Debug, PartialEq, Eq)]
pub enum LoopEvent {
    /// One of the loop's sources is ready.
    Woken,
    /// The input has a line ready.
    InputLine(String),
    /// The input has nothing ready.
    InputPending,
    /// The input is closed.
    InputClosed,
    /// Discovery reports a peer found or expired.
    Discovery(DiscoveryEvent),
    /// An envelope came in, from `from` where the sender is known.
    Inbound { envelope: FloodEnvelope, from: Option<PeerIdentity> },
    /// The network has nothing ready; it listens on `listeners`.
    NetworkPending { listeners: Vec<String> },
    /// The network's event stream has ended.
    NetworkClosed,
    /// The caller asks the loop to stop.
    Shutdown,
}

/// What the loop asks the caller to do.
#[derive(Debug, PartialEq, Eq)]
pub enum Action {
    /// Send the envelope to each of the targets. A send that fails is logged
    /// and skipped; the others still go out.
    Send { envelope: FloodEnvelope, targets: Vec<PeerIdentity> },
    /// Print a chat line.
    Show(String),
    /// Print an address that the node listens on.
    ReportListening(String),
    /// Log that a payload was no chat message and was dropped.
    Discard(DecodeError),
}

/// An event as contracts speak of it.
pub enum LoopEventView {
    Woken,
    InputLine(Seq<char>),
    InputPending,
    InputClosed,
    Discovery(DiscoveryEventView),
    Inbound { envelope: EnvelopeView, from: Option<Seq<u8>> },
    NetworkPending { listeners: Seq<Seq<char>> },
    NetworkClosed,
    Shutdown,
}

/// An action as contracts speak of it.
pub enum ActionView {
    Send { envelope: EnvelopeView, targets: Seq<Seq<u8>> },
    Show(Seq<char>),
    ReportListening(Seq<char>),
    Discard(DecodeError),
}

impl View for LoopEvent {
    type V = LoopEventView;

    open spec fn view(&self) -> LoopEventView {
        match self {
            LoopEvent::Woken => LoopEventView::Woken,
            LoopEvent::InputLine(line) => LoopEventView::InputLine(line@),
            LoopEvent::InputPending => LoopEventView::InputPending,
            LoopEvent::InputClosed => LoopEventView::InputClosed,
            LoopEvent::Discovery(event) => LoopEventView::Discovery(event@),
            LoopEvent::Inbound { envelope, from } => LoopEventView::Inbound {
                envelope: envelope@,
                from: match from {
                    Some(peer) => Some(peer@),
                    None => None,
                },
            },
            LoopEvent::NetworkPending { listeners } => LoopEventView::NetworkPending {
                listeners: texts_of(listeners@),
            },
            LoopEvent::NetworkClosed => LoopEventView::NetworkClosed,
            LoopEvent::Shutdown => LoopEventView::Shutdown,
        }
    }
}

impl View for Action {
    type V = ActionView;

    open spec fn view(&self) -> ActionView {
        match self {
            Action::Send { envelope, targets } => ActionView::Send {
                envelope: envelope@,
                targets: ids_of(targets@),
            },
            Action::Show(line) => ActionView::Show(line@),
            Action::ReportListening(address) => ActionView::ReportListening(address@),
            Action::Discard(error) => ActionView::Discard(*error),
        }
    }
}

/// The actions that a list holds.
pub open spec fn actions_of(list: Seq<Action>) -> Seq<ActionView> {
    list.map_values(|action: Action| action@)
}

/// The loop as contracts speak of it.
pub struct LoopView {
    pub alias: Seq<char>,
    pub topic: Seq<char>,
    pub router: RouterView,
    pub members: Seq<DiscoveredPeerView>,
    pub phase: Phase,
    pub listening_reported: bool,
}

/// What a loop has to be: its router and its membership view are well
/// formed.
pub open spec fn loop_wf(state: LoopView) -> bool {
    &&& router_wf(state.router)
    &&& view_wf(state.members)
}

/// Whether the event belongs to the phase.
pub open spec fn in_turn(phase: Phase, event: LoopEventView) -> bool {
    match event {
        LoopEventView::Shutdown => true,
        LoopEventView::Woken => phase == Phase::Idle,
        LoopEventView::InputLine(_) => phase == Phase::PollingInput,
        LoopEventView::InputPending => phase == Phase::PollingInput,
        LoopEventView::InputClosed => phase == Phase::PollingInput,
        _ => phase == Phase::PollingNetwork,
    }
}

/// Why the loop does not take the event, if it does not.
pub open spec fn refusal(state: LoopView, event: LoopEventView) -> Option<StepError> {
    if state.phase is Stopped {
        Some(StepError::Stopped)
    } else if !in_turn(state.phase, event) {
        Some(StepError::OutOfTurn)
    } else {
        None
    }
}

/// The payload that carries `line` as said by `alias`.
pub open spec fn chat_payload(alias: Seq<char>, line: Seq<char>) -> Seq<u8> {
    message_bytes(ChatMessageView { from: alias, content: line })
}

/// One action to send `envelope`, where there is anyone to send it to.
pub open spec fn send_to(envelope: EnvelopeView, targets: Seq<Seq<u8>>) -> Seq<ActionView> {
    if targets.len() > 0 {
        seq![ActionView::Send { envelope, targets }]
    } else {
        Seq::empty()
    }
}

/// What is done with a payload that is to be shown: the chat line is
/// printed, or the payload is dropped where it is no chat message.
pub open spec fn shown(payload: Seq<u8>) -> ActionView {
    match message_at(payload) {
        Ok(message) => ActionView::Show(line_of(message)),
        Err(error) => ActionView::Discard(error),
    }
}

/// The loop after it took `event`. An event that it refuses leaves it as it
/// was.
pub open spec fn stepped(state: LoopView, event: LoopEventView) -> LoopView {
    if refusal(state, event) is Some {
        state
    } else {
        match event {
            LoopEventView::Woken => LoopView { phase: Phase::PollingInput, ..state },
            LoopEventView::InputLine(line) => LoopView {
                router: published(state.router, state.topic, chat_payload(state.alias, line)),
                ..state
            },
            LoopEventView::InputPending => LoopView { phase: Phase::PollingNetwork, ..state },
            LoopEventView::InputClosed => LoopView {
                phase: Phase::Stopped(StopReason::InputClosed),
                ..state
            },
            LoopEventView::Discovery(found) => LoopView {
                members: applied(state.members, found),
                ..state
            },
            LoopEventView::Inbound { envelope, from } => LoopView {
                router: received(state.router, envelope),
                ..state
            },
            LoopEventView::NetworkPending { listeners } => LoopView {
                phase: Phase::Idle,
                listening_reported: state.listening_reported || listeners.len() > 0,
                ..state
            },
            LoopEventView::NetworkClosed => LoopView {
                phase: Phase::Stopped(StopReason::NetworkClosed),
                ..state
            },
            LoopEventView::Shutdown => LoopView {
                phase: Phase::Stopped(StopReason::Shutdown),
                ..state
            },
        }
    }
}

/// What the loop asks for when it takes `event`: a line of input is
/// published to the peers of the view; an envelope that is new is shown
/// where the node subscribes to its topic, and passed on; the addresses that
/// the node listens on are reported the first time that there are any.
pub open spec fn emitted(state: LoopView, event: LoopEventView) -> Seq<ActionView> {
    if refusal(state, event) is Some {
        Seq::empty()
    } else {
        match event {
            LoopEventView::InputLine(line) => send_to(
                publication(state.router, state.topic, chat_payload(state.alias, line)),
                peer_ids(state.members),
            ),
            LoopEventView::Inbound { envelope, from } => {
                let decided = reception(state.router, envelope, from, peer_ids(state.members));
                (if decided.deliver {
                    seq![shown(envelope.payload)]
                } else {
                    Seq::empty()
                }) + send_to(envelope, decided.forward_to)
            },
            LoopEventView::NetworkPending { listeners } => if state.listening_reported {
                Seq::empty()
            } else {
                listeners.map_values(|address: Seq<char>| ActionView::ReportListening(address))
            },
            _ => Seq::empty(),
        }
    }
}

/// A step keeps the loop well formed.
pub proof fn lemma_stepped_wf(state: LoopView, event: LoopEventView)
    requires
        loop_wf(state),
    ensures
        loop_wf(stepped(state, event)),
{
    if refusal(state, event) is None {
        match event {
            LoopEventView::Discovery(found) => {
                match found {
                    DiscoveryEventView::Discovered { peer, addresses } => {
                        lemma_discovered_wf(state.members, peer, addresses);
                    },
                    DiscoveryEventView::Expired { peer, still_listed } => {
                        lemma_expired_wf(state.members, peer, still_listed);
                    },
                }
            },
            _ => {},
        }
    }
}

/// A loop that has stopped stays as it is and asks for nothing more.
pub proof fn lemma_stopped_is_final(state: LoopView, event: LoopEventView)
    requires
        state.phase is Stopped,
    ensures
        stepped(state, event) == state,
        emitted(state, event) == Seq::<ActionView>::empty(),
{
}

/// The order of a tick: from idle the loop goes to the input, from the input
/// to the network, from the network back to idle; it never takes a network
/// or discovery event while input may still be ready. Only a closed stream
/// or a shutdown stops it.
pub proof fn lemma_tick_order(state: LoopView, event: LoopEventView)
    requires
        refusal(state, event) is None,
    ensures
        state.phase == Phase::Idle ==> stepped(state, event).phase == Phase::PollingInput
            || stepped(state, event).phase is Stopped,
        state.phase == Phase::PollingInput ==> stepped(state, event).phase == Phase::PollingInput
            || stepped(state, event).phase == Phase::PollingNetwork || stepped(
            state,
            event,
        ).phase is Stopped,
        state.phase == Phase::PollingNetwork ==> stepped(state, event).phase
            == Phase::PollingNetwork || stepped(state, event).phase == Phase::Idle || stepped(
            state,
            event,
        ).phase is Stopped,
        (event is Discovery || event is Inbound || event is NetworkPending || event
            is NetworkClosed) ==> state.phase == Phase::PollingNetwork,
        (event is InputLine || event is InputPending || event is InputClosed) ==> state.phase
            == Phase::PollingInput,
        stepped(state, event).phase is Stopped ==> event is InputClosed || event is NetworkClosed
            || event is Shutdown,
{
}

/// Whether the action reports an address that the node listens on.
pub open spec fn reports_listening(action: ActionView) -> bool {
    action is ReportListening
}

/// The listening addresses are reported once: a step reports them only
/// where none was reported before, it then reports every address that it
/// was handed and nothing else, and no later step reports any.
pub proof fn lemma_listening_reported_once(state: LoopView, event: LoopEventView)
    ensures
        state.listening_reported ==> stepped(state, event).listening_reported,
        state.listening_reported ==> forall|i: int|
            0 <= i < emitted(state, event).len() ==> !reports_listening(
                #[trigger] emitted(state, event)[i],
            ),
        forall|i: int|
            0 <= i < emitted(state, event).len() && reports_listening(
                #[trigger] emitted(state, event)[i],
            ) ==> !state.listening_reported && stepped(state, event).listening_reported && event
                is NetworkPending,
{
}

/// The loop after it took each of `events` in turn.
pub open spec fn ran(state: LoopView, events: Seq<LoopEventView>) -> LoopView
    decreases events.len(),
{
    if events.len() == 0 {
        state
    } else {
        stepped(ran(state, events.drop_last()), events.last())
    }
}

/// Whether the loop reports listening addresses when it takes the event at
/// index `at` of `events`, having taken those before it.
pub open spec fn reports_at(state: LoopView, events: Seq<LoopEventView>, at: int) -> bool {
    &&& 0 <= at < events.len()
    &&& exists|k: int|
        0 <= k < emitted(ran(state, events.take(at)), events[at]).len() && reports_listening(
            #[trigger] emitted(ran(state, events.take(at)), events[at])[k],
        )
}

/// Whatever events a loop takes, it stays well formed.
pub proof fn lemma_ran_wf(state: LoopView, events: Seq<LoopEventView>)
    requires
        loop_wf(state),
    ensures
        loop_wf(ran(state, events)),
    decreases events.len(),
{
    if events.len() > 0 {
        lemma_ran_wf(state, events.drop_last());
        lemma_stepped_wf(ran(state, events.drop_last()), events.last());
    }
}

/// Once the listening addresses are reported, they stay reported along the
/// run.
proof fn lemma_reported_along(state: LoopView, events: Seq<LoopEventView>, from: int, to: int)
    requires
        0 <= from <= to <= events.len(),
        ran(state, events.take(from)).listening_reported,
    ensures
        ran(state, events.take(to)).listening_reported,
    decreases to - from,
{
    if from < to {
        lemma_reported_along(state, events, from, to - 1);
        assert(events.take(to).drop_last() =~= events.take(to - 1));
    }
}

/// In any run of events the listening addresses are reported by one step at
/// most: a step that reports them is followed by none that does.
pub proof fn lemma_run_reports_listening_once(
    state: LoopView,
    events: Seq<LoopEventView>,
    first: int,
    second: int,
)
    requires
        first < second,
        reports_at(state, events, first),
    ensures
        !reports_at(state, events, second),
{
    if second < events.len() {
        assert(events.take(first + 1).drop_last() =~= events.take(first));
        lemma_reported_along(state, events, first + 1, second);
    }
}

/// Appends the action to send `envelope`, where there is anyone to send it
/// to.
fn push_send(actions: &mut Vec<Action>, envelope: FloodEnvelope, targets: Vec<PeerIdentity>)
    ensures
        actions_of(final(actions)@) == actions_of(old(actions)@) + send_to(
            envelope@,
            ids_of(targets@),
        ),
{
    if targets.len() > 0 {
        let action = Action::Send { envelope, targets };
        actions.push(action);
    }
}

/// The action that shows a payload, or drops it where it is no chat
/// message.
fn show_payload(payload: &[u8]) -> (action: Action)
    ensures
        action@ == shown(payload@),
{
    match ChatMessage::decode(payload) {
        Ok(message) => Action::Show(message.to_line()),
        Err(error) => Action::Discard(error),
    }
}

/// One report for each address.
fn report_listeners(listeners: &Vec<String>) -> (actions: Vec<Action>)
    ensures
        actions_of(actions@) == texts_of(listeners@).map_values(
            |address: Seq<char>| ActionView::ReportListening(address),
        ),
{
    let mut actions: Vec<Action> = Vec::new();
    let mut i: usize = 0;
    while i < listeners.len()
        invariant
            i <= listeners@.len(),
            actions@.len() == i,
            forall|j: int|
                0 <= j < i ==> (#[trigger] actions@[j])@ == ActionView::ReportListening(
                    listeners@[j]@,
                ),
        decreases listeners@.len() - i,
    {
        actions.push(Action::ReportListening(listeners[i].clone()));
        i += 1;
    }
    actions
}

/// The event loop of one node: its alias and topic, its router and its
/// membership view, and where it stands in its tick.
pub struct EventLoop {
    alias: String,
    topic: Topic,
    router: FloodRouter,
    members: MembershipView,
    phase: Phase,
    listening_reported: bool,
}

impl View for EventLoop {
    type V = LoopView;

    closed spec fn view(&self) -> LoopView {
        LoopView {
            alias: self.alias@,
            topic: self.topic@,
            router: self.router@,
            members: self.members@,
            phase: self.phase,
            listening_reported: self.listening_reported,
        }
    }
}

impl EventLoop {
    /// Whether the loop is well formed. Every loop that this library hands
    /// out is, and its methods keep it so.
    pub open spec fn wf(&self) -> bool {
        loop_wf(self@)
    }

    /// The loop of the node `local`, which speaks as `alias` on `topic` and
    /// remembers the last `capacity` messages; none where `capacity` is 0.
    /// The loop is idle, subscribes to its topic, and knows no peer.
    pub fn new(local: PeerIdentity, alias: String, topic: Topic, capacity: usize) -> (made: Option<
        EventLoop,
    >)
        ensures
            made is Some <==> capacity > 0,
            made is Some ==> made.unwrap().wf() && made.unwrap()@ == (LoopView {
                alias: alias@,
                topic: topic@,
                router: RouterView {
                    local: local@,
                    subscriptions: seq![topic@],
                    recent: Seq::empty(),
                    capacity: capacity as nat,
                    next_sequence: 0,
                },
                members: Seq::empty(),
                phase: Phase::Idle,
                listening_reported: false,
            }),
    {
        match FloodRouter::new(local, capacity) {
            None => None,
            Some(router) => {
                let mut router = router;
                router.subscribe(topic.clone());
                Some(
                    EventLoop {
                        alias,
                        topic,
                        router,
                        members: MembershipView::new(),
                        phase: Phase::Idle,
                        listening_reported: false,
                    },
                )
            },
        }
    }

    /// Where the loop stands: what the caller is to poll next.
    pub fn phase(&self) -> (phase: Phase)
        ensures
            phase == self@.phase,
    {
        self.phase
    }

    /// The name that the node speaks under.
    pub fn alias(&self) -> (alias: &String)
        ensures
            alias@ == self@.alias,
    {
        &self.alias
    }

    /// The topic that the node speaks on.
    pub fn topic(&self) -> (topic: &Topic)
        ensures
            topic@ == self@.topic,
    {
        &self.topic
    }

    /// The node's membership view.
    pub fn members(&self) -> (members: &MembershipView)
        ensures
            members@ == self@.members,
            self.wf() ==> members.wf(),
    {
        &self.members
    }

    /// The node's router.
    pub fn router(&self) -> (router: &FloodRouter)
        ensures
            router@ == self@.router,
            self.wf() ==> router.wf(),
    {
        &self.router
    }

    /// Takes one event. An event that belongs to the phase changes the loop
    /// and yields the actions that it calls for; any other is refused and
    /// changes nothing.
    pub fn step(&mut self, event: LoopEvent) -> (done: Result<Vec<Action>, StepError>)
        requires
            old(self).wf(),
        ensures
            final(self).wf(),
            final(self)@ == stepped(old(self)@, event@),
            match done {
                Ok(actions) => refusal(old(self)@, event@) is None && actions_of(actions@)
                    == emitted(old(self)@, event@),
                Err(error) => refusal(old(self)@, event@) == Some(error),
            },
    {
        let phase = self.phase;
        match phase {
            Phase::Stopped(_) => {
                return Err(StepError::Stopped);
            },
            _ => {},
        }
        let mut actions: Vec<Action> = Vec::new();
        match event {
            LoopEvent::Shutdown => {
                self.phase = Phase::Stopped(StopReason::Shutdown);
            },
            LoopEvent::Woken => {
                match phase {
                    Phase::Idle => {},
                    _ => {
                        return Err(StepError::OutOfTurn);
                    },
                }
                self.phase = Phase::PollingInput;
            },
            LoopEvent::InputLine(line) => {
                match phase {
                    Phase::PollingInput => {},
                    _ => {
                        return Err(StepError::OutOfTurn);
                    },
                }
                let message = ChatMessage { from: self.alias.clone(), content: line };
                let payload = message.encode_to_vec();
                let out = self.router.publish(self.topic.clone(), payload, &self.members);
                push_send(&mut actions, out.envelope, out.targets);
            },
            LoopEvent::InputPending => {
                match phase {
                    Phase::PollingInput => {},
                    _ => {
                        return Err(StepError::OutOfTurn);
                    },
                }
                self.phase = Phase::PollingNetwork;
            },
            LoopEvent::InputClosed => {
                match phase {
                    Phase::PollingInput => {},
                    _ => {
                        return Err(StepError::OutOfTurn);
                    },
                }
                self.phase = Phase::Stopped(StopReason::InputClosed);
            },
            LoopEvent::Discovery(found) => {
                match phase {
                    Phase::PollingNetwork => {},
                    _ => {
                        return Err(StepError::OutOfTurn);
                    },
                }
                self.members.apply(&found);
            },
            LoopEvent::Inbound { envelope, from } => {
                match phase {
                    Phase::PollingNetwork => {},
                    _ => {
                        return Err(StepError::OutOfTurn);
                    },
                }
                let decided = self.router.on_inbound(&envelope, from.as_ref(), &self.members);
                if decided.deliver {
                    let action = show_payload(envelope.payload.as_slice());
                    actions.push(action);
                }
                push_send(&mut actions, envelope, decided.forward_to);
            },
            LoopEvent::NetworkPending { listeners } => {
                match phase {
                    Phase::PollingNetwork => {},
                    _ => {
                        return Err(StepError::OutOfTurn);
                    },
                }
                if !self.listening_reported {
                    actions = report_listeners(&listeners);
                    if listeners.len() > 0 {
                        self.listening_reported = true;
                    }
                }
                self.phase = Phase::Idle;
            },
            LoopEvent::NetworkClosed => {
                match phase {
                    Phase::PollingNetwork => {},
                    _ => {
                        return Err(StepError::OutOfTurn);
                    },
                }
                self.phase = Phase::Stopped(StopReason::NetworkClosed);
            },
        }
        Ok(actions)
    }
}

} // verus!
