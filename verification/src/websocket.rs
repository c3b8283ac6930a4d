//! The connection service and task.
//!
//! [`WebSocketService::connect`] opens a connection on a
//! [`Transport`](crate::transport::Transport) and returns a [`WebSocketTask`]
//! that owns it together with the application's [`Listener`]. The task sends
//! outbound payloads, reports liveness, and cancels the connection at most
//! once; [`WebSocketTask::handle_event`] bridges the transport's events to
//! the listener, releasing it when the connection closes so that nothing is
//! delivered afterwards.

use vstd::prelude::*;

use crate::format::{
    spec_decode_frame, DecodeError, Frame, FrameData, FromRestorable, IntoStorable,
};
use crate::transport::{close_count, has_close, RequestView, Transport};
use crate::transport::{lemma_close_count_push, lemma_has_close_count};

verus! {

/// A status of a connection, used for lifecycle notification.
#[derive(Clone, Copy, Debug, PartialEq, Eq, Structural)]
pub enum WebSocketStatus {
    /// Fired when the connection was opened.
    Opened,
    /// Fired when the connection was closed.
    Closed,
}

/// Maps a low-level notification code to a status.
///
/// Only the codes for opened and closed are meaningful; any other code is an
/// internal-consistency failure of the transport layer, which the contract
/// rules out, so the body aborts if an unverified caller passes one anyway.
pub fn status_from_code(code: u32) -> (status: WebSocketStatus)
    requires
        code == 0 || code == 1,
    ensures
        status == (if code == 1 {
            WebSocketStatus::Opened
        } else {
            WebSocketStatus::Closed
        }),
{
    if code == 1 {
        WebSocketStatus::Opened
    } else if code == 0 {
        WebSocketStatus::Closed
    } else {
        unreached()
    }
}

/// The application's side of a connection: where decoded messages and
/// status notifications are delivered.
///
/// The owner of the application state implements this; the task calls it on
/// the single dispatch loop, never concurrently.
pub trait Listener: Sized {
    /// The application message type built from each inbound decode result.
    type Message: FromRestorable;

    /// Called once per inbound frame with the decoded message.
    fn on_message(&mut self, message: Self::Message);

    /// Called on lifecycle changes of the connection.
    fn on_status(&mut self, status: WebSocketStatus);
}

/// An event of the underlying connection, as the driver of the transport
/// reports it.
#[derive(Debug, PartialEq, Eq)]
pub enum TransportEvent {
    /// The connection completed its handshake.
    Open,
    /// A frame arrived.
    Message(Frame),
    /// A transport-level error occurred. Deliberately not surfaced to the
    /// listener: this layer preserves the transport's silence about errors.
    Error,
    /// The connection closed, whether user-initiated or remote.
    Close,
}

/// The mathematical content of a transport event.
pub enum EventData {
    Open,
    Message(FrameData),
    Error,
    Close,
}

impl View for TransportEvent {
    type V = EventData;

    open spec fn view(&self) -> EventData {
        match self {
            TransportEvent::Open => EventData::Open,
            TransportEvent::Message(frame) => EventData::Message(frame@),
            TransportEvent::Error => EventData::Error,
            TransportEvent::Close => EventData::Close,
        }
    }
}

/// One delivery made to the listener: a status notification, or a decoded
/// inbound message.
pub enum DeliveryView {
    Status(WebSocketStatus),
    Message(Result<Seq<char>, DecodeError>),
}

/// What one event delivers to the listener, given whether the listener is
/// still wired to the connection.
pub open spec fn step_deliveries(wired: bool, event: EventData) -> Seq<DeliveryView> {
    if !wired {
        Seq::empty()
    } else {
        match event {
            EventData::Open => seq![DeliveryView::Status(WebSocketStatus::Opened)],
            EventData::Message(frame) => seq![DeliveryView::Message(spec_decode_frame(frame))],
            EventData::Error => Seq::empty(),
            EventData::Close => seq![DeliveryView::Status(WebSocketStatus::Closed)],
        }
    }
}

/// Whether the listener stays wired after one event: a close event releases
/// it, and nothing rewires it.
pub open spec fn step_wired(wired: bool, event: EventData) -> bool {
    wired && !(event is Close)
}

/// Whether the handle stays active after one event: a close event on a wired
/// connection deactivates it, and nothing reactivates it.
pub open spec fn step_active(active: bool, wired: bool, event: EventData) -> bool {
    if wired && event is Close {
        false
    } else {
        active
    }
}

/// A handle to control a connection. The handle is exclusively owned; it is
/// active from [`WebSocketService::connect`] until exactly one of
/// [`WebSocketTask::cancel`] or a close event, and never active again after.
pub struct WebSocketTask<T: Transport, L: Listener> {
    transport: T,
    active: bool,
    listener: Option<L>,
    history: Ghost<Seq<DeliveryView>>,
}

impl<T: Transport, L: Listener> WebSocketTask<T, L> {
    /// Whether the handle is still present: true from connect until cancel
    /// or a close event.
    pub closed spec fn is_active_spec(&self) -> bool {
        self.active
    }

    /// Whether the listener is still wired: true until a close event
    /// releases it.
    pub closed spec fn wired(&self) -> bool {
        self.listener is Some
    }

    /// The requests issued on the underlying connection, in order.
    pub closed spec fn log(&self) -> Seq<RequestView> {
        self.transport.requests()
    }

    /// Every delivery made to the listener so far, in order.
    pub closed spec fn delivered(&self) -> Seq<DeliveryView> {
        self.history@
    }

    /// The task's invariant: while the handle is active no close has been
    /// requested, and at most one close request is ever issued.
    pub open spec fn wf(&self) -> bool {
        &&& (self.is_active_spec() ==> !has_close(self.log()))
        &&& close_count(self.log()) <= 1
    }

    /// Whether the handle is present. Pure query, no side effects.
    pub fn is_active(&self) -> (active: bool)
        ensures
            active == self.is_active_spec(),
    {
        self.active
    }

    /// The underlying connection, for inspection.
    pub fn transport(&self) -> (transport: &T)
        ensures
            transport.requests() == self.log(),
    {
        &self.transport
    }

    /// Sends an outbound value on the connection.
    ///
    /// If the storable conversion yields no body, nothing is transmitted.
    /// Sending on an inactive handle is a fatal usage error: the contract
    /// rules it out, and the body aborts if an unverified caller does it
    /// anyway.
    pub fn send<IN: IntoStorable>(&mut self, data: IN)
        requires
            old(self).wf(),
            old(self).is_active_spec(),
        ensures
            final(self).wf(),
            final(self).is_active_spec(),
            final(self).wired() == old(self).wired(),
            final(self).delivered() == old(self).delivered(),
            (match data.storable_view() {
                Some(body) => final(self).log() == old(self).log().push(RequestView::Write(body)),
                None => final(self).log() == old(self).log(),
            }),
    {
        if self.active {
            match data.into_storable() {
                Some(body) => {
                    let ghost body_view = body@;
                    self.transport.write(body);
                    proof {
                        lemma_push_not_close(old(self).log(), RequestView::Write(body_view));
                        lemma_close_count_push(old(self).log(), RequestView::Write(body_view));
                    }
                }
                None => {}
            }
        } else {
            unreached()
        }
    }

    /// Cancels the connection: asks the transport to close and gives the
    /// handle up, immediately and irreversibly.
    ///
    /// Cancelling twice, or after a close event, is a fatal usage error: the
    /// contract rules it out, and the body aborts if an unverified caller
    /// does it anyway.
    pub fn cancel(&mut self)
        requires
            old(self).wf(),
            old(self).is_active_spec(),
        ensures
            final(self).wf(),
            !final(self).is_active_spec(),
            final(self).wired() == old(self).wired(),
            final(self).delivered() == old(self).delivered(),
            final(self).log() == old(self).log().push(RequestView::Close),
    {
        if self.active {
            self.active = false;
            self.transport.close();
            proof {
                lemma_has_close_count(old(self).log());
                lemma_close_count_push(old(self).log(), RequestView::Close);
            }
        } else {
            unreached()
        }
    }

    /// Cancels the connection if the handle is still active, and does
    /// nothing otherwise.
    ///
    /// This is the release that a scope-exit hook performs, so that a task
    /// abandoned while active still issues exactly one close request; it is
    /// safe to call in any state.
    pub fn release(&mut self)
        requires
            old(self).wf(),
        ensures
            final(self).wf(),
            !final(self).is_active_spec(),
            final(self).wired() == old(self).wired(),
            final(self).delivered() == old(self).delivered(),
            old(self).is_active_spec() ==> final(self).log() == old(self).log().push(
                RequestView::Close,
            ),
            !old(self).is_active_spec() ==> final(self).log() == old(self).log(),
    {
        if self.active {
            self.cancel();
        }
    }

    /// Bridges one event of the underlying connection to the listener.
    ///
    /// An open event notifies `Opened`; a message event decodes the frame
    /// and delivers the resulting message; an error event is swallowed; a
    /// close event gives the handle up, notifies `Closed`, and releases the
    /// listener, so that no further event delivers anything. A close event
    /// arriving after [`WebSocketTask::cancel`] still notifies `Closed`
    /// once; a later one is a safe no-op.
    pub fn handle_event(&mut self, event: TransportEvent)
        requires
            old(self).wf(),
        ensures
            final(self).wf(),
            final(self).log() == old(self).log(),
            final(self).delivered() == old(self).delivered() + step_deliveries(
                old(self).wired(),
                event@,
            ),
            final(self).wired() == step_wired(old(self).wired(), event@),
            final(self).is_active_spec() == step_active(
                old(self).is_active_spec(),
                old(self).wired(),
                event@,
            ),
    {
        let ghost event_data = event@;
        match event {
            TransportEvent::Open => {
                match self.listener.take() {
                    Some(mut listener) => {
                        listener.on_status(WebSocketStatus::Opened);
                        self.listener = Some(listener);
                        self.history = Ghost(
                            self.history@.push(DeliveryView::Status(WebSocketStatus::Opened)),
                        );
                        proof {
                            assert(old(self).delivered().push(
                                DeliveryView::Status(WebSocketStatus::Opened),
                            ) =~= old(self).delivered() + step_deliveries(true, event_data));
                        }
                    }
                    None => {
                        proof {
                            assert(old(self).delivered() + step_deliveries(false, event_data)
                                =~= old(self).delivered());
                        }
                    }
                }
            }
            TransportEvent::Message(frame) => {
                match self.listener.take() {
                    Some(mut listener) => {
                        let ghost frame_data = frame@;
                        let data = crate::format::decode_frame(frame);
                        let message = <L::Message as FromRestorable>::from_restorable(data);
                        listener.on_message(message);
                        self.listener = Some(listener);
                        self.history = Ghost(
                            self.history@.push(
                                DeliveryView::Message(spec_decode_frame(frame_data)),
                            ),
                        );
                        proof {
                            assert(old(self).delivered().push(
                                DeliveryView::Message(spec_decode_frame(frame_data)),
                            ) =~= old(self).delivered() + step_deliveries(true, event_data));
                        }
                    }
                    None => {
                        proof {
                            assert(old(self).delivered() + step_deliveries(false, event_data)
                                =~= old(self).delivered());
                        }
                    }
                }
            }
            TransportEvent::Error => {
                proof {
                    assert(old(self).delivered() + step_deliveries(old(self).wired(), event_data)
                        =~= old(self).delivered());
                }
            }
            TransportEvent::Close => {
                match self.listener.take() {
                    Some(mut listener) => {
                        self.active = false;
                        listener.on_status(WebSocketStatus::Closed);
                        self.history = Ghost(
                            self.history@.push(DeliveryView::Status(WebSocketStatus::Closed)),
                        );
                        proof {
                            assert(old(self).delivered().push(
                                DeliveryView::Status(WebSocketStatus::Closed),
                            ) =~= old(self).delivered() + step_deliveries(true, event_data));
                        }
                    }
                    None => {
                        proof {
                            assert(old(self).delivered() + step_deliveries(false, event_data)
                                =~= old(self).delivered());
                        }
                    }
                }
            }
        }
    }
}

/// Pushing anything but a close request neither adds nor removes a close.
proof fn lemma_push_not_close(requests: Seq<RequestView>, request: RequestView)
    requires
        !(request is Close),
    ensures
        has_close(requests.push(request)) == has_close(requests),
{
    if has_close(requests) {
        let i = choose|i: int| 0 <= i < requests.len() && requests[i] is Close;
        assert(requests.push(request)[i] is Close);
    }
    if has_close(requests.push(request)) {
        let i = choose|i: int|
            0 <= i < requests.push(request).len() && requests.push(request)[i] is Close;
        assert(i < requests.len());
        assert(requests[i] is Close);
    }
}

/// A stateless factory that opens connections and wires their event
/// delivery.
pub struct WebSocketService {}

impl WebSocketService {
    /// Creates a new service instance.
    pub fn new() -> (service: Self)
        ensures
            service == (WebSocketService {  }),
    {
        Self {  }
    }
}

impl Default for WebSocketService {
    fn default() -> (service: Self)
        ensures
            service == (WebSocketService {  }),
    {
        Self {  }
    }
}

impl WebSocketService {
    /// Opens a connection to `url` on a fresh transport and returns the task
    /// that owns it, active and wired to `listener`, with nothing delivered
    /// yet. The open request is issued at once; the connection is confirmed
    /// open only when an open event later notifies `Opened`.
    pub fn connect<T: Transport, L: Listener>(
        &mut self,
        url: &str,
        transport: T,
        listener: L,
    ) -> (task: WebSocketTask<T, L>)
        requires
            url@.len() > 0,
            transport.requests() == Seq::<RequestView>::empty(),
        ensures
            task.wf(),
            task.is_active_spec(),
            task.wired(),
            task.delivered() == Seq::<DeliveryView>::empty(),
            task.log() == seq![RequestView::Open(url@)],
    {
        let mut transport = transport;
        transport.open(url);
        let task = WebSocketTask {
            transport,
            active: true,
            listener: Some(listener),
            history: Ghost(Seq::empty()),
        };
        proof {
            assert(!has_close(task.log()));
            lemma_close_count_push(Seq::empty(), RequestView::Open(url@));
            assert(Seq::<RequestView>::empty().push(RequestView::Open(url@)) =~= task.log());
        }
        task
    }
}

/// The views of a sequence of transport events, in order.
pub open spec fn views_of_events(events: Seq<TransportEvent>) -> Seq<EventData>
    decreases events.len(),
{
    if events.len() == 0 {
        Seq::empty()
    } else {
        views_of_events(events.drop_last()).push(events.last()@)
    }
}

/// The deliveries that a sequence of events makes to the listener, in order,
/// starting from a given wiring state.
pub open spec fn deliveries_of(wired: bool, events: Seq<EventData>) -> Seq<DeliveryView>
    decreases events.len(),
{
    if events.len() == 0 {
        Seq::empty()
    } else {
        step_deliveries(wired, events.first()) + deliveries_of(
            step_wired(wired, events.first()),
            events.drop_first(),
        )
    }
}

/// Whether the listener is still wired after a sequence of events.
pub open spec fn wired_after(wired: bool, events: Seq<EventData>) -> bool
    decreases events.len(),
{
    if events.len() == 0 {
        wired
    } else {
        wired_after(step_wired(wired, events.first()), events.drop_first())
    }
}

/// Whether the handle is still active after a sequence of events.
pub open spec fn active_after(active: bool, wired: bool, events: Seq<EventData>) -> bool
    decreases events.len(),
{
    if events.len() == 0 {
        active
    } else {
        active_after(
            step_active(active, wired, events.first()),
            step_wired(wired, events.first()),
            events.drop_first(),
        )
    }
}

/// Processing one more event appends that event's deliveries and steps the
/// wiring and liveness states once.
proof fn lemma_dispatch_snoc(active: bool, wired: bool, events: Seq<EventData>, event: EventData)
    ensures
        deliveries_of(wired, events.push(event)) == deliveries_of(wired, events)
            + step_deliveries(wired_after(wired, events), event),
        wired_after(wired, events.push(event)) == step_wired(wired_after(wired, events), event),
        active_after(active, wired, events.push(event)) == step_active(
            active_after(active, wired, events),
            wired_after(wired, events),
            event,
        ),
    decreases events.len(),
{
    reveal_with_fuel(deliveries_of, 3);
    reveal_with_fuel(wired_after, 3);
    reveal_with_fuel(active_after, 3);
    if events.len() == 0 {
        assert(events.push(event).first() == event);
        assert(events.push(event).drop_first() =~= Seq::<EventData>::empty());
        assert(step_deliveries(wired, event) + Seq::<DeliveryView>::empty() =~= Seq::<
            DeliveryView,
        >::empty() + step_deliveries(wired, event));
    } else {
        let wired1 = step_wired(wired, events.first());
        let active1 = step_active(active, wired, events.first());
        lemma_dispatch_snoc(active1, wired1, events.drop_first(), event);
        assert(events.push(event).first() == events.first());
        assert(events.push(event).drop_first() =~= events.drop_first().push(event));
        assert(step_deliveries(wired, events.first()) + (deliveries_of(
            wired1,
            events.drop_first(),
        ) + step_deliveries(wired_after(wired1, events.drop_first()), event)) =~= (step_deliveries(
            wired,
            events.first(),
        ) + deliveries_of(wired1, events.drop_first())) + step_deliveries(
            wired_after(wired1, events.drop_first()),
            event,
        ));
    }
}

/// The message events that a sequence of inbound frames gives rise to.
pub open spec fn message_events(frames: Seq<FrameData>) -> Seq<EventData>
    decreases frames.len(),
{
    if frames.len() == 0 {
        Seq::empty()
    } else {
        message_events(frames.drop_last()).push(EventData::Message(frames.last()))
    }
}

/// The deliveries that a sequence of inbound frames decodes to, in order.
pub open spec fn message_deliveries(frames: Seq<FrameData>) -> Seq<DeliveryView>
    decreases frames.len(),
{
    if frames.len() == 0 {
        Seq::empty()
    } else {
        message_deliveries(frames.drop_last()).push(
            DeliveryView::Message(spec_decode_frame(frames.last())),
        )
    }
}

/// Message events neither release the listener nor deliver anything but the
/// decoded messages, in order.
proof fn lemma_messages_keep_wired(frames: Seq<FrameData>)
    ensures
        deliveries_of(true, message_events(frames)) == message_deliveries(frames),
        wired_after(true, message_events(frames)),
    decreases frames.len(),
{
    if frames.len() > 0 {
        lemma_messages_keep_wired(frames.drop_last());
        lemma_dispatch_snoc(
            true,
            true,
            message_events(frames.drop_last()),
            EventData::Message(frames.last()),
        );
        assert(message_deliveries(frames.drop_last()) + seq![
            DeliveryView::Message(spec_decode_frame(frames.last())),
        ] =~= message_deliveries(frames));
    }
}

/// Law: a connection whose transport emits an open event, then any inbound
/// frames, then a close event delivers exactly one `Opened`, then the frames'
/// decoded messages in order, then exactly one `Closed` — and the listener is
/// released afterwards, so no later event ever delivers anything.
pub proof fn lemma_event_ordering(frames: Seq<FrameData>)
    ensures
        deliveries_of(
            true,
            seq![EventData::Open] + message_events(frames) + seq![EventData::Close],
        ) == seq![DeliveryView::Status(WebSocketStatus::Opened)] + message_deliveries(frames)
            + seq![DeliveryView::Status(WebSocketStatus::Closed)],
        !wired_after(
            true,
            seq![EventData::Open] + message_events(frames) + seq![EventData::Close],
        ),
{
    let run = seq![EventData::Open] + message_events(frames) + seq![EventData::Close];
    let tail = message_events(frames) + seq![EventData::Close];
    assert(run.first() == EventData::Open);
    assert(run.drop_first() =~= tail);
    assert(tail =~= message_events(frames).push(EventData::Close));
    lemma_messages_keep_wired(frames);
    lemma_dispatch_snoc(true, true, message_events(frames), EventData::Close);
    assert(deliveries_of(true, run) == seq![DeliveryView::Status(WebSocketStatus::Opened)]
        + (message_deliveries(frames) + seq![DeliveryView::Status(WebSocketStatus::Closed)]));
    assert(seq![DeliveryView::Status(WebSocketStatus::Opened)] + (message_deliveries(frames)
        + seq![DeliveryView::Status(WebSocketStatus::Closed)]) =~= seq![
        DeliveryView::Status(WebSocketStatus::Opened),
    ] + message_deliveries(frames) + seq![DeliveryView::Status(WebSocketStatus::Closed)]);
}

/// Law: once the listener is released, no sequence of events delivers
/// anything, and nothing rewires it.
pub proof fn lemma_released_delivers_nothing(events: Seq<EventData>)
    ensures
        deliveries_of(false, events) == Seq::<DeliveryView>::empty(),
        !wired_after(false, events),
    decreases events.len(),
{
    if events.len() > 0 {
        lemma_released_delivers_nothing(events.drop_first());
        assert(Seq::<DeliveryView>::empty() + Seq::<DeliveryView>::empty() =~= Seq::<
            DeliveryView,
        >::empty());
    }
}

/// Law: a handle that is inactive never becomes active again, whatever
/// events arrive.
pub proof fn lemma_inactive_stays_inactive(wired: bool, events: Seq<EventData>)
    ensures
        !active_after(false, wired, events),
    decreases events.len(),
{
    if events.len() > 0 {
        lemma_inactive_stays_inactive(step_wired(wired, events.first()), events.drop_first());
    }
}

impl<T: Transport, L: Listener> WebSocketTask<T, L> {
    /// Bridges a batch of events to the listener, in order: the dispatch
    /// loop over plain event values.
    pub fn deliver_all(&mut self, events: Vec<TransportEvent>)
        requires
            old(self).wf(),
        ensures
            final(self).wf(),
            final(self).log() == old(self).log(),
            final(self).delivered() == old(self).delivered() + deliveries_of(
                old(self).wired(),
                views_of_events(events@),
            ),
            final(self).wired() == wired_after(old(self).wired(), views_of_events(events@)),
            final(self).is_active_spec() == active_after(
                old(self).is_active_spec(),
                old(self).wired(),
                views_of_events(events@),
            ),
    {
        let ghost all_events = events@;
        let ghost wired0 = old(self).wired();
        let ghost active0 = old(self).is_active_spec();
        let mut remaining = events;
        let total: usize = remaining.len();
        proof {
            assert(all_events.len() == total as int);
        }
        let mut done: usize = 0;
        while remaining.len() > 0
            invariant
                all_events.len() <= usize::MAX,
                done + remaining.len() == all_events.len(),
                remaining@ =~= all_events.skip(done as int),
                self.wf(),
                self.log() == old(self).log(),
                self.delivered() == old(self).delivered() + deliveries_of(
                    wired0,
                    views_of_events(all_events.take(done as int)),
                ),
                self.wired() == wired_after(wired0, views_of_events(all_events.take(done as int))),
                self.is_active_spec() == active_after(
                    active0,
                    wired0,
                    views_of_events(all_events.take(done as int)),
                ),
            decreases remaining.len(),
        {
            let event = remaining.remove(0);
            proof {
                assert(event == all_events[done as int]);
            }
            let ghost event_data = event@;
            let ghost done_views = views_of_events(all_events.take(done as int));
            self.handle_event(event);
            proof {
                assert(remaining@ =~= all_events.skip(done as int + 1));
                assert(all_events.take(done as int + 1).drop_last() =~= all_events.take(
                    done as int,
                ));
                assert(all_events.take(done as int + 1).last() == all_events[done as int]);
                assert(views_of_events(all_events.take(done as int + 1)) == done_views.push(
                    event_data,
                ));
                lemma_dispatch_snoc(active0, wired0, done_views, event_data);
                assert(old(self).delivered() + (deliveries_of(wired0, done_views)
                    + step_deliveries(wired_after(wired0, done_views), event_data)) =~= (old(
                    self,
                ).delivered() + deliveries_of(wired0, done_views)) + step_deliveries(
                    wired_after(wired0, done_views),
                    event_data,
                ));
            }
            done = done + 1;
        }
        proof {
            assert(all_events.take(all_events.len() as int) =~= all_events);
        }
    }
}

} // verus!

