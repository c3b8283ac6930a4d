use std::cell::RefCell;
use std::rc::Rc;

use websocket_service::{
    decode_frame, status_from_code, DecodeError, Frame, FromRestorable, IntoStorable, Listener,
    RecordingTransport, Restorable, Storable, Transport, TransportEvent, WebSocketService,
    WebSocketStatus, WebSocketTask,
};

/// One request observed on a test transport.
#[derive(Clone, Debug, PartialEq, Eq)]
enum Request {
    Open(String),
    Write(String),
    Close,
}

/// A transport double that records every request in shared state, so the
/// requests stay observable after the task is gone.
struct SharedTransport {
    log: Rc<RefCell<Vec<Request>>>,
}

impl SharedTransport {
    fn new() -> (SharedTransport, Rc<RefCell<Vec<Request>>>) {
        let log = Rc::new(RefCell::new(Vec::new()));
        (SharedTransport { log: log.clone() }, log)
    }
}

impl Transport for SharedTransport {
    // Specification-only member of the trait: never called at run time.
    fn requests(&self) -> vstd::seq::Seq<websocket_service::transport::RequestView> {
        panic!("requests is specification-only")
    }

    fn open(&mut self, url: &str) {
        self.log.borrow_mut().push(Request::Open(url.to_string()));
    }

    fn write(&mut self, body: String) {
        self.log.borrow_mut().push(Request::Write(body));
    }

    fn close(&mut self) {
        self.log.borrow_mut().push(Request::Close);
    }
}

/// One delivery observed by a test listener.
#[derive(Clone, Debug, PartialEq, Eq)]
enum Delivery {
    Message(Result<String, DecodeError>),
    Status(WebSocketStatus),
}

/// A listener double that records every delivery in shared state.
struct SharedListener {
    deliveries: Rc<RefCell<Vec<Delivery>>>,
}

impl SharedListener {
    fn new() -> (SharedListener, Rc<RefCell<Vec<Delivery>>>) {
        let deliveries = Rc::new(RefCell::new(Vec::new()));
        (SharedListener { deliveries: deliveries.clone() }, deliveries)
    }
}

impl Listener for SharedListener {
    type Message = Restorable;

    fn on_message(&mut self, message: Restorable) {
        self.deliveries.borrow_mut().push(Delivery::Message(message));
    }

    fn on_status(&mut self, status: WebSocketStatus) {
        self.deliveries.borrow_mut().push(Delivery::Status(status));
    }
}

/// The scope-exit hook around a task: releases the connection when the
/// owning scope ends, on every exit path.
struct ScopedTask(Option<WebSocketTask<SharedTransport, SharedListener>>);

impl Drop for ScopedTask {
    fn drop(&mut self) {
        if let Some(task) = &mut self.0 {
            task.release();
        }
    }
}

fn connected() -> (
    WebSocketTask<SharedTransport, SharedListener>,
    Rc<RefCell<Vec<Request>>>,
    Rc<RefCell<Vec<Delivery>>>,
) {
    let (transport, log) = SharedTransport::new();
    let (listener, deliveries) = SharedListener::new();
    let mut service = WebSocketService::new();
    let task = service.connect("ws://example.test/socket", transport, listener);
    (task, log, deliveries)
}

#[test]
fn connect_starts_active_and_opens() {
    let (task, log, deliveries) = connected();
    assert!(task.is_active());
    assert_eq!(
        *log.borrow(),
        vec![Request::Open("ws://example.test/socket".to_string())]
    );
    assert!(deliveries.borrow().is_empty());
}

#[test]
fn cancel_deactivates_and_closes_once() {
    let (mut task, log, _deliveries) = connected();
    task.cancel();
    assert!(!task.is_active());
    let log = log.borrow();
    assert_eq!(log.len(), 2);
    assert_eq!(log[1], Request::Close);
    assert_eq!(log.iter().filter(|r| **r == Request::Close).count(), 1);
}

#[test]
fn remote_close_deactivates_without_close_request() {
    let (mut task, log, deliveries) = connected();
    task.handle_event(TransportEvent::Close);
    assert!(!task.is_active());
    assert_eq!(
        *deliveries.borrow(),
        vec![Delivery::Status(WebSocketStatus::Closed)]
    );
    assert!(log.borrow().iter().all(|r| *r != Request::Close));
}

#[test]
fn send_with_empty_storable_writes_nothing() {
    let (mut task, log, _deliveries) = connected();
    let nothing: Storable = None;
    task.send(nothing);
    assert!(task.is_active());
    assert!(log.borrow().iter().all(|r| !matches!(r, Request::Write(_))));
}

#[test]
fn send_writes_single_body() {
    let (mut task, log, _deliveries) = connected();
    task.send(String::from("hello"));
    let log = log.borrow();
    assert_eq!(log.len(), 2);
    assert_eq!(log[1], Request::Write("hello".to_string()));
}

#[test]
fn scope_exit_closes_once() {
    let (transport, log) = SharedTransport::new();
    let (listener, _deliveries) = SharedListener::new();
    {
        let mut service = WebSocketService::new();
        let task = service.connect("ws://example.test/socket", transport, listener);
        assert!(task.is_active());
        let _scoped = ScopedTask(Some(task));
    }
    let log = log.borrow();
    assert_eq!(log.len(), 2);
    assert_eq!(log[1], Request::Close);
    assert_eq!(log.iter().filter(|r| **r == Request::Close).count(), 1);
}

#[test]
fn scope_exit_after_cancel_does_not_close_again() {
    let (transport, log) = SharedTransport::new();
    let (listener, _deliveries) = SharedListener::new();
    {
        let mut service = WebSocketService::new();
        let mut task = service.connect("ws://example.test/socket", transport, listener);
        task.cancel();
        let _scoped = ScopedTask(Some(task));
    }
    let log = log.borrow();
    assert_eq!(log.iter().filter(|r| **r == Request::Close).count(), 1);
}

#[test]
fn event_ordering_delivers_in_order_and_stops_after_close() {
    let (mut task, _log, deliveries) = connected();
    task.deliver_all(vec![
        TransportEvent::Open,
        TransportEvent::Message(Frame::Text("first".to_string())),
        TransportEvent::Message(Frame::Text("second".to_string())),
        TransportEvent::Close,
        TransportEvent::Message(Frame::Text("late".to_string())),
        TransportEvent::Open,
        TransportEvent::Close,
    ]);
    assert_eq!(
        *deliveries.borrow(),
        vec![
            Delivery::Status(WebSocketStatus::Opened),
            Delivery::Message(Ok("first".to_string())),
            Delivery::Message(Ok("second".to_string())),
            Delivery::Status(WebSocketStatus::Closed),
        ]
    );
    assert!(!task.is_active());
}

#[test]
fn echo_scenario_writes_once_and_delivers_echo() {
    let (mut task, log, deliveries) = connected();
    task.handle_event(TransportEvent::Open);
    task.send("ping");
    {
        let log = log.borrow();
        let writes: Vec<&Request> = log
            .iter()
            .filter(|r| matches!(r, Request::Write(_)))
            .collect();
        assert_eq!(writes, vec![&Request::Write("ping".to_string())]);
    }
    task.handle_event(TransportEvent::Message(Frame::Text("ping".to_string())));
    let deliveries = deliveries.borrow();
    let messages: Vec<&Delivery> = deliveries
        .iter()
        .filter(|d| matches!(d, Delivery::Message(_)))
        .collect();
    assert_eq!(messages, vec![&Delivery::Message(Ok("ping".to_string()))]);
}

#[test]
fn malformed_frame_delivers_error_and_task_stays_active() {
    let (mut task, _log, deliveries) = connected();
    task.handle_event(TransportEvent::Message(Frame::Binary(vec![0xff, 0xfe])));
    assert_eq!(
        *deliveries.borrow(),
        vec![Delivery::Message(Err(DecodeError::BinaryFrame))]
    );
    assert!(task.is_active());
}

#[test]
fn error_event_is_silent() {
    let (mut task, log, deliveries) = connected();
    task.handle_event(TransportEvent::Error);
    assert!(task.is_active());
    assert!(deliveries.borrow().is_empty());
    assert_eq!(log.borrow().len(), 1);
}

#[test]
fn close_event_after_cancel_notifies_closed_once() {
    let (mut task, _log, deliveries) = connected();
    task.cancel();
    task.handle_event(TransportEvent::Close);
    task.handle_event(TransportEvent::Close);
    assert_eq!(
        *deliveries.borrow(),
        vec![Delivery::Status(WebSocketStatus::Closed)]
    );
}

#[test]
fn status_from_code_maps_codes() {
    assert_eq!(status_from_code(1), WebSocketStatus::Opened);
    assert_eq!(status_from_code(0), WebSocketStatus::Closed);
}

#[test]
fn decode_frame_text_is_ok() {
    assert_eq!(
        decode_frame(Frame::Text("payload".to_string())),
        Ok("payload".to_string())
    );
}

#[test]
fn decode_frame_binary_is_error() {
    assert_eq!(
        decode_frame(Frame::Binary(vec![1, 2, 3])),
        Err(DecodeError::BinaryFrame)
    );
}

#[test]
fn recording_transport_records_requests() {
    let transport = RecordingTransport::new();
    let (listener, _deliveries) = SharedListener::new();
    let mut service = WebSocketService::new();
    let mut task = service.connect("ws://example.test/socket", transport, listener);
    task.send(String::from("one"));
    task.send(String::from("two"));
    assert_eq!(
        *task.transport().opened_url(),
        Some("ws://example.test/socket".to_string())
    );
    assert_eq!(
        *task.transport().writes(),
        vec!["one".to_string(), "two".to_string()]
    );
    assert!(!task.transport().close_requested());
    task.cancel();
    assert!(task.transport().close_requested());
}

#[test]
fn storable_conversion_of_text_and_passthrough() {
    assert_eq!(
        IntoStorable::into_storable(String::from("hi")),
        Some("hi".to_string())
    );
    assert_eq!(IntoStorable::into_storable("hi"), Some("hi".to_string()));
    let body: Storable = Some("kept".to_string());
    assert_eq!(IntoStorable::into_storable(body), Some("kept".to_string()));
    let empty: Storable = None;
    assert_eq!(IntoStorable::into_storable(empty), None);
}

#[test]
fn restorable_conversion_is_identity() {
    let ok: Restorable = Ok("text".to_string());
    assert_eq!(Restorable::from_restorable(ok), Ok("text".to_string()));
    let err: Restorable = Err(DecodeError::BinaryFrame);
    assert_eq!(
        Restorable::from_restorable(err),
        Err(DecodeError::BinaryFrame)
    );
}
