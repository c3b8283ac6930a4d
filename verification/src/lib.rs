//! A verified WebSocket service and task.
//!
//! The library wraps an externally driven, event-based byte-stream connection
//! into a value with an explicit lifecycle: a [`websocket::WebSocketService`]
//! opens a connection over a [`transport::Transport`] capability and returns a
//! [`websocket::WebSocketTask`] that owns it. The task reports liveness,
//! sends outbound payloads, cancels the connection at most once, and offers a
//! release hook so a scope-exit mechanism can cancel it on every exit path.
//! Inbound transport events are bridged to an application-supplied
//! [`websocket::Listener`], with decode failures delivered as values rather
//! than raised.

pub mod format;
pub mod transport;
pub mod websocket;

pub use format::{
    decode_frame, DecodeError, Frame, FromRestorable, IntoStorable, Restorable, Storable,
};
pub use transport::{RecordingTransport, Transport};
pub use websocket::{
    status_from_code, Listener, TransportEvent, WebSocketService, WebSocketStatus, WebSocketTask,
};
