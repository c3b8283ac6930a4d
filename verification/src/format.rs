//! Conversion contracts between application values and wire payloads.
//!
//! An outbound value is turned into an optional text body (the storable
//! conversion); `None` suppresses the send. An inbound frame is decoded into
//! a `Result` of text or a decode error (the restorable conversion), so that
//! the application decides how to represent malformed frames.

use vstd::prelude::*;

verus! {

/// An outbound wire payload: the text body to transmit, or `None` for
/// "nothing to send".
pub type Storable = Option<String>;

/// An inbound decode result: the text of a frame, or the error met while
/// decoding it.
pub type Restorable = Result<String, DecodeError>;

/// Why an inbound frame could not be decoded into text.
#[derive(Clone, Copy, Debug, PartialEq, Eq, Structural)]
pub enum DecodeError {
    /// The frame carried binary data where this text layer expected text.
    BinaryFrame,
}

/// The text carried by an outbound payload, if any.
pub open spec fn storable_body(body: Storable) -> Option<Seq<char>> {
    match body {
        Some(text) => Some(text@),
        None => None,
    }
}

/// A decode result at the level of character sequences.
pub open spec fn restorable_data(data: Restorable) -> Result<Seq<char>, DecodeError> {
    match data {
        Ok(text) => Ok(text@),
        Err(e) => Err(e),
    }
}

/// A raw inbound frame as the transport delivers it.
#[derive(Debug, PartialEq, Eq)]
pub enum Frame {
    /// A text frame.
    Text(String),
    /// A binary frame.
    Binary(Vec<u8>),
}

/// The mathematical content of a raw frame.
pub enum FrameData {
    Text(Seq<char>),
    Binary(Seq<u8>),
}

impl View for Frame {
    type V = FrameData;

    open spec fn view(&self) -> FrameData {
        match self {
            Frame::Text(text) => FrameData::Text(text@),
            Frame::Binary(bytes) => FrameData::Binary(bytes@),
        }
    }
}

/// What decoding a frame yields: the text of a text frame, and a
/// [`DecodeError`] for a binary frame, which this text layer cannot decode.
pub open spec fn spec_decode_frame(frame: FrameData) -> Result<Seq<char>, DecodeError> {
    match frame {
        FrameData::Text(text) => Ok(text),
        FrameData::Binary(_) => Err(DecodeError::BinaryFrame),
    }
}

/// Decodes a raw inbound frame into the restorable representation.
///
/// Never fails on bad frame content: a frame this layer cannot decode becomes
/// an `Err` value for the application to interpret.
pub fn decode_frame(frame: Frame) -> (data: Restorable)
    ensures
        restorable_data(data) == spec_decode_frame(frame@),
{
    match frame {
        Frame::Text(text) => Ok(text),
        Frame::Binary(_) => Err(DecodeError::BinaryFrame),
    }
}

/// An outbound value that the storable conversion turns into an optional
/// wire body.
pub trait IntoStorable: Sized {
    /// The body this value converts to, if any.
    spec fn storable_view(&self) -> Option<Seq<char>>;

    /// Performs the storable conversion.
    fn into_storable(self) -> (body: Storable)
        ensures
            storable_body(body) == self.storable_view(),
    ;
}

impl IntoStorable for String {
    open spec fn storable_view(&self) -> Option<Seq<char>> {
        Some(self@)
    }

    fn into_storable(self) -> (body: Storable) {
        Some(self)
    }
}

impl<'a> IntoStorable for &'a str {
    open spec fn storable_view(&self) -> Option<Seq<char>> {
        Some(self@)
    }

    fn into_storable(self) -> (body: Storable) {
        Some(self.to_owned())
    }
}

impl IntoStorable for Storable {
    open spec fn storable_view(&self) -> Option<Seq<char>> {
        storable_body(*self)
    }

    fn into_storable(self) -> (body: Storable) {
        self
    }
}

/// An application message constructible from an inbound decode result.
pub trait FromRestorable: Sized {
    /// The message that a given decode result maps to.
    spec fn from_restorable_spec(data: Restorable) -> Self;

    /// Performs the restorable conversion.
    fn from_restorable(data: Restorable) -> (message: Self)
        ensures
            message == Self::from_restorable_spec(data),
    ;
}

impl FromRestorable for Restorable {
    open spec fn from_restorable_spec(data: Restorable) -> Restorable {
        data
    }

    fn from_restorable(data: Restorable) -> (message: Self) {
        data
    }
}

} // verus!
