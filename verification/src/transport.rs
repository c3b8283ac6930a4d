//! The transport capability: the boundary with the external byte-stream.
//!
//! A [`Transport`] value stands for one bidirectional connection. Its
//! specification is the ordered sequence of requests issued on it: one open,
//! then writes, then at most one close. [`RecordingTransport`] is the
//! library's own implementation, which records the requests in memory; a
//! driver that performs real network work implements the same trait.

use vstd::prelude::*;

verus! {

/// One request issued on a transport, at the specification level.
pub enum RequestView {
    /// Open a connection to the given address.
    Open(Seq<char>),
    /// Transmit a text body on the connection.
    Write(Seq<char>),
    /// Ask the connection to close.
    Close,
}

/// Whether some close request occurs in `requests`.
pub open spec fn has_close(requests: Seq<RequestView>) -> bool {
    exists|i: int| 0 <= i < requests.len() && requests[i] is Close
}

/// How many close requests occur in `requests`.
pub open spec fn close_count(requests: Seq<RequestView>) -> nat
    decreases requests.len(),
{
    if requests.len() == 0 {
        0
    } else {
        close_count(requests.drop_last()) + (if requests.last() is Close {
            1nat
        } else {
            0nat
        })
    }
}

/// Appending a request extends the close count by one exactly when the
/// request is a close.
pub proof fn lemma_close_count_push(requests: Seq<RequestView>, request: RequestView)
    ensures
        close_count(requests.push(request)) == close_count(requests) + (
        if request is Close {
            1nat
        } else {
            0nat
        }),
{
    assert(requests.push(request).drop_last() =~= requests);
}

/// A close is counted as soon as one occurs.
pub proof fn lemma_has_close_count(requests: Seq<RequestView>)
    ensures
        has_close(requests) ==> close_count(requests) >= 1,
        !has_close(requests) ==> close_count(requests) == 0,
    decreases requests.len(),
{
    if requests.len() > 0 {
        lemma_has_close_count(requests.drop_last());
        assert(requests.drop_last().push(requests.last()) =~= requests);
        if has_close(requests.drop_last()) {
            let i = choose|i: int|
                0 <= i < requests.drop_last().len() && requests.drop_last()[i] is Close;
            assert(requests[i] is Close);
        }
        if has_close(requests) && !(requests.last() is Close) {
            let i = choose|i: int| 0 <= i < requests.len() && requests[i] is Close;
            assert(requests.drop_last()[i] is Close);
        }
    }
}

/// The bodies of the write requests in `requests`, in order.
pub open spec fn write_bodies(requests: Seq<RequestView>) -> Seq<Seq<char>>
    decreases requests.len(),
{
    if requests.len() == 0 {
        Seq::empty()
    } else {
        write_bodies(requests.drop_last()) + (match requests.last() {
            RequestView::Write(body) => seq![body],
            _ => Seq::empty(),
        })
    }
}

/// Appending a request extends the write bodies exactly by the body of a
/// write request.
pub proof fn lemma_write_bodies_push(requests: Seq<RequestView>, request: RequestView)
    ensures
        write_bodies(requests.push(request)) == write_bodies(requests) + (match request {
            RequestView::Write(body) => seq![body],
            _ => Seq::empty(),
        }),
{
    assert(requests.push(request).drop_last() =~= requests);
}

/// The write requests that a sequence of text bodies gives rise to, in order.
pub open spec fn write_requests_of(bodies: Seq<String>) -> Seq<RequestView>
    decreases bodies.len(),
{
    if bodies.len() == 0 {
        Seq::empty()
    } else {
        write_requests_of(bodies.drop_last()).push(RequestView::Write(bodies.last()@))
    }
}

/// The views of a sequence of text bodies, in order.
pub open spec fn string_views(bodies: Seq<String>) -> Seq<Seq<char>>
    decreases bodies.len(),
{
    if bodies.len() == 0 {
        Seq::empty()
    } else {
        string_views(bodies.drop_last()).push(bodies.last()@)
    }
}

/// The write requests of a body sequence are its views, position by position.
pub proof fn lemma_write_requests_of(bodies: Seq<String>)
    ensures
        write_requests_of(bodies).len() == bodies.len(),
        string_views(bodies).len() == bodies.len(),
        forall|i: int|
            0 <= i < bodies.len() ==> #[trigger] write_requests_of(bodies)[i]
                == RequestView::Write(bodies[i]@),
        forall|i: int| 0 <= i < bodies.len() ==> #[trigger] string_views(bodies)[i] == bodies[i]@,
    decreases bodies.len(),
{
    if bodies.len() > 0 {
        lemma_write_requests_of(bodies.drop_last());
        assert forall|i: int|
            0 <= i < bodies.len() implies #[trigger] write_requests_of(bodies)[i]
            == RequestView::Write(bodies[i]@) by {
            if i < bodies.len() - 1 {
                assert(write_requests_of(bodies.drop_last())[i] == RequestView::Write(
                    bodies.drop_last()[i]@,
                ));
                assert(bodies.drop_last()[i] == bodies[i]);
            }
        }
        assert forall|i: int|
            0 <= i < bodies.len() implies #[trigger] string_views(bodies)[i] == bodies[i]@ by {
            if i < bodies.len() - 1 {
                assert(string_views(bodies.drop_last())[i] == bodies.drop_last()[i]@);
                assert(bodies.drop_last()[i] == bodies[i]);
            }
        }
    }
}

/// A connection to the external byte-stream, seen as the ordered sequence of
/// requests issued on it.
pub trait Transport: Sized {
    /// The requests issued on this connection so far, in order.
    spec fn requests(&self) -> Seq<RequestView>;

    /// Opens the connection to `url`. Issued once, first.
    fn open(&mut self, url: &str)
        requires
            old(self).requests() == Seq::<RequestView>::empty(),
        ensures
            final(self).requests() == seq![RequestView::Open(url@)],
    ;

    /// Transmits a text body. Never issued after a close request.
    fn write(&mut self, body: String)
        requires
            !has_close(old(self).requests()),
        ensures
            final(self).requests() == old(self).requests().push(RequestView::Write(body@)),
    ;

    /// Asks the connection to close. Idempotent-safe: a repeated close
    /// request leaves the connection as it is.
    fn close(&mut self)
        ensures
            !has_close(old(self).requests()) ==> final(self).requests() == old(
                self,
            ).requests().push(RequestView::Close),
            has_close(old(self).requests()) ==> final(self).requests() == old(self).requests(),
    ;
}

/// An in-memory transport that records every request and performs no I/O.
pub struct RecordingTransport {
    opened: Option<String>,
    writes: Vec<String>,
    closed: bool,
}

impl RecordingTransport {
    /// A fresh connection on which nothing has been requested.
    pub fn new() -> (transport: Self)
        ensures
            transport.requests() == Seq::<RequestView>::empty(),
    {
        let transport = RecordingTransport { opened: None, writes: Vec::new(), closed: false };
        proof {
            assert(transport.requests() =~= Seq::<RequestView>::empty());
        }
        transport
    }

    /// The address the connection was opened to, if it was.
    pub fn opened_url(&self) -> (url: &Option<String>)
        ensures
            match url {
                Some(u) => self.requests().len() > 0 && self.requests()[0] == RequestView::Open(
                    u@,
                ),
                None => forall|i: int|
                    0 <= i < self.requests().len() ==> !(self.requests()[i] is Open),
            },
    {
        proof {
            match &self.opened {
                Some(u) => {
                    assert(self.requests()[0] == RequestView::Open(u@));
                }
                None => {
                    assert forall|i: int|
                        0 <= i < self.requests().len() implies !(self.requests()[i] is Open) by {
                        self.lemma_request_kinds(i);
                    }
                }
            }
        }
        &self.opened
    }

    /// The text bodies written so far, in order.
    pub fn writes(&self) -> (bodies: &Vec<String>)
        ensures
            string_views(bodies@) == write_bodies(self.requests()),
    {
        proof {
            self.lemma_writes_are_write_bodies();
        }
        &self.writes
    }

    /// Whether a close has been requested.
    pub fn close_requested(&self) -> (closed: bool)
        ensures
            closed == has_close(self.requests()),
    {
        proof {
            if self.closed {
                let n = self.requests().len() as int;
                assert(self.requests()[n - 1] is Close);
            } else {
                assert forall|i: int|
                    0 <= i < self.requests().len() implies !(self.requests()[i] is Close) by {
                    self.lemma_request_kinds(i);
                }
            }
        }
        self.closed
    }

    /// The open prefix of the request sequence.
    spec fn open_part(&self) -> Seq<RequestView> {
        match self.opened {
            Some(url) => seq![RequestView::Open(url@)],
            None => Seq::empty(),
        }
    }

    /// The close suffix of the request sequence.
    spec fn close_part(&self) -> Seq<RequestView> {
        if self.closed {
            seq![RequestView::Close]
        } else {
            Seq::empty()
        }
    }

    /// The write requests, in write order.
    spec fn write_part(&self) -> Seq<RequestView> {
        write_requests_of(self.writes@)
    }

    /// Each position of the request sequence holds the kind of request its
    /// segment says it does.
    proof fn lemma_request_kinds(&self, i: int)
        requires
            0 <= i < self.requests().len(),
        ensures
            i < self.open_part().len() ==> self.requests()[i] is Open,
            self.open_part().len() <= i < self.open_part().len() + self.write_part().len()
                ==> self.requests()[i] is Write,
            self.open_part().len() + self.write_part().len() <= i ==> self.requests()[i] is Close,
    {
        lemma_write_requests_of(self.writes@);
    }

    /// The write bodies of the request sequence are the views of the
    /// recorded writes.
    proof fn lemma_writes_are_write_bodies(&self)
        ensures
            write_bodies(self.requests()) == string_views(self.writes@),
    {
        lemma_write_bodies_of_writes(self.open_part(), self.writes@);
        if self.closed {
            lemma_write_bodies_push(self.open_part() + self.write_part(), RequestView::Close);
            assert((self.open_part() + self.write_part()).push(RequestView::Close)
                =~= self.requests());
            assert(write_bodies(self.open_part() + self.write_part())
                + Seq::<Seq<char>>::empty() =~= write_bodies(
                self.open_part() + self.write_part(),
            ));
        } else {
            assert(self.open_part() + self.write_part() + Seq::<RequestView>::empty()
                =~= self.open_part() + self.write_part());
        }
    }
}

/// The write bodies of an all-open prefix followed by write requests are the
/// views of the written bodies.
proof fn lemma_write_bodies_of_writes(prefix: Seq<RequestView>, bodies: Seq<String>)
    requires
        forall|i: int| 0 <= i < prefix.len() ==> !((#[trigger] prefix[i]) is Write),
    ensures
        write_bodies(prefix + write_requests_of(bodies)) == string_views(bodies),
    decreases bodies.len(),
{
    if bodies.len() == 0 {
        assert(prefix + write_requests_of(bodies) =~= prefix);
        lemma_write_bodies_none(prefix);
    } else {
        lemma_write_bodies_of_writes(prefix, bodies.drop_last());
        assert(prefix + write_requests_of(bodies) =~= (prefix + write_requests_of(
            bodies.drop_last(),
        )).push(RequestView::Write(bodies.last()@)));
        lemma_write_bodies_push(
            prefix + write_requests_of(bodies.drop_last()),
            RequestView::Write(bodies.last()@),
        );
        assert(string_views(bodies.drop_last()) + seq![bodies.last()@] =~= string_views(bodies));
    }
}

/// A sequence without write requests has no write bodies.
proof fn lemma_write_bodies_none(requests: Seq<RequestView>)
    requires
        forall|i: int| 0 <= i < requests.len() ==> !((#[trigger] requests[i]) is Write),
    ensures
        write_bodies(requests) == Seq::<Seq<char>>::empty(),
    decreases requests.len(),
{
    if requests.len() > 0 {
        lemma_write_bodies_none(requests.drop_last());
        assert(write_bodies(requests.drop_last()) + Seq::<Seq<char>>::empty() =~= write_bodies(
            requests.drop_last(),
        ));
    }
}

impl Transport for RecordingTransport {
    closed spec fn requests(&self) -> Seq<RequestView> {
        self.open_part() + self.write_part() + self.close_part()
    }

    fn open(&mut self, url: &str) {
        self.opened = Some(url.to_owned());
        proof {
            assert(self.requests() =~= seq![RequestView::Open(url@)]);
        }
    }

    fn write(&mut self, body: String) {
        proof {
            if old(self).closed {
                let n = old(self).requests().len() as int;
                assert(old(self).requests()[n - 1] is Close);
            }
        }
        let ghost body_view = body@;
        self.writes.push(body);
        proof {
            assert(self.writes@.drop_last() =~= old(self).writes@);
            assert(self.requests() =~= old(self).requests().push(
                RequestView::Write(body_view),
            ));
        }
    }

    fn close(&mut self) {
        self.closed = true;
        proof {
            if old(self).closed {
                let n = old(self).requests().len() as int;
                assert(old(self).requests()[n - 1] is Close);
                assert(self.requests() =~= old(self).requests());
            } else {
                assert forall|i: int|
                    0 <= i < old(self).requests().len() implies !(old(self).requests()[i]
                    is Close) by {
                    old(self).lemma_request_kinds(i);
                }
                assert(self.requests() =~= old(self).requests().push(RequestView::Close));
            }
        }
    }
}

} // verus!
