//! Per-session relay logic: which bytes one relay cycle carries, and what a
//! session does in answer to each read, write and connect outcome.
//!
//! A session is bound to one backend target when it is created and keeps it
//! for its whole life. Each relay cycle forwards at most one buffer of bytes
//! to the backend and relays the backend's reply, bounded by the same buffer
//! size, verbatim back to the client. Every failure ends the session;
//! nothing is retried.

use vstd::prelude::*;

verus! {

/// The first `cap` bytes of `data`, or all of `data` if it is no longer
/// than `cap`: what one relay cycle carries of a pending payload.
pub open spec fn chunk(data: Seq<u8>, cap: nat) -> Seq<u8> {
    if data.len() <= cap {
        data
    } else {
        data.take(cap as int)
    }
}

/// Copies out the part of `data` that one cycle with buffer size `cap` carries.
pub fn take_chunk(data: &Vec<u8>, cap: usize) -> (c: Vec<u8>)
    ensures
        c@ == chunk(data@, cap as nat),
{
    let end = if data.len() <= cap {
        data.len()
    } else {
        cap
    };
    let mut c: Vec<u8> = Vec::new();
    let mut i: usize = 0;
    while i < end
        invariant
            i <= end,
            end <= data@.len(),
            c@ == data@.take(i as int),
        decreases end - i,
    {
        c.push(data[i]);
        proof {
            assert(c@ =~= data@.take(i + 1));
        }
        i = i + 1;
    }
    proof {
        assert(c@ =~= chunk(data@, cap as nat));
    }
    c
}

/// Law: truncation. A payload longer than the buffer has exactly the first
/// buffer-size bytes carried by the cycle, and the rest of the payload is
/// exactly what remains for later cycles.
pub proof fn lemma_truncation(p: Seq<u8>, cap: nat)
    requires
        cap < p.len(),
    ensures
        chunk(p, cap) == p.take(cap as int),
        chunk(p, cap).len() == cap,
        chunk(p, cap) + p.skip(cap as int) == p,
{
    assert(chunk(p, cap) + p.skip(cap as int) =~= p);
}

/// Law: round trip. A backend that echoes exactly what it receives sends a
/// payload that fits in the buffer back to the client unchanged: the cycle
/// forwards `chunk(p, cap) == p`, the echo replies with the same bytes, and
/// the reply, bounded by the same buffer size, is relayed as `p` again.
pub proof fn lemma_echo_round_trip(p: Seq<u8>, cap: nat)
    requires
        p.len() <= cap,
    ensures
        chunk(p, cap) == p,
        chunk(chunk(p, cap), cap) == p,
{
}

/// What one read on the client socket produced: an error, or the bytes it
/// delivered. A delivery of no bytes means the client closed the connection.
#[derive(Debug)]
pub enum ClientRead {
    Failed,
    Data(Vec<u8>),
}

/// What the round trip to the backend produced: a failure at one of its
/// three steps, or the bytes of the backend's reply.
#[derive(Debug)]
pub enum BackendExchange {
    ConnectFailed,
    WriteFailed,
    ReadFailed,
    Reply(Vec<u8>),
}

/// Why a session ended. Only `ClientClosed` is a normal end; every other
/// reason is an error that terminates the one affected session.
#[derive(Clone, Copy, Debug, PartialEq, Eq, Structural)]
pub enum SessionEnd {
    ClientClosed,
    ClientReadFailed,
    BackendConnectFailed,
    BackendWriteFailed,
    BackendReadFailed,
    ClientWriteFailed,
}

/// The next thing a session must do after an event: stop for the given
/// reason, send the given bytes to its backend target, or write the given
/// bytes back to the client.
#[derive(Debug)]
pub enum Action {
    Stop(SessionEnd),
    SendToBackend(Vec<u8>),
    ReplyToClient(Vec<u8>),
}

/// One relay session: bound at creation to the one backend target chosen
/// for it, with a fixed transfer buffer size; neither ever changes for the
/// session's life, whatever happens to the target's status afterwards.
pub struct Session {
    target: String,
    cap: usize,
}

impl View for Session {
    type V = (Seq<char>, nat);

    closed spec fn view(&self) -> (Seq<char>, nat) {
        (self.target@, self.cap as nat)
    }
}

impl Session {
    /// Binds a new session to the selected target and buffer size.
    pub fn new(target: String, cap: usize) -> (s: Session)
        ensures
            s@ == (target@, cap as nat),
    {
        Session { target, cap }
    }

    /// The address of the backend this session is bound to.
    pub fn target(&self) -> (t: &str)
        ensures
            t@ == self@.0,
    {
        self.target.as_str()
    }

    /// The session's transfer buffer size.
    pub fn buffer_size(&self) -> (c: usize)
        ensures
            c as nat == self@.1,
    {
        self.cap
    }

    /// The session's answer to one client read: stop when the read failed,
    /// stop normally when it delivered nothing (the client closed), and
    /// otherwise forward one buffer-bounded chunk of the delivered bytes to
    /// the backend.
    pub fn on_client_read(&self, ev: ClientRead) -> (a: Action)
        ensures
            ev matches ClientRead::Failed ==> a == Action::Stop(SessionEnd::ClientReadFailed),
            ev matches ClientRead::Data(d) ==> (if d@.len() == 0 {
                a == Action::Stop(SessionEnd::ClientClosed)
            } else {
                a matches Action::SendToBackend(b) && b@ == chunk(d@, self@.1)
            }),
    {
        match ev {
            ClientRead::Failed => Action::Stop(SessionEnd::ClientReadFailed),
            ClientRead::Data(d) => {
                if d.len() == 0 {
                    Action::Stop(SessionEnd::ClientClosed)
                } else {
                    Action::SendToBackend(take_chunk(&d, self.cap))
                }
            },
        }
    }

    /// The session's answer to one backend round trip: stop on any failure,
    /// and otherwise relay the reply verbatim back to the client, bounded
    /// only by the session's own buffer size.
    pub fn on_backend_exchange(&self, ex: BackendExchange) -> (a: Action)
        ensures
            ex matches BackendExchange::ConnectFailed ==> a == Action::Stop(
                SessionEnd::BackendConnectFailed,
            ),
            ex matches BackendExchange::WriteFailed ==> a == Action::Stop(
                SessionEnd::BackendWriteFailed,
            ),
            ex matches BackendExchange::ReadFailed ==> a == Action::Stop(
                SessionEnd::BackendReadFailed,
            ),
            ex matches BackendExchange::Reply(rep) ==> (a matches Action::ReplyToClient(w) && w@
                == chunk(rep@, self@.1)),
    {
        match ex {
            BackendExchange::ConnectFailed => Action::Stop(SessionEnd::BackendConnectFailed),
            BackendExchange::WriteFailed => Action::Stop(SessionEnd::BackendWriteFailed),
            BackendExchange::ReadFailed => Action::Stop(SessionEnd::BackendReadFailed),
            BackendExchange::Reply(rep) => Action::ReplyToClient(
                take_chunk(&rep, self.cap),
            ),
        }
    }

    /// The session's answer to the write of a reply back to the client:
    /// stop when it failed, otherwise go on with the next relay cycle.
    pub fn on_client_write(&self, ok: bool) -> (r: Option<SessionEnd>)
        ensures
            ok ==> r is None,
            !ok ==> r == Some(SessionEnd::ClientWriteFailed),
    {
        if ok {
            None
        } else {
            Some(SessionEnd::ClientWriteFailed)
        }
    }
}

} // verus!
