//! Server-Sent Events: change notifications pushed to connected browsers.
use vstd::prelude::*;
use vstd::string::StrSliceExecFns;
use vstd::utf8::{encode_utf8, encode_utf8_decode_utf8, decode_utf8};
use std::sync::mpsc::{Receiver, Sender};
use crate::text::{decimal, push_decimal, push_str};

verus! {

/// The receiving half of a standard channel.
#[verifier::external_type_specification]
#[verifier::external_body]
#[verifier::reject_recursive_types(T)]
pub struct ExReceiver<T>(Receiver<T>);

/// The sending half of a standard channel.
#[verifier::external_type_specification]
#[verifier::external_body]
#[verifier::reject_recursive_types(T)]
pub struct ExSender<T>(Sender<T>);

/// A notification sent to the browsers.
#[derive(Debug, Clone, Copy, PartialEq, Eq, Structural)]
pub enum SseMessage {
    FileChanged { timestamp: u64 },
    KeepAlive,
}

/// The SSE protocol text of a message.
pub open spec fn sse_text(m: SseMessage) -> Seq<char> {
    match m {
        SseMessage::FileChanged { timestamp } => "event: file-changed\ndata: {\"timestamp\": "@
            + decimal(timestamp as nat) + "}\n\n"@,
        SseMessage::KeepAlive => "event: ping\ndata: keep-alive\n\n"@,
    }
}

/// The bytes of the SSE protocol text of a message.
pub open spec fn sse_bytes(m: SseMessage) -> Seq<u8> {
    encode_utf8(sse_text(m))
}

impl SseMessage {
    /// Format message as SSE protocol text.
    pub fn format(&self) -> (s: String)
        ensures
            s@ == sse_text(*self),
    {
        match self {
            SseMessage::FileChanged { timestamp } => {
                let mut s = String::new();
                push_str(&mut s, "event: file-changed\ndata: {\"timestamp\": ");
                push_decimal(&mut s, *timestamp as u128);
                push_str(&mut s, "}\n\n");
                s
            },
            SseMessage::KeepAlive => "event: ping\ndata: keep-alive\n\n".to_owned(),
        }
    }

    /// The protocol text of the message as bytes (UTF-8).
    pub fn to_bytes(&self) -> (b: Vec<u8>)
        ensures
            b@ == sse_bytes(*self),
            b@.len() > 0,
    {
        let s = self.format();
        proof {
            reveal_strlit("}\n\n");
            reveal_strlit("event: ping\ndata: keep-alive\n\n");
            assert(sse_text(*self).len() > 0);
            encode_utf8_decode_utf8(sse_text(*self));
        }
        s.as_str().as_bytes_vec()
    }
}

/// Trusted: calls `Receiver::recv`, waiting for the next message; `None` once every
/// sender is gone. Which message arrives depends on other threads: nothing is stated.
#[verifier::external_body]
fn receive(receiver: &Receiver<SseMessage>) -> (m: Option<SseMessage>) {
    receiver.recv().ok()
}

/// A byte stream of SSE protocol text fed by a channel of messages.
#[derive(Debug)]
pub struct SseStream {
    receiver: Receiver<SseMessage>,
    buffer: Vec<u8>,
    position: usize,
}

impl SseStream {
    /// The bytes of the current message.
    pub closed spec fn spec_buffer(&self) -> Seq<u8> {
        self.buffer@
    }

    /// How many bytes of the current message were already read.
    pub closed spec fn spec_position(&self) -> nat {
        self.position as nat
    }

    /// The channel the stream reads its messages from.
    pub closed spec fn spec_receiver(&self) -> Receiver<SseMessage> {
        self.receiver
    }

    /// The read position never passes the end of the current message.
    pub closed spec fn wf(&self) -> bool {
        self.position <= self.buffer@.len()
    }

    /// A stream that has read nothing yet.
    pub fn new(receiver: Receiver<SseMessage>) -> (s: Self)
        ensures
            s.spec_receiver() == receiver,
            s.spec_buffer() == Seq::<u8>::empty(),
            s.spec_position() == 0,
            s.wf(),
    {
        SseStream { receiver, buffer: Vec::new(), position: 0 }
    }

    /// Makes a received message the current one, to be read from its start; with
    /// nothing received the stream stays as it is.
    pub fn load_message(&mut self, received: Option<SseMessage>)
        requires
            old(self).wf(),
        ensures
            final(self).wf(),
            final(self).spec_receiver() == old(self).spec_receiver(),
            received matches Some(m) ==> final(self).spec_buffer() == sse_bytes(m) && final(self).spec_position() == 0,
            received is None ==> final(self).spec_buffer() == old(self).spec_buffer()
                && final(self).spec_position() == old(self).spec_position(),
    {
        match received {
            Some(message) => {
                self.buffer = message.to_bytes();
                self.position = 0;
            },
            None => {},
        }
    }

    /// Copies the next unread bytes of the current message into `buf`; when the current
    /// message is used up, waits for the next one first. Returns the number of bytes
    /// copied, 0 once the channel is closed.
    pub fn read(&mut self, buf: &mut [u8]) -> (n: usize)
        requires
            old(self).wf(),
        ensures
            final(self).wf(),
            final(self).spec_receiver() == old(self).spec_receiver(),
            n <= final(buf)@.len() == old(buf)@.len(),
            // Unread bytes remained: they are served first.
            old(self).spec_position() < old(self).spec_buffer().len() ==> {
                &&& final(self).spec_buffer() == old(self).spec_buffer()
                &&& n == min_nat((old(self).spec_buffer().len() - old(self).spec_position()) as nat,
                    old(buf)@.len())
            },
            // The current message was used up: either the channel closed (nothing read)
            // or the next message became the current one.
            old(self).spec_position() >= old(self).spec_buffer().len() ==> {
                ||| n == 0 && final(buf)@ == old(buf)@ && final(self).spec_buffer() == old(self).spec_buffer()
                    && final(self).spec_position() == old(self).spec_position()
                ||| (exists|m: SseMessage| final(self).spec_buffer() == #[trigger] sse_bytes(m))
                    && n == min_nat(final(self).spec_buffer().len(), old(buf)@.len())
            },
            // What was copied, and where reading continues.
            n > 0 ==> {
                let start = final(self).spec_position() - n;
                &&& 0 <= start
                &&& final(buf)@.take(n as int) == final(self).spec_buffer().subrange(start, start + n)
                &&& final(buf)@.skip(n as int) == old(buf)@.skip(n as int)
            },
    {
        if self.position >= self.buffer.len() {
            let received = receive(&self.receiver);
            let closed = received.is_none();
            self.load_message(received);
            if closed {
                return 0;
            }
        }
        let remaining = self.buffer.len() - self.position;
        let to_copy = if remaining < buf.len() { remaining } else { buf.len() };
        let ghost old_buf = buf@;
        let mut i: usize = 0;
        while i < to_copy
            invariant
                i <= to_copy,
                to_copy <= buf@.len(),
                buf@.len() == old_buf.len(),
                self.position + to_copy <= self.buffer@.len(),
                self.buffer@.len() == self.buffer.len(),
                forall|j: int| 0 <= j < i ==> buf@[j] == self.buffer@[self.position + j],
                forall|j: int| i <= j < buf@.len() ==> buf@[j] == old_buf[j],
            decreases to_copy - i,
        {
            buf[i] = self.buffer[self.position + i];
            i = i + 1;
        }
        let ghost start = self.position;
        self.position = self.position + to_copy;
        assert(buf@.take(to_copy as int) =~= self.buffer@.subrange(start as int, start + to_copy));
        assert(buf@.skip(to_copy as int) =~= old_buf.skip(to_copy as int));
        to_copy
    }
}

/// The smaller of two natural numbers.
pub open spec fn min_nat(a: nat, b: nat) -> nat {
    if a < b {
        a
    } else {
        b
    }
}

/// Trusted: a fresh random identifier from `uuid::Uuid::new_v4`, as text. Random: nothing is stated.
#[verifier::external_body]
fn new_client_id() -> (id: String) {
    uuid::Uuid::new_v4().to_string()
}

/// Trusted: a new channel from `std::sync::mpsc::channel`.
#[verifier::external_body]
fn new_channel() -> (c: (Sender<SseMessage>, Receiver<SseMessage>)) {
    std::sync::mpsc::channel()
}

/// A connected browser: its identifier, the channel its stream reads from, and the
/// messages handed to that channel so far.
pub struct SseClient {
    id: String,
    sender: Sender<SseMessage>,
    sent: Ghost<Seq<SseMessage>>,
}

impl SseClient {
    /// The identifier of the client.
    pub closed spec fn spec_id(&self) -> Seq<char> {
        self.id@
    }

    /// The channel the client's messages go to.
    pub closed spec fn spec_sender(&self) -> Sender<SseMessage> {
        self.sender
    }

    /// The messages handed to the client's channel, in order.
    pub closed spec fn spec_sent(&self) -> Seq<SseMessage> {
        self.sent@
    }
}

/// `after` is the client `before` once `m` was handed to its channel.
pub open spec fn handed(before: SseClient, after: SseClient, m: SseMessage) -> bool {
    &&& after.spec_id() == before.spec_id()
    &&& after.spec_sender() == before.spec_sender()
    &&& after.spec_sent() == before.spec_sent().push(m)
}

/// Trusted: calls `Sender::send` on the client's channel; answers whether the message
/// was handed over, which is recorded in the client's log (`false` once the receiving
/// side is gone, which depends on other threads).
#[verifier::external_body]
fn deliver(client: &mut SseClient, message: SseMessage) -> (delivered: bool)
    ensures
        delivered ==> handed(*old(client), *final(client), message),
        !delivered ==> *final(client) == *old(client),
{
    match client.sender.send(message) {
        Ok(()) => {
            client.sent = Ghost(client.sent@.push(message));
            true
        },
        Err(_) => false,
    }
}

/// The identifiers of `clients`, in order.
pub open spec fn client_ids(clients: Seq<SseClient>) -> Seq<Seq<char>> {
    clients.map_values(|c: SseClient| c.spec_id())
}

/// The clients whose entry in `keep` is `true`, in their order.
pub open spec fn kept_clients(clients: Seq<SseClient>, keep: Seq<bool>) -> Seq<SseClient>
    decreases clients.len(),
{
    if clients.len() == 0 {
        Seq::empty()
    } else {
        let rest = kept_clients(clients.drop_last(), keep);
        if keep[clients.len() - 1] {
            rest.push(clients.last())
        } else {
            rest
        }
    }
}

/// `after` is `before` with one new client at the end, to which nothing was handed yet.
pub open spec fn registered(before: Seq<SseClient>, after: Seq<SseClient>) -> bool {
    &&& after.len() == before.len() + 1
    &&& after.drop_last() == before
    &&& after.last().spec_sent() == Seq::<SseMessage>::empty()
}

/// Law: a new registry followed by `k` registrations (the clients after each step in
/// `states`) has `k` clients.
pub proof fn lemma_registrations_count(states: Seq<Seq<SseClient>>)
    requires
        states.len() > 0,
        states[0].len() == 0,
        forall|i: int| 0 <= i < states.len() - 1 ==> #[trigger] registered(states[i], states[i + 1]),
    ensures
        states.last().len() == states.len() - 1,
    decreases states.len(),
{
    if states.len() > 1 {
        let p = states.drop_last();
        assert forall|i: int| 0 <= i < p.len() - 1 implies #[trigger] registered(p[i], p[i + 1]) by {
            assert(p[i] == states[i] && p[i + 1] == states[i + 1]);
            assert(registered(states[i], states[i + 1]));
        }
        lemma_registrations_count(p);
        assert(registered(states[states.len() - 2], states[states.len() - 1]));
    }
}

/// The registry of connected SSE clients.
pub struct SseRegistry {
    clients: Vec<SseClient>,
}

impl SseRegistry {
    /// The connected clients, in order of registration.
    pub closed spec fn spec_clients(&self) -> Seq<SseClient> {
        self.clients@
    }

    /// An empty registry.
    pub fn new() -> (r: Self)
        ensures
            r.spec_clients() == Seq::<SseClient>::empty(),
    {
        SseRegistry { clients: Vec::new() }
    }

    /// Registers a new client; returns its identifier and the receiver its stream reads.
    pub fn register(&mut self) -> (r: (String, Receiver<SseMessage>))
        ensures
            final(self).spec_clients().len() == old(self).spec_clients().len() + 1,
            final(self).spec_clients().drop_last() == old(self).spec_clients(),
            final(self).spec_clients().last().spec_id() == r.0@,
            final(self).spec_clients().last().spec_sent() == Seq::<SseMessage>::empty(),
            registered(old(self).spec_clients(), final(self).spec_clients()),
    {
        let id = new_client_id();
        let (sender, receiver) = new_channel();
        self.clients.push(SseClient { id: id.clone(), sender, sent: Ghost(Seq::empty()) });
        assert(self.clients@.drop_last() =~= old(self).clients@);
        (id, receiver)
    }

    /// Unregisters every client with the given identifier.
    pub fn unregister(&mut self, id: &str)
        ensures
            final(self).spec_clients() == old(self).spec_clients().filter(|c: SseClient| c.spec_id() != id@),
    {
        let key = id.to_owned();
        let mut old_clients: Vec<SseClient> = Vec::new();
        std::mem::swap(&mut old_clients, &mut self.clients);
        let ghost orig = old_clients@;
        let mut kept: Vec<SseClient> = Vec::new();
        let mut rest = old_clients;
        while rest.len() > 0
            invariant
                key@ == id@,
                rest@ == orig.skip(orig.len() - rest@.len()),
                kept@ == orig.take(orig.len() - rest@.len()).filter(|c: SseClient| c.spec_id() != id@),
                rest@.len() <= orig.len(),
            decreases rest.len(),
        {
            let ghost done = orig.len() - rest@.len();
            let c = rest.remove(0);
            assert(c == orig[done]);
            assert(orig.take(done + 1).drop_last() == orig.take(done));
            assert(orig.take(done + 1).last() == c);
            proof {
                reveal_with_fuel(Seq::<_>::filter, 1);
            }
            if c.id != key {
                kept.push(c);
            }
            assert(rest@ =~= orig.skip(orig.len() - rest@.len()));
        }
        assert(orig.take(orig.len() as int) == orig);
        self.clients = kept;
    }

    /// Keeps the clients whose entry in `keep` is `true` and drops the others.
    pub fn retain_delivered(&mut self, keep: &[bool])
        requires
            keep@.len() == old(self).spec_clients().len(),
        ensures
            final(self).spec_clients() == kept_clients(old(self).spec_clients(), keep@),
    {
        let mut old_clients: Vec<SseClient> = Vec::new();
        std::mem::swap(&mut old_clients, &mut self.clients);
        let ghost orig = old_clients@;
        let mut kept: Vec<SseClient> = Vec::new();
        let mut rest = old_clients;
        while rest.len() > 0
            invariant
                keep@.len() == orig.len(),
                rest@ == orig.skip(orig.len() - rest@.len()),
                kept@ == kept_clients(orig.take(orig.len() - rest@.len()), keep@),
                rest@.len() <= orig.len(),
            decreases rest.len(),
        {
            let ghost done = orig.len() - rest@.len();
            let c = rest.remove(0);
            assert(c == orig[done]);
            assert(orig.take(done + 1).drop_last() == orig.take(done));
            assert(orig.take(done + 1).last() == c);
            let i = keep.len() - rest.len() - 1;
            if keep[i] {
                kept.push(c);
            }
            assert(rest@ =~= orig.skip(orig.len() - rest@.len()));
        }
        assert(orig.take(orig.len() as int) == orig);
        self.clients = kept;
    }

    /// Sends a message to every client and drops the clients that are gone: each
    /// client kept had the message handed to its channel.
    pub fn broadcast(&mut self, message: SseMessage)
        ensures
            exists|keep: Seq<bool>, sent: Seq<SseClient>| #![trigger kept_clients(sent, keep)]
                keep.len() == old(self).spec_clients().len() && sent.len() == old(self).spec_clients().len()
                && (forall|i: int| 0 <= i < keep.len() && keep[i] ==> handed(old(self).spec_clients()[i], #[trigger] sent[i], message))
                && final(self).spec_clients() == kept_clients(sent, keep),
    {
        let mut rest: Vec<SseClient> = Vec::new();
        std::mem::swap(&mut rest, &mut self.clients);
        let ghost orig = rest@;
        let mut sent: Vec<SseClient> = Vec::new();
        let mut delivered: Vec<bool> = Vec::new();
        while rest.len() > 0
            invariant
                rest@ == orig.skip(orig.len() - rest@.len()),
                rest@.len() <= orig.len(),
                sent@.len() == orig.len() - rest@.len(),
                delivered@.len() == sent@.len(),
                self.clients@ == Seq::<SseClient>::empty(),
                forall|i: int| 0 <= i < sent@.len() && delivered@[i] ==> handed(orig[i], #[trigger] sent@[i], message),
            decreases rest.len(),
        {
            let ghost done = orig.len() - rest@.len();
            let mut c = rest.remove(0);
            assert(c == orig[done]);
            let ok = deliver(&mut c, message);
            sent.push(c);
            delivered.push(ok);
            assert(rest@ =~= orig.skip(orig.len() - rest@.len()));
        }
        let ghost sv = sent@;
        let ghost dv = delivered@;
        self.clients = sent;
        self.retain_delivered(delivered.as_slice());
        assert(self.spec_clients() == kept_clients(sv, dv));
    }

    /// The current number of connected clients.
    pub fn client_count(&self) -> (n: usize)
        ensures
            n == self.spec_clients().len(),
    {
        self.clients.len()
    }
}

} // verus!
