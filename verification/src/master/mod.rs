//! Master starts and manages individual servers: the registry of its
//! connections and what one connection does with what reaches it.

pub mod cmd;

use crate::connection::{chunks_view, hand_over, Registry, Routing, SocketRead};
use crate::tunnel::Message;
use crate::unique_id::ID;
use std::sync::mpsc::Sender;
use vstd::prelude::*;

verus! {

/// What a connection of the master tells the registry.
#[derive(Debug)]
pub enum Mgr {
    /// A connection started: what the tunnel brings for its id goes to the
    /// sender.
    Create(ID, Sender<Message>),
    /// The connection with the given id is gone.
    Closed(ID),
}

/// The registry after one event.
pub open spec fn apply_mgr(clients: Map<u64, Sender<Message>>, mgr: Mgr) -> Map<
    u64,
    Sender<Message>,
> {
    match mgr {
        Mgr::Create(id, sender) => clients.insert(id as u64, sender),
        Mgr::Closed(id) => clients.remove(id as u64),
    }
}

impl Registry<Message> {
    /// Applies one event: a new connection is registered, a closed one is
    /// forgotten.
    pub fn manage(&mut self, mgr: Mgr)
        ensures
            final(self)@ == apply_mgr(old(self)@, mgr),
    {
        match mgr {
            Mgr::Create(id, sender) => {
                self.insert(id as u64, sender);
            },
            Mgr::Closed(id) => {
                self.remove(id as u64);
            },
        }
    }

    /// The channel that a message of the tunnel is handed to: the one
    /// registered for the connection that the message names, or none.
    pub fn addressee(&self, msg: &Message) -> (found: Option<&Sender<Message>>)
        ensures
            found is Some <==> self@.contains_key(msg.connection() as u64),
            found matches Some(sender) ==> *sender == self@[msg.connection() as u64],
    {
        self.recipient(msg.get_id() as u64)
    }

    /// Hands a message of the tunnel, as it is, to the channel that
    /// [`Registry::addressee`] gives for it. A message for a connection that
    /// is not registered is dropped.
    pub fn dispatch(&self, msg: Message) -> (r: Routing)
        ensures
            r == Routing::Unknown <==> !self@.contains_key(msg.connection() as u64),
    {
        let found = self.addressee(&msg);
        hand_over(found, msg)
    }
}

/// Whether the message tells the connection `my` to stop.
pub open spec fn is_own_disconnect(my: ID, msg: Message) -> bool {
    msg matches Message::Disconnect(id) && id == my
}

/// The position of the first message of `batch` that tells the connection
/// `my` to stop; the length of `batch` if there is none.
pub open spec fn first_disconnect(my: ID, batch: Seq<Message>) -> nat
    decreases batch.len(),
{
    if batch.len() == 0 || is_own_disconnect(my, batch[0]) {
        0
    } else {
        1 + first_disconnect(my, batch.drop_first())
    }
}

/// The chunks of bytes that `batch` holds for the connection `my`, in order.
pub open spec fn own_chunks(my: ID, batch: Seq<Message>) -> Seq<Seq<u8>>
    decreases batch.len(),
{
    if batch.len() == 0 {
        Seq::empty()
    } else {
        let before = own_chunks(my, batch.drop_last());
        match batch.last() {
            Message::Data(id, data) => if id == my {
                before.push(data@)
            } else {
                before
            },
            _ => before,
        }
    }
}

/// The first message that tells the connection to stop is the one before
/// which none does.
pub proof fn lemma_first_disconnect(my: ID, batch: Seq<Message>, at: int)
    requires
        0 <= at <= batch.len(),
        forall|j: int| 0 <= j < at ==> !is_own_disconnect(my, #[trigger] batch[j]),
        at < batch.len() ==> is_own_disconnect(my, batch[at]),
    ensures
        first_disconnect(my, batch) == at,
    decreases batch.len(),
{
    if at > 0 {
        let rest = batch.drop_first();
        assert(!is_own_disconnect(my, batch[0]));
        assert forall|j: int| 0 <= j < at - 1 implies !is_own_disconnect(
            my,
            #[trigger] rest[j],
        ) by {
            assert(rest[j] == batch[j + 1]);
        }
        if at - 1 < rest.len() {
            assert(rest[at - 1] == batch[at]);
        }
        lemma_first_disconnect(my, rest, at - 1);
    }
}

/// What one connection of the master does with what the tunnel brought.
pub struct Relay {
    /// The chunks to write to the socket, in order.
    pub chunks: Vec<Vec<u8>>,
    /// Whether the connection is to stop.
    pub stop: bool,
}

/// Takes what was drained from the channel of the connection `my`, in order.
/// Data for the connection is to be written to its socket; a disconnect for
/// it stops the connection at once, and what follows it is not looked at;
/// whatever names another connection is passed over.
pub fn relay(my: ID, batch: Vec<Message>) -> (relayed: Relay)
    ensures
        relayed.stop == (first_disconnect(my, batch@) < batch@.len()),
        chunks_view(relayed.chunks@) == own_chunks(
            my,
            batch@.take(first_disconnect(my, batch@) as int),
        ),
{
    let ghost all = batch@;
    let mut chunks: Vec<Vec<u8>> = Vec::new();
    proof {
        assert(all.take(0) =~= Seq::<Message>::empty());
        assert(chunks_view(chunks@) =~= Seq::<Seq<u8>>::empty());
    }
    for msg in it: batch.into_iter()
        invariant
            it.seq() == all,
            all == batch@,
            forall|j: int| 0 <= j < it.index() ==> !is_own_disconnect(my, #[trigger] all[j]),
            chunks_view(chunks@) == own_chunks(my, all.take(it.index() as int)),
    {
        let ghost i = it.index() as int;
        proof {
            assert(all.take(i + 1).drop_last() =~= all.take(i));
            assert(all.take(i + 1).last() == msg);
        }
        match msg {
            Message::Disconnect(id) => {
                if id == my {
                    proof {
                        lemma_first_disconnect(my, all, i);
                    }
                    return Relay { chunks, stop: true };
                }
            },
            Message::Data(id, data) => {
                if id == my {
                    let ghost old_chunks = chunks@;
                    let ghost bytes = data@;
                    chunks.push(data);
                    proof {
                        assert(chunks_view(chunks@) =~= chunks_view(old_chunks).push(bytes));
                    }
                }
            },
            _ => {},
        }
    }
    proof {
        lemma_first_disconnect(my, all, all.len() as int);
        assert(all.take(all.len() as int) =~= all);
    }
    Relay { chunks, stop: false }
}

/// A message that reached a connection and names another one.
#[derive(Debug, Clone, Copy, PartialEq, Eq, Structural)]
pub enum Stray {
    /// Data for the connection with the given id.
    Data(ID),
    /// A disconnect for the connection with the given id.
    Disconnect(ID),
}

/// What the message is to the connection `my`, if it is data or a disconnect
/// for another connection.
pub open spec fn stray_of(my: ID, msg: Message) -> Option<Stray> {
    match msg {
        Message::Data(id, _) => if id != my {
            Some(Stray::Data(id))
        } else {
            None
        },
        Message::Disconnect(id) => if id != my {
            Some(Stray::Disconnect(id))
        } else {
            None
        },
        _ => None,
    }
}

/// The data and the disconnects of `batch` that name another connection than
/// `my`, in order.
pub open spec fn strays(my: ID, batch: Seq<Message>) -> Seq<Stray>
    decreases batch.len(),
{
    if batch.len() == 0 {
        Seq::empty()
    } else {
        let before = strays(my, batch.drop_last());
        match stray_of(my, batch.last()) {
            Some(stray) => before.push(stray),
            None => before,
        }
    }
}

/// Lists what [`relay`] passes over when it takes `batch` for the connection
/// `my`: the data and the disconnects for other connections that stand
/// before the first disconnect for `my`, in order. They are to be recorded
/// as errors.
pub fn passed_over(my: ID, batch: &Vec<Message>) -> (found: Vec<Stray>)
    ensures
        found@ == strays(my, batch@.take(first_disconnect(my, batch@) as int)),
{
    let ghost all = batch@;
    let mut found: Vec<Stray> = Vec::new();
    let mut at: usize = 0;
    proof {
        assert(all.take(0) =~= Seq::<Message>::empty());
    }
    while at < batch.len()
        invariant
            at <= batch.len(),
            all == batch@,
            forall|j: int| 0 <= j < at ==> !is_own_disconnect(my, #[trigger] all[j]),
            found@ == strays(my, all.take(at as int)),
        decreases batch.len() - at,
    {
        proof {
            assert(all.take(at + 1).drop_last() =~= all.take(at as int));
            assert(all.take(at + 1).last() == all[at as int]);
        }
        match &batch[at] {
            Message::Disconnect(id) => {
                if *id == my {
                    proof {
                        lemma_first_disconnect(my, all, at as int);
                    }
                    return found;
                }
                found.push(Stray::Disconnect(*id));
            },
            Message::Data(id, _) => {
                if *id != my {
                    found.push(Stray::Data(*id));
                }
            },
            _ => {},
        }
        at = at + 1;
    }
    proof {
        lemma_first_disconnect(my, all, all.len() as int);
        assert(all.take(all.len() as int) =~= all);
    }
    found
}

/// What a connection of the master announces when it ends: the disconnect
/// for the peer and the event for the registry.
pub fn farewell(my: ID) -> (parting: (Message, Mgr))
    ensures
        parting == (Message::Disconnect(my), Mgr::Closed(my)),
{
    (Message::Disconnect(my), Mgr::Closed(my))
}

/// What a connection of the master does after an attempt to read from its
/// socket.
#[derive(Debug, PartialEq, Eq)]
pub enum AfterRead {
    /// Hand the message to the tunnel and go on; stop if it cannot be handed
    /// over.
    Forward(Message),
    /// Go on.
    Continue,
    /// Stop.
    Stop,
}

/// Decides what the connection `my` does after an attempt to read from its
/// socket: bytes are forwarded as data of the connection, a timeout changes
/// nothing, a read of no bytes and a failure stop the connection.
pub fn after_read(my: ID, read: SocketRead) -> (next: AfterRead)
    ensures
        next == (match read {
            SocketRead::Read(bytes) => if bytes@.len() > 0 {
                AfterRead::Forward(Message::Data(my, bytes))
            } else {
                AfterRead::Stop
            },
            SocketRead::WouldBlock => AfterRead::Continue,
            SocketRead::Failed => AfterRead::Stop,
        }),
{
    match read {
        SocketRead::Read(bytes) => {
            if bytes.len() == 0 {
                AfterRead::Stop
            } else {
                AfterRead::Forward(Message::Data(my, bytes))
            }
        },
        SocketRead::WouldBlock => AfterRead::Continue,
        SocketRead::Failed => AfterRead::Stop,
    }
}

} // verus!
