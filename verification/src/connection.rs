//! The connection manager: the registry that routes what the tunnel delivers
//! to the connection it is for, and the life cycle of one connection.

use crate::messages::PayloadView;
use crate::tunnel::{ReaderData, ReaderDataView, WriterData};
use std::collections::HashMap;
use std::sync::mpsc::Sender;
use vstd::prelude::*;

verus! {

/// The sending half of a channel of std. Its contents are not modelled: a
/// value of this type is only stored, looked up and handed to
/// [`send_to_client`].
#[verifier::external_type_specification]
#[verifier::external_body]
#[verifier::reject_recursive_types(T)]
pub struct ExSender<T>(Sender<T>);

/// `std::sync::mpsc::Sender::send`: hands `data` to the channel without
/// blocking and returns whether it was taken. It is not taken when the
/// receiving half is gone, which depends on another thread: nothing is
/// claimed of the result.
#[verifier::external_body]
fn send_to_client<T>(sender: &Sender<T>, data: T) -> (sent: bool) {
    sender.send(data).is_ok()
}

/// What a connection tells the registry.
#[derive(Debug)]
pub enum ClientState {
    /// A connection started: what is delivered for its id goes to the sender.
    NewClient(u64, Sender<ReaderData>),
    /// The connection with the given id is gone.
    Disconnected(u64),
}

/// What became of one delivery.
#[derive(Debug, Clone, Copy, PartialEq, Eq, Structural)]
pub enum Routing {
    /// The connection's channel took it.
    Delivered,
    /// The connection is registered, but its channel is closed.
    Closed,
    /// No connection with that id is registered: the delivery was dropped.
    Unknown,
}

/// The outcome of a delivery, from whether its connection is registered and
/// whether the connection's channel took it.
pub open spec fn routing_of(known: bool, sent: bool) -> Routing {
    if !known {
        Routing::Unknown
    } else if sent {
        Routing::Delivered
    } else {
        Routing::Closed
    }
}

/// The outcome of a delivery, from whether its connection is registered and
/// whether the connection's channel took it.
pub fn routing(known: bool, sent: bool) -> (r: Routing)
    ensures
        r == routing_of(known, sent),
{
    if !known {
        Routing::Unknown
    } else if sent {
        Routing::Delivered
    } else {
        Routing::Closed
    }
}

/// The registry after one event.
pub open spec fn apply_state(
    clients: Map<u64, Sender<ReaderData>>,
    state: ClientState,
) -> Map<u64, Sender<ReaderData>> {
    match state {
        ClientState::NewClient(id, sender) => clients.insert(id, sender),
        ClientState::Disconnected(id) => clients.remove(id),
    }
}

/// The registry after a sequence of events, applied in order.
pub open spec fn apply_states(
    clients: Map<u64, Sender<ReaderData>>,
    states: Seq<ClientState>,
) -> Map<u64, Sender<ReaderData>>
    decreases states.len(),
{
    if states.len() == 0 {
        clients
    } else {
        apply_state(apply_states(clients, states.drop_last()), states.last())
    }
}

/// Registry of the live connections: connection id to the channel on which
/// the connection takes its deliveries.
#[verifier::reject_recursive_types(T)]
pub struct Registry<T> {
    clients: HashMap<u64, Sender<T>>,
}

impl<T> Registry<T> {
    /// The registered connections.
    pub closed spec fn view(&self) -> Map<u64, Sender<T>> {
        self.clients@
    }

    /// An empty registry.
    pub fn new() -> (registry: Registry<T>)
        ensures
            registry@ == Map::<u64, Sender<T>>::empty(),
    {
        Registry { clients: HashMap::new() }
    }

    /// Registers a connection. An earlier registration of the same id is
    /// replaced.
    pub fn insert(&mut self, id: u64, sender: Sender<T>)
        ensures
            final(self)@ == old(self)@.insert(id, sender),
    {
        self.clients.insert(id, sender);
    }

    /// Forgets a connection. Other connections are not touched.
    pub fn remove(&mut self, id: u64)
        ensures
            final(self)@ == old(self)@.remove(id),
    {
        self.clients.remove(&id);
    }

    /// Whether a connection with this id is registered.
    pub fn contains(&self, id: u64) -> (known: bool)
        ensures
            known == self@.contains_key(id),
    {
        self.clients.contains_key(&id)
    }

    /// Number of registered connections.
    pub fn len(&self) -> (n: usize)
        ensures
            n == self@.len(),
    {
        self.clients.len()
    }

    /// The channel that a delivery for `id` is handed to: the one that the
    /// connection was registered with, or none where no connection with that
    /// id is registered.
    pub fn recipient(&self, id: u64) -> (found: Option<&Sender<T>>)
        ensures
            found is Some <==> self@.contains_key(id),
            found matches Some(sender) ==> *sender == self@[id],
    {
        self.clients.get(&id)
    }

    /// Pairs each delivery of `batch` with the channel it is handed to: the
    /// deliveries stay whole and in their order, each with the channel
    /// registered for its id and no other, or with none.
    pub fn address<'a>(&'a self, batch: Vec<(u64, T)>) -> (addressed: Vec<
        (Option<&'a Sender<T>>, T),
    >)
        ensures
            addressed@.len() == batch@.len(),
            forall|i: int|
                0 <= i < batch@.len() ==> (#[trigger] addressed@[i]).1 == batch@[i].1,
            forall|i: int|
                0 <= i < batch@.len() ==> ((#[trigger] addressed@[i]).0 is Some
                    <==> self@.contains_key(batch@[i].0)),
            forall|i: int|
                0 <= i < batch@.len() ==> ((#[trigger] addressed@[i]).0 matches Some(sender)
                    ==> *sender == self@[batch@[i].0]),
    {
        let ghost all = batch@;
        let mut addressed: Vec<(Option<&'a Sender<T>>, T)> = Vec::new();
        for delivery in it: batch.into_iter()
            invariant
                it.seq() == all,
                addressed@.len() == it.index(),
                forall|i: int| 0 <= i < addressed@.len() ==> (#[trigger] addressed@[i]).1 == all[i].1,
                forall|i: int|
                    0 <= i < addressed@.len() ==> ((#[trigger] addressed@[i]).0 is Some
                        <==> self@.contains_key(all[i].0)),
                forall|i: int|
                    0 <= i < addressed@.len() ==> ((#[trigger] addressed@[i]).0 matches Some(
                        sender,
                    ) ==> *sender == self@[all[i].0]),
        {
            let (id, data) = delivery;
            let found = self.recipient(id);
            addressed.push((found, data));
        }
        addressed
    }

    /// Hands one delivery to the connection it is for: to the channel that
    /// [`Registry::recipient`] gives for `id`. A delivery for an id that is
    /// not registered is dropped. The registry stays as it is.
    pub fn route(&self, id: u64, data: T) -> (r: Routing)
        ensures
            r == Routing::Unknown <==> !self@.contains_key(id),
    {
        hand_over(self.recipient(id), data)
    }

    /// Hands each delivery of `batch`, in order, to the channel that
    /// [`Registry::address`] pairs it with, and reports what became of each.
    pub fn route_all(&self, batch: Vec<(u64, T)>) -> (outcomes: Vec<Routing>)
        ensures
            outcomes@.len() == batch@.len(),
            forall|i: int|
                0 <= i < batch@.len() ==> (#[trigger] outcomes@[i] == Routing::Unknown
                    <==> !self@.contains_key(batch@[i].0)),
    {
        let ghost all = batch@;
        let addressed = self.address(batch);
        let ghost pairs = addressed@;
        let mut outcomes: Vec<Routing> = Vec::new();
        for pair in it: addressed.into_iter()
            invariant
                it.seq() == pairs,
                pairs.len() == all.len(),
                forall|i: int|
                    0 <= i < all.len() ==> ((#[trigger] pairs[i]).0 is Some
                        <==> self@.contains_key(all[i].0)),
                outcomes@.len() == it.index(),
                forall|i: int|
                    0 <= i < outcomes@.len() ==> (#[trigger] outcomes@[i] == Routing::Unknown
                        <==> !self@.contains_key(all[i].0)),
        {
            let (found, data) = pair;
            let r = hand_over(found, data);
            outcomes.push(r);
        }
        outcomes
    }
}

/// Hands `data` to the channel `recipient`, where there is one, and says
/// what became of it: without a recipient it is dropped as unknown; with
/// one, the outcome is as the channel took it or not.
pub fn hand_over<T>(recipient: Option<&Sender<T>>, data: T) -> (r: Routing)
    ensures
        r == Routing::Unknown <==> recipient is None,
{
    match recipient {
        Some(sender) => routing(true, send_to_client(sender, data)),
        None => routing(false, false),
    }
}

impl Registry<ReaderData> {
    /// Applies one event: a new connection is registered, a closed one is
    /// forgotten.
    pub fn apply(&mut self, state: ClientState)
        ensures
            final(self)@ == apply_state(old(self)@, state),
    {
        match state {
            ClientState::NewClient(id, sender) => {
                self.insert(id, sender);
            },
            ClientState::Disconnected(id) => {
                self.remove(id);
            },
        }
    }

    /// Applies a sequence of events in order.
    pub fn apply_all(&mut self, states: Vec<ClientState>)
        ensures
            final(self)@ == apply_states(old(self)@, states@),
    {
        let ghost all = states@;
        let ghost start = self@;
        proof {
            assert(all.take(0) =~= Seq::<ClientState>::empty());
        }
        for state in it: states.into_iter()
            invariant
                it.seq() == all,
                self@ == apply_states(start, all.take(it.index() as int)),
        {
            proof {
                let i = it.index() as int;
                assert(all.take(i + 1).drop_last() =~= all.take(i));
                assert(all.take(i + 1).last() == state);
            }
            self.apply(state);
        }
        proof {
            assert(all.take(all.len() as int) =~= all);
        }
    }

    /// One iteration of the registry's loop: first the events are applied, in
    /// order, then each delivery is handed to the connection it is for.
    pub fn manage(&mut self, states: Vec<ClientState>, batch: Vec<(u64, ReaderData)>) -> (outcomes:
        Vec<Routing>)
        ensures
            final(self)@ == apply_states(old(self)@, states@),
            outcomes@.len() == batch@.len(),
            forall|i: int|
                0 <= i < batch@.len() ==> (#[trigger] outcomes@[i] == Routing::Unknown
                    <==> !final(self)@.contains_key(batch@[i].0)),
    {
        self.apply_all(states);
        self.route_all(batch)
    }
}

/// What an attempt to read from the local socket gave.
#[derive(Debug, Clone, PartialEq, Eq)]
pub enum SocketRead {
    /// The read returned these bytes; none means that the peer of the socket
    /// closed it.
    Read(Vec<u8>),
    /// Nothing arrived within the read timeout.
    WouldBlock,
    /// The read failed otherwise.
    Failed,
}

/// Where a connection stands.
#[derive(Debug, Clone, Copy, PartialEq, Eq, Structural)]
pub enum Phase {
    /// Bytes are relayed in both directions.
    Running,
    /// One side has closed; the closing has not been announced yet.
    Stopping,
    /// The closing has been announced.
    Closed,
}

/// The chunks of bytes among `batch`, in order.
pub open spec fn data_chunks(batch: Seq<ReaderDataView>) -> Seq<Seq<u8>>
    decreases batch.len(),
{
    if batch.len() == 0 {
        Seq::empty()
    } else {
        let before = data_chunks(batch.drop_last());
        match batch.last() {
            ReaderDataView::Data(data) => before.push(data),
            ReaderDataView::Disconnect => before,
        }
    }
}

/// Whether `batch` holds a disconnect.
pub open spec fn has_disconnect(batch: Seq<ReaderDataView>) -> bool {
    exists|i: int| 0 <= i < batch.len() && #[trigger] batch[i] == ReaderDataView::Disconnect
}

/// The views of a sequence of deliveries to one connection.
pub open spec fn reader_view(batch: Seq<ReaderData>) -> Seq<ReaderDataView> {
    batch.map_values(|d: ReaderData| d@)
}

/// The views of a sequence of chunks.
pub open spec fn chunks_view(chunks: Seq<Vec<u8>>) -> Seq<Seq<u8>> {
    chunks.map_values(|c: Vec<u8>| c@)
}

/// Mathematical state of a [`Connection`].
pub struct ConnectionView {
    pub id: u64,
    pub phase: Phase,
}

/// Mathematical value of a [`SocketRead`].
pub enum SocketReadView {
    Read(Seq<u8>),
    WouldBlock,
    Failed,
}

impl View for SocketRead {
    type V = SocketReadView;

    open spec fn view(&self) -> SocketReadView {
        match *self {
            SocketRead::Read(bytes) => SocketReadView::Read(bytes@),
            SocketRead::WouldBlock => SocketReadView::WouldBlock,
            SocketRead::Failed => SocketReadView::Failed,
        }
    }
}

/// Whether an attempt to read ends the relay loop: a read of no bytes and a
/// failure do.
pub open spec fn ends_relay(read: SocketReadView) -> bool {
    match read {
        SocketReadView::Read(bytes) => bytes.len() == 0,
        SocketReadView::WouldBlock => false,
        SocketReadView::Failed => true,
    }
}

impl ConnectionView {
    /// What the connection forwards to the tunnel after an attempt to read
    /// from the socket: the bytes read, as data of this connection, if it is
    /// running and there are any.
    pub open spec fn forwards(self, read: SocketReadView) -> Option<PayloadView> {
        match read {
            SocketReadView::Read(bytes) => if self.phase == Phase::Running && bytes.len() > 0 {
                Some(PayloadView::Data(self.id, bytes))
            } else {
                None
            },
            _ => None,
        }
    }

    /// The connection after an attempt to read from the socket.
    pub open spec fn after_read(self, read: SocketReadView) -> ConnectionView {
        if self.phase == Phase::Running && ends_relay(read) {
            ConnectionView { phase: Phase::Stopping, ..self }
        } else {
            self
        }
    }
}

/// The view of what is forwarded to the tunnel, if anything.
pub open spec fn forward_view(forward: Option<WriterData>) -> Option<PayloadView> {
    match forward {
        Some(data) => Some(data@),
        None => None,
    }
}

/// The life cycle of one connection between a local socket and the tunnel.
/// The caller owns the socket and the channels; it hands in what it drained
/// and read, and performs what it is told.
pub struct Connection {
    id: u64,
    phase: Phase,
}

impl View for Connection {
    type V = ConnectionView;

    closed spec fn view(&self) -> ConnectionView {
        ConnectionView { id: self.id, phase: self.phase }
    }
}

impl Connection {
    /// A running connection with the given id.
    pub fn new(id: u64) -> (connection: Connection)
        ensures
            connection@ == (ConnectionView { id, phase: Phase::Running }),
    {
        Connection { id, phase: Phase::Running }
    }

    /// The id of the connection.
    pub fn id(&self) -> (id: u64)
        ensures
            id == self@.id,
    {
        self.id
    }

    /// Where the connection stands.
    pub fn phase(&self) -> (phase: Phase)
        ensures
            phase == self@.phase,
    {
        self.phase
    }

    /// Whether the relay loop goes on.
    pub fn is_running(&self) -> (running: bool)
        ensures
            running == (self@.phase == Phase::Running),
    {
        match self.phase {
            Phase::Running => true,
            _ => false,
        }
    }

    /// What the connection tells the registry when it starts.
    pub fn announce(&self, sender: Sender<ReaderData>) -> (state: ClientState)
        ensures
            state == ClientState::NewClient(self@.id, sender),
    {
        ClientState::NewClient(self.id, sender)
    }

    /// Takes what was drained from the connection's delivery channel and
    /// returns the chunks that are to be written to the socket, in order. A
    /// disconnect anywhere in the batch stops the relay loop, after the whole
    /// batch was taken. A connection that is not running takes nothing.
    pub fn receive(&mut self, batch: Vec<ReaderData>) -> (chunks: Vec<Vec<u8>>)
        ensures
            final(self)@.id == old(self)@.id,
            old(self)@.phase == Phase::Running ==> chunks_view(chunks@) == data_chunks(
                reader_view(batch@),
            ),
            old(self)@.phase == Phase::Running ==> final(self)@.phase == (if has_disconnect(
                reader_view(batch@),
            ) {
                Phase::Stopping
            } else {
                Phase::Running
            }),
            old(self)@.phase != Phase::Running ==> chunks@.len() == 0 && final(self)@ == old(
                self,
            )@,
    {
        let mut chunks: Vec<Vec<u8>> = Vec::new();
        if !self.is_running() {
            return chunks;
        }
        let ghost all = batch@;
        let ghost views = reader_view(all);
        let mut disconnect = false;
        proof {
            assert(views.take(0) =~= Seq::<ReaderDataView>::empty());
            assert(chunks_view(chunks@) =~= Seq::<Seq<u8>>::empty());
        }
        for data in it: batch.into_iter()
            invariant
                it.seq() == all,
                views == reader_view(all),
                chunks_view(chunks@) == data_chunks(views.take(it.index() as int)),
                disconnect == has_disconnect(views.take(it.index() as int)),
        {
            let ghost i = it.index() as int;
            proof {
                assert(views.take(i + 1).drop_last() =~= views.take(i));
                assert(views.take(i + 1).last() == data@);
                assert(views.take(i + 1)[i] == data@);
                if has_disconnect(views.take(i)) {
                    let j = choose|j: int|
                        0 <= j < views.take(i).len() && #[trigger] views.take(i)[j]
                            == ReaderDataView::Disconnect;
                    assert(views.take(i + 1)[j] == ReaderDataView::Disconnect);
                }
                if has_disconnect(views.take(i + 1)) && !(data@ == ReaderDataView::Disconnect) {
                    let j = choose|j: int|
                        0 <= j < views.take(i + 1).len() && #[trigger] views.take(i + 1)[j]
                            == ReaderDataView::Disconnect;
                    assert(views.take(i)[j] == ReaderDataView::Disconnect);
                }
            }
            match data {
                ReaderData::Disconnect => {
                    disconnect = true;
                },
                ReaderData::Data(bytes) => {
                    let ghost old_chunks = chunks@;
                    let ghost b = bytes@;
                    chunks.push(bytes);
                    proof {
                        assert(chunks_view(chunks@) =~= chunks_view(old_chunks).push(b));
                    }
                },
            }
        }
        proof {
            assert(views.take(views.len() as int) =~= views);
        }
        if disconnect {
            self.phase = Phase::Stopping;
        }
        chunks
    }

    /// Takes what an attempt to read from the socket gave. Bytes are to be
    /// forwarded to the tunnel as data of this connection. A read of no bytes
    /// and a failure stop the relay loop; a timeout changes nothing. A
    /// connection that is not running forwards nothing.
    pub fn socket_read(&mut self, read: SocketRead) -> (forward: Option<WriterData>)
        ensures
            final(self)@ == old(self)@.after_read(read@),
            forward_view(forward) == old(self)@.forwards(read@),
            forward matches Some(data) ==> read matches SocketRead::Read(bytes) && data
                == WriterData::Data(old(self)@.id, bytes),
    {
        if !self.is_running() {
            return None;
        }
        match read {
            SocketRead::Read(bytes) => {
                if bytes.len() == 0 {
                    self.phase = Phase::Stopping;
                    None
                } else {
                    Some(WriterData::Data(self.id, bytes))
                }
            },
            SocketRead::WouldBlock => None,
            SocketRead::Failed => {
                self.phase = Phase::Stopping;
                None
            },
        }
    }

    /// Closes the connection. The first call returns what is to be announced:
    /// the disconnect for the peer and the event for the registry. Every later
    /// call returns nothing, so the closing is announced once.
    pub fn finish(&mut self) -> (farewell: Option<(WriterData, ClientState)>)
        ensures
            final(self)@ == (ConnectionView { id: old(self)@.id, phase: Phase::Closed }),
            old(self)@.phase == Phase::Closed ==> farewell is None,
            old(self)@.phase != Phase::Closed ==> farewell == Some(
                (WriterData::Disconnect(old(self)@.id), ClientState::Disconnected(old(self)@.id)),
            ),
    {
        match self.phase {
            Phase::Closed => None,
            _ => {
                self.phase = Phase::Closed;
                Some((WriterData::Disconnect(self.id), ClientState::Disconnected(self.id)))
            },
        }
    }
}

} // verus!
