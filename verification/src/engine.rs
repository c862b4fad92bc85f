//! The tunnel engine: sequencing, deduplication and acknowledgment of the
//! messages that cross the two mailboxes.
//!
//! The engine owns no channel and does no I/O. Each iteration of the poll
//! loop hands it what the inbound mailbox held and what the local connections
//! submitted, and gets back what is to be delivered locally and what is to be
//! done with the outbound mailbox.

use crate::messages::{
    consecutive, lemma_consecutive_increasing, lemma_newer_than_is_suffix, log_view, newer_than,
    acknowledged_prefix, Message, MessageView, Payload, PayloadView,
};
use crate::tunnel::{
    connections_view, deliveries_view, inbound_messages, writer_view, NewConnection, Publish,
    ReadCommand, ReaderData, ReaderDataView, WriterData,
};
use vstd::prelude::*;

verus! {

/// Connection id that every acknowledgment carries: acknowledgment is global,
/// not per connection.
pub const SYNC_CONNECTION: u64 = 1;

/// The highest id applied once `msgs` have been read in order, when `reader_sync`
/// was the highest before.
pub open spec fn reader_sync_after(reader_sync: nat, msgs: Seq<MessageView>) -> nat
    decreases msgs.len(),
{
    if msgs.len() == 0 {
        reader_sync
    } else {
        let before = reader_sync_after(reader_sync, msgs.drop_last());
        if msgs.last().id > before {
            msgs.last().id
        } else {
            before
        }
    }
}

/// The messages of `msgs` that are applied, in order: each one whose id is
/// greater than `reader_sync` and than every id before it in `msgs`.
pub open spec fn accepted(reader_sync: nat, msgs: Seq<MessageView>) -> Seq<MessageView>
    decreases msgs.len(),
{
    if msgs.len() == 0 {
        Seq::empty()
    } else {
        let before = accepted(reader_sync, msgs.drop_last());
        if msgs.last().id > reader_sync_after(reader_sync, msgs.drop_last()) {
            before.push(msgs.last())
        } else {
            before
        }
    }
}

/// What the applied messages `msgs` deliver to local connections, in order.
pub open spec fn deliveries_of(msgs: Seq<MessageView>) -> Seq<(u64, ReaderDataView)>
    decreases msgs.len(),
{
    if msgs.len() == 0 {
        Seq::empty()
    } else {
        let before = deliveries_of(msgs.drop_last());
        match msgs.last().payload {
            PayloadView::Data(connection, data) => before.push(
                (connection, ReaderDataView::Data(data)),
            ),
            PayloadView::Disconnect(connection) => before.push(
                (connection, ReaderDataView::Disconnect),
            ),
            _ => before,
        }
    }
}

/// The dial requests among the applied messages `msgs`, in order.
pub open spec fn connections_of(msgs: Seq<MessageView>) -> Seq<(u64, Seq<char>, u16)>
    decreases msgs.len(),
{
    if msgs.len() == 0 {
        Seq::empty()
    } else {
        let before = connections_of(msgs.drop_last());
        match msgs.last().payload {
            PayloadView::Connect(connection, address, port) => before.push(
                (connection, address, port),
            ),
            _ => before,
        }
    }
}

/// The peer's acknowledgment once the applied messages `msgs` are processed:
/// that of the last `Sync` among them, or `writer_sync` if there is none.
pub open spec fn writer_sync_after(writer_sync: nat, msgs: Seq<MessageView>) -> nat
    decreases msgs.len(),
{
    if msgs.len() == 0 {
        writer_sync
    } else {
        match msgs.last().payload {
            PayloadView::Sync(_, last) => last,
            _ => writer_sync_after(writer_sync, msgs.drop_last()),
        }
    }
}

/// Reading `a` and then `b` is reading `a + b`.
pub proof fn lemma_reader_sync_concat(reader_sync: nat, a: Seq<MessageView>, b: Seq<MessageView>)
    ensures
        reader_sync_after(reader_sync, a + b) == reader_sync_after(
            reader_sync_after(reader_sync, a),
            b,
        ),
        accepted(reader_sync, a + b) == accepted(reader_sync, a) + accepted(
            reader_sync_after(reader_sync, a),
            b,
        ),
    decreases b.len(),
{
    if b.len() == 0 {
        assert(a + b =~= a);
        assert(accepted(reader_sync, a) + Seq::<MessageView>::empty() =~= accepted(reader_sync, a));
    } else {
        lemma_reader_sync_concat(reader_sync, a, b.drop_last());
        assert((a + b).drop_last() =~= a + b.drop_last());
        assert((a + b).last() == b.last());
        let mid = reader_sync_after(reader_sync, a);
        if b.last().id > reader_sync_after(mid, b.drop_last()) {
            assert(accepted(reader_sync, a) + accepted(mid, b.drop_last()).push(b.last())
                =~= (accepted(reader_sync, a) + accepted(mid, b.drop_last())).push(b.last()));
        }
    }
}

/// What two runs of applied messages deliver is what their concatenation
/// delivers.
pub proof fn lemma_dispatch_concat(writer_sync: nat, a: Seq<MessageView>, b: Seq<MessageView>)
    ensures
        deliveries_of(a + b) == deliveries_of(a) + deliveries_of(b),
        connections_of(a + b) == connections_of(a) + connections_of(b),
        writer_sync_after(writer_sync, a + b) == writer_sync_after(
            writer_sync_after(writer_sync, a),
            b,
        ),
    decreases b.len(),
{
    if b.len() == 0 {
        assert(a + b =~= a);
        assert(deliveries_of(a) + deliveries_of(b) =~= deliveries_of(a));
        assert(connections_of(a) + connections_of(b) =~= connections_of(a));
    } else {
        lemma_dispatch_concat(writer_sync, a, b.drop_last());
        assert((a + b).drop_last() =~= a + b.drop_last());
        assert((a + b).last() == b.last());
        let d = deliveries_of(b.drop_last());
        let c = connections_of(b.drop_last());
        match b.last().payload {
            PayloadView::Data(connection, data) => {
                let item = (connection, ReaderDataView::Data(data));
                assert(deliveries_of(a) + d.push(item) =~= (deliveries_of(a) + d).push(item));
            },
            PayloadView::Disconnect(connection) => {
                let item = (connection, ReaderDataView::Disconnect);
                assert(deliveries_of(a) + d.push(item) =~= (deliveries_of(a) + d).push(item));
            },
            PayloadView::Connect(connection, address, port) => {
                let item = (connection, address, port);
                assert(connections_of(a) + c.push(item) =~= (connections_of(a) + c).push(item));
            },
            PayloadView::Sync(_, _) => {},
        }
    }
}

/// Reading never lowers the highest applied id, and afterwards no id of what
/// was read is above it.
pub proof fn lemma_reader_sync_bounds(reader_sync: nat, msgs: Seq<MessageView>)
    ensures
        reader_sync_after(reader_sync, msgs) >= reader_sync,
        forall|i: int|
            0 <= i < msgs.len() ==> (#[trigger] msgs[i]).id <= reader_sync_after(reader_sync, msgs),
    decreases msgs.len(),
{
    if msgs.len() > 0 {
        lemma_reader_sync_bounds(reader_sync, msgs.drop_last());
        assert forall|i: int| 0 <= i < msgs.len() implies (#[trigger] msgs[i]).id
            <= reader_sync_after(reader_sync, msgs) by {
            if i < msgs.len() - 1 {
                assert(msgs[i] == msgs.drop_last()[i]);
            }
        }
    }
}

/// Messages whose ids are all at or below the highest applied id are
/// discarded: nothing is applied and the highest applied id stays.
pub proof fn lemma_stale_messages_discarded(reader_sync: nat, msgs: Seq<MessageView>)
    requires
        forall|i: int| 0 <= i < msgs.len() ==> (#[trigger] msgs[i]).id <= reader_sync,
    ensures
        reader_sync_after(reader_sync, msgs) == reader_sync,
        accepted(reader_sync, msgs) == Seq::<MessageView>::empty(),
    decreases msgs.len(),
{
    if msgs.len() > 0 {
        assert forall|i: int| 0 <= i < msgs.drop_last().len() implies (
        #[trigger] msgs.drop_last()[i]).id <= reader_sync by {
            assert(msgs.drop_last()[i] == msgs[i]);
        }
        lemma_stale_messages_discarded(reader_sync, msgs.drop_last());
        assert(msgs.last() == msgs[msgs.len() - 1]);
    }
}

/// Whether the message is an acknowledgment.
pub open spec fn is_sync(m: MessageView) -> bool {
    m.payload is Sync
}

/// No acknowledgment directly follows another one.
pub open spec fn no_adjacent_syncs(log: Seq<MessageView>) -> bool {
    forall|i: int| 0 <= i < log.len() - 1 ==> !(is_sync(#[trigger] log[i]) && is_sync(log[i + 1]))
}

/// Number of acknowledgments at the end of the log that no later message has
/// superseded.
pub open spec fn outstanding_syncs(log: Seq<MessageView>) -> nat
    decreases log.len(),
{
    if log.len() == 0 || !is_sync(log.last()) {
        0
    } else {
        1 + outstanding_syncs(log.drop_last())
    }
}

/// The messages that `batch` becomes when its first element gets the id
/// `first_id` and each following one the next id.
pub open spec fn stamped(first_id: nat, batch: Seq<PayloadView>) -> Seq<MessageView> {
    Seq::new(batch.len(), |i: int| MessageView { id: (first_id + i) as nat, payload: batch[i] })
}

/// Mathematical state of the engine.
pub struct EngineView {
    /// Whether this side accepts the local connections.
    pub is_server: bool,
    /// Highest inbound id applied.
    pub reader_sync: nat,
    /// Highest outbound id that the peer has acknowledged, as of its latest
    /// acknowledgment.
    pub writer_sync: nat,
    /// The outbound log.
    pub log: Seq<MessageView>,
    /// The id that the next outbound message gets.
    pub next_id: nat,
    /// Id of the acknowledgment that was emitted and not superseded since.
    pub remove_sync: Option<nat>,
    /// Whether the outbound mailbox object has been written and not deleted
    /// since.
    pub writer_created: bool,
}

impl EngineView {
    /// The state of a new engine.
    pub open spec fn init(is_server: bool) -> EngineView {
        EngineView {
            is_server,
            reader_sync: 0,
            writer_sync: 0,
            log: Seq::empty(),
            next_id: 1,
            remove_sync: None,
            writer_created: false,
        }
    }

    /// What holds of every state that the engine reaches.
    pub open spec fn well_formed(self) -> bool {
        &&& self.log.len() < self.next_id
        &&& consecutive(self.log)
        &&& self.log.len() > 0 ==> self.log.last().id + 1 == self.next_id
        &&& no_adjacent_syncs(self.log)
        &&& match self.remove_sync {
            Some(id) => id + 1 == self.next_id && (self.log.len() > 0 ==> is_sync(self.log.last())),
            None => self.log.len() > 0 ==> !is_sync(self.log.last()),
        }
    }

    /// The state after the inbound messages `msgs` were read in order.
    pub open spec fn ingest(self, msgs: Seq<MessageView>) -> EngineView {
        EngineView {
            reader_sync: reader_sync_after(self.reader_sync, msgs),
            writer_sync: writer_sync_after(self.writer_sync, accepted(self.reader_sync, msgs)),
            ..self
        }
    }

    /// The dial requests that reading `msgs` announces: those applied, on the
    /// client; none on the server.
    pub open spec fn announced(self, msgs: Seq<MessageView>) -> Seq<(u64, Seq<char>, u16)> {
        if self.is_server {
            Seq::empty()
        } else {
            connections_of(accepted(self.reader_sync, msgs))
        }
    }

    /// The state after pruning, when `last_writer_sync` was the peer's
    /// acknowledgment at the start of the iteration.
    pub open spec fn prune(self, last_writer_sync: nat) -> EngineView {
        if last_writer_sync < self.writer_sync {
            EngineView { log: newer_than(self.log, self.writer_sync), ..self }
        } else {
            self
        }
    }

    /// Whether an acknowledgment is to be emitted, when `last_reader_sync` was
    /// the highest applied id at the start of the iteration.
    pub open spec fn owes_sync(self, last_reader_sync: nat) -> bool {
        last_reader_sync < self.reader_sync && self.remove_sync is None
    }

    /// The state after the acknowledgment step.
    pub open spec fn acknowledge(self, last_reader_sync: nat) -> EngineView {
        if self.owes_sync(last_reader_sync) {
            EngineView {
                log: self.log.push(
                    MessageView {
                        id: self.next_id,
                        payload: PayloadView::Sync(SYNC_CONNECTION, self.reader_sync),
                    },
                ),
                next_id: self.next_id + 1,
                remove_sync: Some(self.next_id),
                ..self
            }
        } else {
            self
        }
    }

    /// The state after the local submissions `batch` were appended in order.
    pub open spec fn submit(self, batch: Seq<PayloadView>) -> EngineView {
        EngineView {
            log: self.log + stamped(self.next_id, batch),
            next_id: self.next_id + batch.len(),
            remove_sync: if batch.len() > 0 {
                None
            } else {
                self.remove_sync
            },
            ..self
        }
    }

    /// What is done with the outbound mailbox at the end of an iteration in
    /// which the log was appended to (`changed`) or not.
    pub open spec fn decision(self, changed: bool) -> Publish {
        if self.log.len() == 0 && self.writer_created {
            Publish::Delete
        } else if changed {
            Publish::Write
        } else {
            Publish::Nothing
        }
    }

    /// The state after the decision was taken.
    pub open spec fn publish(self, changed: bool) -> EngineView {
        EngineView {
            writer_created: match self.decision(changed) {
                Publish::Write => true,
                Publish::Delete => false,
                Publish::Nothing => self.writer_created,
            },
            ..self
        }
    }

    /// Whether an iteration that reads `msgs` and takes `batch` appends to the
    /// log.
    pub open spec fn poll_changes(self, msgs: Seq<MessageView>, batch: Seq<PayloadView>) -> bool {
        self.ingest(msgs).owes_sync(self.reader_sync) || batch.len() > 0
    }

    /// The state after one whole iteration that reads `msgs` and takes the
    /// local submissions `batch`.
    pub open spec fn poll(self, msgs: Seq<MessageView>, batch: Seq<PayloadView>) -> EngineView {
        self.ingest(msgs).prune(self.writer_sync).acknowledge(self.reader_sync).submit(
            batch,
        ).publish(self.poll_changes(msgs, batch))
    }
}

/// What one reading of the inbound mailbox hands to this side.
pub struct Inbound {
    /// Dial requests, for the client's dialer.
    pub connections: Vec<NewConnection>,
    /// Data and disconnects, each keyed by its connection id.
    pub deliveries: Vec<(u64, ReaderData)>,
}

/// What one iteration of the poll loop hands back.
pub struct Step {
    /// Dial requests, for the client's dialer.
    pub connections: Vec<NewConnection>,
    /// Data and disconnects, each keyed by its connection id.
    pub deliveries: Vec<(u64, ReaderData)>,
    /// What is to be done with the outbound mailbox.
    pub publish: Publish,
}

/// The tunnel engine of one side.
pub struct Engine {
    is_server: bool,
    reader_sync: usize,
    writer_sync: usize,
    all_msgs: Vec<Message>,
    msg_id: usize,
    remove_sync: Option<usize>,
    writer_created: bool,
}

impl View for Engine {
    type V = EngineView;

    closed spec fn view(&self) -> EngineView {
        EngineView {
            is_server: self.is_server,
            reader_sync: self.reader_sync as nat,
            writer_sync: self.writer_sync as nat,
            log: log_view(self.all_msgs@),
            next_id: self.msg_id as nat,
            remove_sync: match self.remove_sync {
                Some(id) => Some(id as nat),
                None => None,
            },
            writer_created: self.writer_created,
        }
    }
}

/// Applies one inbound log to the two counters and appends what it delivers
/// to `inbound`.
fn apply_stream(
    stream: Vec<Message>,
    is_server: bool,
    reader_sync: usize,
    writer_sync: usize,
    inbound: &mut Inbound,
) -> (syncs: (usize, usize))
    ensures
        syncs.0 as nat == reader_sync_after(reader_sync as nat, log_view(stream@)),
        syncs.1 as nat == writer_sync_after(
            writer_sync as nat,
            accepted(reader_sync as nat, log_view(stream@)),
        ),
        deliveries_view(final(inbound).deliveries@) == deliveries_view(old(inbound).deliveries@)
            + deliveries_of(accepted(reader_sync as nat, log_view(stream@))),
        connections_view(final(inbound).connections@) == connections_view(
            old(inbound).connections@,
        ) + (if is_server {
            Seq::empty()
        } else {
            connections_of(accepted(reader_sync as nat, log_view(stream@)))
        }),
{
    let ghost all = stream@;
    let ghost msgs = log_view(all);
    let ghost r0 = reader_sync as nat;
    let ghost w0 = writer_sync as nat;
    let ghost d0 = deliveries_view(inbound.deliveries@);
    let ghost c0 = connections_view(inbound.connections@);
    let mut reader: usize = reader_sync;
    let mut writer: usize = writer_sync;
    proof {
        assert(msgs.take(0) =~= Seq::<MessageView>::empty());
        assert(d0 + Seq::<(u64, ReaderDataView)>::empty() =~= d0);
        assert(c0 + Seq::<(u64, Seq<char>, u16)>::empty() =~= c0);
    }
    for msg in it: stream.into_iter()
        invariant
            it.seq() == all,
            msgs == log_view(all),
            reader as nat == reader_sync_after(r0, msgs.take(it.index() as int)),
            writer as nat == writer_sync_after(w0, accepted(r0, msgs.take(it.index() as int))),
            deliveries_view(inbound.deliveries@) == d0 + deliveries_of(
                accepted(r0, msgs.take(it.index() as int)),
            ),
            connections_view(inbound.connections@) == c0 + (if is_server {
                Seq::empty()
            } else {
                connections_of(accepted(r0, msgs.take(it.index() as int)))
            }),
    {
        let ghost i = it.index() as int;
        let ghost before = accepted(r0, msgs.take(i));
        proof {
            assert(msgs.take(i + 1).drop_last() =~= msgs.take(i));
            assert(msgs.take(i + 1).last() == msg@);
            assert(before.push(msg@).drop_last() =~= before);
        }
        if msg.id > reader {
            reader = msg.id;
            match msg.payload {
                Payload::Connect(connection, address, port) => {
                    if !is_server {
                        let ghost old_connections = inbound.connections@;
                        inbound.connections.push((connection, address, port));
                        proof {
                            let item = (connection, address@, port);
                            assert(connections_view(inbound.connections@) =~= connections_view(
                                old_connections,
                            ).push(item));
                            assert(c0 + connections_of(before).push(item) =~= (c0 + connections_of(
                                before,
                            )).push(item));
                        }
                    }
                },
                Payload::Disconnect(connection) => {
                    let ghost old_deliveries = inbound.deliveries@;
                    inbound.deliveries.push((connection, ReaderData::Disconnect));
                    proof {
                        let item = (connection, ReaderDataView::Disconnect);
                        assert(deliveries_view(inbound.deliveries@) =~= deliveries_view(
                            old_deliveries,
                        ).push(item));
                        assert(d0 + deliveries_of(before).push(item) =~= (d0 + deliveries_of(
                            before,
                        )).push(item));
                    }
                },
                Payload::Data(connection, data) => {
                    let ghost old_deliveries = inbound.deliveries@;
                    let ghost bytes = data@;
                    inbound.deliveries.push((connection, ReaderData::Data(data)));
                    proof {
                        let item = (connection, ReaderDataView::Data(bytes));
                        assert(deliveries_view(inbound.deliveries@) =~= deliveries_view(
                            old_deliveries,
                        ).push(item));
                        assert(d0 + deliveries_of(before).push(item) =~= (d0 + deliveries_of(
                            before,
                        )).push(item));
                    }
                },
                Payload::Sync(_, last) => {
                    writer = last;
                },
            }
        }
    }
    proof {
        assert(msgs.take(msgs.len() as int) =~= msgs);
    }
    (reader, writer)
}

impl Engine {
    /// A new engine: nothing read, nothing acknowledged, an empty outbound
    /// log whose first message will get the id 1.
    pub fn new(is_server: bool) -> (engine: Engine)
        ensures
            engine@ == EngineView::init(is_server),
            engine@.well_formed(),
    {
        let engine = Engine {
            is_server,
            reader_sync: 0,
            writer_sync: 0,
            all_msgs: Vec::new(),
            msg_id: 1,
            remove_sync: None,
            writer_created: false,
        };
        assert(engine@.log =~= Seq::<MessageView>::empty());
        engine
    }

    /// Reads what the polls of the inbound mailbox brought, in order. A
    /// message is applied if its id is above every id applied before it, and
    /// silently dropped otherwise. An applied `Sync` sets the peer's
    /// acknowledgment; an applied `Data` or `Disconnect` is handed out as a
    /// delivery; an applied `Connect` is handed out as a dial request on the
    /// client and ignored on the server.
    pub fn read_tunnel(&mut self, commands: Vec<ReadCommand>) -> (inbound: Inbound)
        ensures
            final(self)@ == old(self)@.ingest(inbound_messages(commands@)),
            deliveries_view(inbound.deliveries@) == deliveries_of(
                accepted(old(self)@.reader_sync, inbound_messages(commands@)),
            ),
            connections_view(inbound.connections@) == old(self)@.announced(
                inbound_messages(commands@),
            ),
            old(self)@.well_formed() ==> final(self)@.well_formed(),
    {
        let ghost all = commands@;
        let ghost r0 = self.reader_sync as nat;
        let ghost w0 = self.writer_sync as nat;
        let is_server = self.is_server;
        let mut reader: usize = self.reader_sync;
        let mut writer: usize = self.writer_sync;
        let mut inbound = Inbound { connections: Vec::new(), deliveries: Vec::new() };
        proof {
            assert(all.take(0) =~= Seq::<ReadCommand>::empty());
            assert(deliveries_view(inbound.deliveries@) =~= Seq::empty());
            assert(connections_view(inbound.connections@) =~= Seq::empty());
        }
        for command in it: commands.into_iter()
            invariant
                it.seq() == all,
                reader as nat == reader_sync_after(
                    r0,
                    inbound_messages(all.take(it.index() as int)),
                ),
                writer as nat == writer_sync_after(
                    w0,
                    accepted(r0, inbound_messages(all.take(it.index() as int))),
                ),
                deliveries_view(inbound.deliveries@) == deliveries_of(
                    accepted(r0, inbound_messages(all.take(it.index() as int))),
                ),
                connections_view(inbound.connections@) == (if is_server {
                    Seq::empty()
                } else {
                    connections_of(accepted(r0, inbound_messages(all.take(it.index() as int))))
                }),
        {
            let ghost i = it.index() as int;
            let ghost before = inbound_messages(all.take(i));
            proof {
                assert(all.take(i + 1).drop_last() =~= all.take(i));
                assert(all.take(i + 1).last() == command);
            }
            match command {
                ReadCommand::NoFile => {},
                ReadCommand::Read(stream) => {
                    proof {
                        lemma_reader_sync_concat(r0, before, log_view(stream@));
                        lemma_dispatch_concat(
                            w0,
                            accepted(r0, before),
                            accepted(reader_sync_after(r0, before), log_view(stream@)),
                        );
                    }
                    let syncs = apply_stream(stream, is_server, reader, writer, &mut inbound);
                    reader = syncs.0;
                    writer = syncs.1;
                },
            }
        }
        proof {
            assert(all.take(all.len() as int) =~= all);
        }
        self.reader_sync = reader;
        self.writer_sync = writer;
        inbound
    }

    /// Drops from the outbound log what the peer has acknowledged, if its
    /// acknowledgment has advanced beyond `last_writer_sync`, the value it had
    /// at the start of the iteration. The entries that stay keep their order.
    pub fn tidy_up_msgs(&mut self, last_writer_sync: usize)
        requires
            old(self)@.well_formed(),
        ensures
            final(self)@ == old(self)@.prune(last_writer_sync as nat),
            final(self)@.well_formed(),
    {
        if last_writer_sync < self.writer_sync {
            let ghost log = log_view(self.all_msgs@);
            let ghost bound = self.writer_sync as nat;
            proof {
                lemma_consecutive_increasing(log);
                lemma_newer_than_is_suffix(log, bound);
            }
            let n: usize = self.all_msgs.len();
            // little performance improvement in case we can just clear all
            // the messages
            let remove_all = n > 0 && self.all_msgs[n - 1].id == self.writer_sync;
            if remove_all {
                proof {
                    assert(log[n - 1].id == bound);
                    assert(log.skip(n as int) =~= Seq::<MessageView>::empty());
                }
                self.all_msgs.clear();
                assert(log_view(self.all_msgs@) =~= Seq::<MessageView>::empty());
            } else {
                let mut k: usize = 0;
                while k < n && self.all_msgs[k].id <= self.writer_sync
                    invariant
                        k <= n,
                        n == self.all_msgs@.len(),
                        log == log_view(self.all_msgs@),
                        bound == self.writer_sync as nat,
                        forall|i: int| 0 <= i < k ==> (#[trigger] log[i]).id <= bound,
                    decreases n - k,
                {
                    k = k + 1;
                }
                proof {
                    let cut = acknowledged_prefix(log, bound);
                    if k < cut {
                        assert(log[k as int].id <= bound);
                    }
                    if cut < k {
                        assert(log[cut as int].id <= bound);
                    }
                }
                let kept = self.all_msgs.split_off(k);
                self.all_msgs = kept;
                assert(log_view(self.all_msgs@) =~= log.skip(k as int));
            }
            proof {
                lemma_prune_well_formed(old(self)@, last_writer_sync as nat);
            }
        }
    }

    /// Emits an acknowledgment of everything applied, if the highest applied
    /// id has advanced beyond `last_reader_sync`, the value it had at the
    /// start of the iteration, and no acknowledgment is outstanding. Returns
    /// whether one was emitted.
    pub fn resync_msg(&mut self, last_reader_sync: usize) -> (changed: bool)
        requires
            old(self)@.well_formed(),
            old(self)@.owes_sync(last_reader_sync as nat) ==> old(self)@.next_id < usize::MAX,
        ensures
            changed == old(self)@.owes_sync(last_reader_sync as nat),
            final(self)@ == old(self)@.acknowledge(last_reader_sync as nat),
            final(self)@.well_formed(),
    {
        if last_reader_sync < self.reader_sync && self.remove_sync.is_none() {
            let ghost log = log_view(self.all_msgs@);
            let id: usize = self.msg_id;
            self.msg_id = id + 1;
            let sync = Message { id, payload: Payload::Sync(SYNC_CONNECTION, self.reader_sync) };
            self.all_msgs.push(sync);
            self.remove_sync = Some(id);
            proof {
                assert(log_view(self.all_msgs@) =~= log.push(sync@));
                lemma_acknowledge_well_formed(old(self)@, last_reader_sync as nat);
            }
            true
        } else {
            false
        }
    }

    /// Appends the local submissions to the outbound log, in order, each with
    /// the next free id. A submission supersedes an outstanding
    /// acknowledgment. Returns whether the log was appended to in this
    /// iteration: here, or before (`is_change`).
    pub fn add_msgs(&mut self, is_change: bool, batch: Vec<WriterData>) -> (changed: bool)
        requires
            old(self)@.well_formed(),
            old(self)@.next_id + batch@.len() <= usize::MAX,
        ensures
            changed == (is_change || batch@.len() > 0),
            final(self)@ == old(self)@.submit(writer_view(batch@)),
            final(self)@.well_formed(),
    {
        let ghost all = batch@;
        let ghost payloads = writer_view(all);
        let ghost log = log_view(self.all_msgs@);
        let ghost first = self.msg_id as nat;
        let appended = batch.len() > 0;
        let mut msg_id: usize = self.msg_id;
        proof {
            assert(log + stamped(first, payloads.take(0)) =~= log);
        }
        for msg in it: batch.into_iter()
            invariant
                it.seq() == all,
                payloads == writer_view(all),
                msg_id == first + it.index(),
                first + all.len() <= usize::MAX,
                log_view(self.all_msgs@) == log + stamped(first, payloads.take(it.index() as int)),
                self.is_server == old(self).is_server,
                self.reader_sync == old(self).reader_sync,
                self.writer_sync == old(self).writer_sync,
                self.remove_sync == old(self).remove_sync,
                self.writer_created == old(self).writer_created,
        {
            let ghost i = it.index() as int;
            let ghost old_msgs = self.all_msgs@;
            let id: usize = msg_id;
            msg_id = msg_id + 1;
            let message = match msg {
                WriterData::Connect(connection, ip, port) => Message {
                    id,
                    payload: Payload::Connect(connection, ip, port),
                },
                WriterData::Disconnect(connection) => Message {
                    id,
                    payload: Payload::Disconnect(connection),
                },
                WriterData::Data(connection, data) => Message {
                    id,
                    payload: Payload::Data(connection, data),
                },
            };
            assert(message@ == MessageView { id: id as nat, payload: payloads[i] });
            self.all_msgs.push(message);
            proof {
                assert(log_view(self.all_msgs@) =~= log_view(old_msgs).push(message@));
                assert(log + stamped(first, payloads.take(i + 1)) =~= (log + stamped(
                    first,
                    payloads.take(i),
                )).push(message@));
            }
        }
        self.msg_id = msg_id;
        if appended {
            self.remove_sync = None;
        }
        proof {
            assert(payloads.take(all.len() as int) =~= payloads);
            lemma_submission_is_no_sync(all);
            lemma_submit_well_formed(old(self)@, payloads);
        }
        is_change || appended
    }

    /// Decides what is done with the outbound mailbox at the end of an
    /// iteration: its object is deleted when the log is empty and the object
    /// is there; otherwise the whole log is written when it was appended to
    /// (`is_change`); otherwise nothing is done.
    pub fn publish(&mut self, is_change: bool) -> (decision: Publish)
        ensures
            decision == old(self)@.decision(is_change),
            final(self)@ == old(self)@.publish(is_change),
            old(self)@.well_formed() ==> final(self)@.well_formed(),
    {
        if self.all_msgs.len() == 0 && self.writer_created {
            self.writer_created = false;
            Publish::Delete
        } else if is_change {
            self.writer_created = true;
            Publish::Write
        } else {
            Publish::Nothing
        }
    }

    /// What is to be written to the outbound mailbox for a decision: the whole
    /// outbound log, as it stands, where the decision is to write; nothing
    /// otherwise.
    pub fn to_write(&self, decision: Publish) -> (log: Option<&Vec<Message>>)
        ensures
            log is Some <==> decision == Publish::Write,
            log matches Some(messages) ==> log_view(messages@) == self@.log,
    {
        match decision {
            Publish::Write => Some(&self.all_msgs),
            _ => None,
        }
    }

    /// Takes note that the write which [`Engine::publish`] asked for did not
    /// reach the backend: the mailbox object counts as absent again. Nothing
    /// else changes.
    pub fn write_failed(&mut self)
        ensures
            final(self)@ == (EngineView { writer_created: false, ..old(self)@ }),
            old(self)@.well_formed() ==> final(self)@.well_formed(),
    {
        self.writer_created = false;
    }

    /// One iteration of the poll loop: reads what the polls of the inbound
    /// mailbox brought, prunes the outbound log, acknowledges, appends the
    /// local submissions and decides what to do with the outbound mailbox.
    pub fn poll(&mut self, commands: Vec<ReadCommand>, batch: Vec<WriterData>) -> (step: Step)
        requires
            old(self)@.well_formed(),
            old(self)@.next_id + batch@.len() + 1 <= usize::MAX,
        ensures
            final(self)@ == old(self)@.poll(inbound_messages(commands@), writer_view(batch@)),
            final(self)@.well_formed(),
            deliveries_view(step.deliveries@) == deliveries_of(
                accepted(old(self)@.reader_sync, inbound_messages(commands@)),
            ),
            connections_view(step.connections@) == old(self)@.announced(
                inbound_messages(commands@),
            ),
            step.publish == old(self)@.ingest(inbound_messages(commands@)).prune(
                old(self)@.writer_sync,
            ).acknowledge(old(self)@.reader_sync).submit(writer_view(batch@)).decision(
                old(self)@.poll_changes(inbound_messages(commands@), writer_view(batch@)),
            ),
    {
        let last_writer_sync: usize = self.writer_sync;
        let last_reader_sync: usize = self.reader_sync;
        let inbound = self.read_tunnel(commands);
        self.tidy_up_msgs(last_writer_sync);
        let is_change = self.resync_msg(last_reader_sync);
        let is_change = self.add_msgs(is_change, batch);
        let publish = self.publish(is_change);
        Step { connections: inbound.connections, deliveries: inbound.deliveries, publish }
    }

    /// Whether this side accepts the local connections.
    pub fn is_server(&self) -> (b: bool)
        ensures
            b == self@.is_server,
    {
        self.is_server
    }

    /// Highest inbound id applied.
    pub fn reader_sync(&self) -> (id: usize)
        ensures
            id == self@.reader_sync,
    {
        self.reader_sync
    }

    /// The peer's latest acknowledgment.
    pub fn writer_sync(&self) -> (id: usize)
        ensures
            id == self@.writer_sync,
    {
        self.writer_sync
    }

    /// The id that the next outbound message gets.
    pub fn next_id(&self) -> (id: usize)
        ensures
            id == self@.next_id,
    {
        self.msg_id
    }

    /// Id of the outstanding acknowledgment, if there is one.
    pub fn remove_sync(&self) -> (id: Option<usize>)
        ensures
            id is Some <==> self@.remove_sync is Some,
            id is Some ==> id->0 == self@.remove_sync->0,
    {
        self.remove_sync
    }

    /// Whether the outbound mailbox object is there.
    pub fn writer_created(&self) -> (b: bool)
        ensures
            b == self@.writer_created,
    {
        self.writer_created
    }

    /// The outbound log, which a `Publish::Write` asks to be written whole.
    pub fn all_msgs(&self) -> (log: &Vec<Message>)
        ensures
            log_view(log@) == self@.log,
    {
        &self.all_msgs
    }

    /// Whether `count` more messages can get an id.
    pub fn has_ids_for(&self, count: usize) -> (b: bool)
        ensures
            b == (self@.next_id + count <= usize::MAX),
    {
        count <= usize::MAX - self.msg_id
    }
}

/// Pruning keeps the state well formed, and what stays is the log without
/// its acknowledged prefix.
pub proof fn lemma_prune_well_formed(e: EngineView, last_writer_sync: nat)
    requires
        e.well_formed(),
    ensures
        e.prune(last_writer_sync).well_formed(),
        last_writer_sync < e.writer_sync ==> e.prune(last_writer_sync).log == e.log.skip(
            acknowledged_prefix(e.log, e.writer_sync) as int,
        ),
{
    if last_writer_sync < e.writer_sync {
        lemma_consecutive_increasing(e.log);
        lemma_newer_than_is_suffix(e.log, e.writer_sync);
        let kept = e.prune(last_writer_sync).log;
        let cut = acknowledged_prefix(e.log, e.writer_sync) as int;
        assert forall|i: int| 0 <= i < kept.len() implies (#[trigger] kept[i]).id == kept[0].id
            + i by {
            assert(kept[i] == e.log[cut + i]);
            assert(kept[0] == e.log[cut]);
        }
        assert forall|i: int| 0 <= i < kept.len() - 1 implies !(is_sync(#[trigger] kept[i])
            && is_sync(kept[i + 1])) by {
            assert(kept[i] == e.log[cut + i]);
            assert(kept[i + 1] == e.log[cut + i + 1]);
        }
        if kept.len() > 0 {
            assert(kept.last() == e.log.last());
        }
    }
}

/// The acknowledgment step keeps the state well formed.
pub proof fn lemma_acknowledge_well_formed(e: EngineView, last_reader_sync: nat)
    requires
        e.well_formed(),
    ensures
        e.acknowledge(last_reader_sync).well_formed(),
{
    if e.owes_sync(last_reader_sync) {
        let grown = e.acknowledge(last_reader_sync).log;
        assert forall|i: int| 0 <= i < grown.len() implies (#[trigger] grown[i]).id == grown[0].id
            + i by {
            if i < e.log.len() {
                assert(grown[i] == e.log[i]);
                assert(grown[0] == e.log[0]);
            }
        }
        assert forall|i: int| 0 <= i < grown.len() - 1 implies !(is_sync(#[trigger] grown[i])
            && is_sync(grown[i + 1])) by {
            assert(grown[i] == e.log[i]);
            if i + 1 < e.log.len() {
                assert(grown[i + 1] == e.log[i + 1]);
            }
        }
    }
}

/// A whole iteration keeps the state well formed, whatever the inbound
/// mailbox held.
pub proof fn lemma_poll_well_formed(e: EngineView, msgs: Seq<MessageView>, batch: Seq<PayloadView>)
    requires
        e.well_formed(),
        forall|i: int| 0 <= i < batch.len() ==> !(#[trigger] batch[i] is Sync),
    ensures
        e.poll(msgs, batch).well_formed(),
{
    let read = e.ingest(msgs);
    lemma_prune_well_formed(read, e.writer_sync);
    let pruned = read.prune(e.writer_sync);
    lemma_acknowledge_well_formed(pruned, e.reader_sync);
    lemma_submit_well_formed(pruned.acknowledge(e.reader_sync), batch);
}

/// A submission never becomes an acknowledgment.
pub proof fn lemma_submission_is_no_sync(batch: Seq<WriterData>)
    ensures
        forall|i: int| 0 <= i < batch.len() ==> !(#[trigger] writer_view(batch)[i] is Sync),
{
}

/// Appending submissions keeps the state well formed.
pub proof fn lemma_submit_well_formed(e: EngineView, batch: Seq<PayloadView>)
    requires
        e.well_formed(),
        forall|i: int| 0 <= i < batch.len() ==> !(#[trigger] batch[i] is Sync),
    ensures
        e.submit(batch).well_formed(),
{
    let grown = e.submit(batch).log;
    let added = stamped(e.next_id, batch);
    assert forall|i: int| 0 <= i < grown.len() implies (#[trigger] grown[i]).id == grown[0].id
        + i by {
        if i < e.log.len() {
            assert(grown[i] == e.log[i]);
            assert(grown[0] == e.log[0]);
        } else {
            assert(grown[i] == added[i - e.log.len()]);
            if e.log.len() > 0 {
                assert(grown[0] == e.log[0]);
                assert(e.log.last() == e.log[e.log.len() - 1]);
            } else {
                assert(grown[0] == added[0]);
            }
        }
    }
    assert forall|i: int| 0 <= i < grown.len() - 1 implies !(is_sync(#[trigger] grown[i])
        && is_sync(grown[i + 1])) by {
        if i + 1 < e.log.len() {
            assert(grown[i] == e.log[i]);
            assert(grown[i + 1] == e.log[i + 1]);
        } else {
            assert(grown[i + 1] == added[i + 1 - e.log.len()]);
            assert(!(batch[i + 1 - e.log.len()] is Sync));
        }
    }
    if batch.len() > 0 {
        assert(grown.last() == added[batch.len() - 1]);
        assert(!(batch[batch.len() - 1] is Sync));
    } else {
        assert(grown =~= e.log);
    }
}

} // verus!
