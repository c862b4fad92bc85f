//! Laws of the tunnel engine and of the connections, stated over their
//! mathematical states.

use crate::connection::{data_chunks, ends_relay, ConnectionView, Phase, SocketReadView};
use crate::engine::{
    accepted, deliveries_of, is_sync, lemma_dispatch_concat, lemma_prune_well_formed,
    lemma_reader_sync_bounds, lemma_reader_sync_concat, lemma_stale_messages_discarded,
    outstanding_syncs, reader_sync_after, stamped, EngineView, SYNC_CONNECTION,
};
use crate::messages::{
    acknowledged_prefix, lemma_consecutive_increasing, lemma_filter_keeps_all,
    lemma_newer_than_is_suffix, newer_than, strictly_increasing, MessageView, PayloadView,
};
use crate::tunnel::ReaderDataView;
use vstd::prelude::*;

verus! {

/// Replaying an inbound log that was already read applies nothing: no
/// delivery, no dial request, and the engine's state stays as it is. This
/// holds of every log, whatever ids it holds and however often.
pub proof fn lemma_replay_is_idempotent(e: EngineView, msgs: Seq<MessageView>)
    ensures
        accepted(e.ingest(msgs).reader_sync, msgs) == Seq::<MessageView>::empty(),
        deliveries_of(accepted(e.ingest(msgs).reader_sync, msgs)) == Seq::<
            (u64, ReaderDataView),
        >::empty(),
        e.ingest(msgs).announced(msgs) == Seq::<(u64, Seq<char>, u16)>::empty(),
        e.ingest(msgs).ingest(msgs) == e.ingest(msgs),
{
    lemma_reader_sync_bounds(e.reader_sync, msgs);
    lemma_stale_messages_discarded(e.ingest(msgs).reader_sync, msgs);
}

/// An iteration that takes no local submission and reads again what the
/// iteration before it read delivers nothing and leaves the counters, the
/// outbound log and the next id as they are.
pub proof fn lemma_replayed_poll_changes_nothing(
    e: EngineView,
    msgs: Seq<MessageView>,
    batch: Seq<PayloadView>,
)
    ensures
        ({
            let once = e.poll(msgs, batch);
            let twice = once.poll(msgs, Seq::empty());
            &&& accepted(once.reader_sync, msgs) == Seq::<MessageView>::empty()
            &&& twice.reader_sync == once.reader_sync
            &&& twice.writer_sync == once.writer_sync
            &&& twice.log == once.log
            &&& twice.next_id == once.next_id
            &&& twice.remove_sync == once.remove_sync
        }),
{
    let once = e.poll(msgs, batch);
    lemma_replay_is_idempotent(e, msgs);
    assert(once.reader_sync == e.ingest(msgs).reader_sync);
    assert(once.log + stamped(once.next_id, Seq::<PayloadView>::empty()) =~= once.log);
}

/// A message is applied only if its id is above the highest id applied
/// before: the applied ids grow strictly and all lie above `reader_sync`.
pub proof fn lemma_accepted_ids_increase(reader_sync: nat, msgs: Seq<MessageView>)
    ensures
        strictly_increasing(accepted(reader_sync, msgs)),
        forall|i: int|
            0 <= i < accepted(reader_sync, msgs).len() ==> reader_sync < (#[trigger] accepted(
                reader_sync,
                msgs,
            )[i]).id <= reader_sync_after(reader_sync, msgs),
    decreases msgs.len(),
{
    if msgs.len() > 0 {
        let init = msgs.drop_last();
        lemma_accepted_ids_increase(reader_sync, init);
        lemma_reader_sync_bounds(reader_sync, init);
        let before = accepted(reader_sync, init);
        let all = accepted(reader_sync, msgs);
        assert forall|i: int, j: int| 0 <= i < j < all.len() implies (#[trigger] all[i]).id < (
        #[trigger] all[j]).id by {
            if j < before.len() {
                assert(all[i] == before[i]);
                assert(all[j] == before[j]);
            } else {
                assert(all[i] == before[i]);
            }
        }
        assert forall|i: int| 0 <= i < all.len() implies reader_sync < (#[trigger] all[i]).id
            <= reader_sync_after(reader_sync, msgs) by {
            if i < before.len() {
                assert(all[i] == before[i]);
            }
        }
    }
}

/// The submissions of one batch get the next free ids in the order of
/// submission, without a gap, all above every id given out before; and the
/// ids of the whole log grow strictly.
pub proof fn lemma_submitted_ids(e: EngineView, batch: Seq<PayloadView>)
    requires
        e.well_formed(),
    ensures
        e.submit(batch).log.len() == e.log.len() + batch.len(),
        forall|i: int|
            0 <= i < batch.len() ==> #[trigger] e.submit(batch).log[e.log.len() + i]
                == (MessageView { id: (e.next_id + i) as nat, payload: batch[i] }),
        forall|j: int| 0 <= j < e.log.len() ==> (#[trigger] e.log[j]).id < e.next_id,
        forall|j: int| 0 <= j < e.log.len() ==> #[trigger] e.submit(batch).log[j] == e.log[j],
        strictly_increasing(e.submit(batch).log),
{
    let grown = e.submit(batch).log;
    assert forall|j: int| 0 <= j < e.log.len() implies (#[trigger] e.log[j]).id < e.next_id by {
        assert(e.log.last() == e.log[e.log.len() - 1]);
    }
    assert forall|i: int, j: int| 0 <= i < j < grown.len() implies (#[trigger] grown[i]).id < (
    #[trigger] grown[j]).id by {
        if i < e.log.len() {
            assert(grown[i] == e.log[i]);
        }
        if j < e.log.len() {
            assert(grown[j] == e.log[j]);
        }
    }
}

/// Submitting one batch and then another is submitting the two as one: how
/// the submissions are spread over iterations does not change their ids.
pub proof fn lemma_submit_split(e: EngineView, a: Seq<PayloadView>, b: Seq<PayloadView>)
    ensures
        e.submit(a).submit(b) == e.submit(a + b),
{
    assert(e.submit(a).submit(b).log =~= e.submit(a + b).log);
}

/// No step of an iteration lowers the next id, so a submission of a later
/// iteration gets an id above those of every earlier one.
pub proof fn lemma_next_id_grows(e: EngineView, msgs: Seq<MessageView>, batch: Seq<PayloadView>)
    ensures
        e.poll(msgs, batch).next_id >= e.next_id + batch.len(),
{
}

/// After a pruning that the peer's acknowledgment `e.writer_sync` caused, the
/// outbound log holds no entry with an id at or below the acknowledgment, and
/// holds every entry with an id above it that it held before, in the same
/// order. The pruning happens when the acknowledgment has advanced; the same
/// holds when it has not and no entry is at or below it.
pub proof fn lemma_prune_correct(e: EngineView, last_writer_sync: nat)
    requires
        e.well_formed(),
        last_writer_sync < e.writer_sync || (forall|j: int|
            0 <= j < e.log.len() ==> (#[trigger] e.log[j]).id > e.writer_sync),
    ensures
        forall|i: int|
            0 <= i < e.prune(last_writer_sync).log.len() ==> (#[trigger] e.prune(
                last_writer_sync,
            ).log[i]).id > e.writer_sync,
        forall|j: int|
            0 <= j < e.log.len() && (#[trigger] e.log[j]).id > e.writer_sync ==> e.prune(
                last_writer_sync,
            ).log.contains(e.log[j]),
        e.prune(last_writer_sync).log == newer_than(e.log, e.writer_sync),
        e.prune(last_writer_sync).log == e.log.skip(
            acknowledged_prefix(e.log, e.writer_sync) as int,
        ),
{
    lemma_consecutive_increasing(e.log);
    lemma_newer_than_is_suffix(e.log, e.writer_sync);
    lemma_prune_well_formed(e, last_writer_sync);
    let cut = acknowledged_prefix(e.log, e.writer_sync) as int;
    let kept = e.prune(last_writer_sync).log;
    if !(last_writer_sync < e.writer_sync) {
        lemma_filter_keeps_all(e.log, e.writer_sync);
    }
    assert(kept == e.log.skip(cut));
    assert forall|i: int| 0 <= i < kept.len() implies (#[trigger] kept[i]).id
        > e.writer_sync by {
        assert(kept[i] == e.log[cut + i]);
    }
    assert forall|j: int| 0 <= j < e.log.len() && (#[trigger] e.log[j]).id
        > e.writer_sync implies kept.contains(e.log[j]) by {
        assert(kept[j - cut] == e.log[j]);
    }
}

/// In every state that the engine reaches, at most one acknowledgment stands
/// at the end of the outbound log without a later message that supersedes
/// it, and it is the one that the engine remembers as outstanding.
pub proof fn lemma_single_outstanding_sync(e: EngineView)
    requires
        e.well_formed(),
    ensures
        outstanding_syncs(e.log) <= 1,
        e.remove_sync is None ==> outstanding_syncs(e.log) == 0,
        outstanding_syncs(e.log) == 1 ==> e.remove_sync == Some(e.log.last().id),
{
    if e.log.len() > 0 && is_sync(e.log.last()) {
        let init = e.log.drop_last();
        if init.len() > 0 {
            assert(init.last() == e.log[e.log.len() - 2]);
            assert(e.log.last() == e.log[e.log.len() - 2 + 1]);
            assert(!is_sync(init.last()));
        }
        assert(outstanding_syncs(init) == 0);
    }
}

/// The bytes that `deliveries` hold for `connection`, in order of delivery.
pub open spec fn delivered_bytes(connection: u64, deliveries: Seq<(u64, ReaderDataView)>) -> Seq<u8>
    decreases deliveries.len(),
{
    if deliveries.len() == 0 {
        Seq::empty()
    } else {
        let before = delivered_bytes(connection, deliveries.drop_last());
        match deliveries.last() {
            (c, ReaderDataView::Data(data)) => if c == connection {
                before + data
            } else {
                before
            },
            _ => before,
        }
    }
}

/// The bytes that the submissions `batch` hold for `connection`, in order of
/// submission.
pub open spec fn submitted_bytes(connection: u64, batch: Seq<PayloadView>) -> Seq<u8>
    decreases batch.len(),
{
    if batch.len() == 0 {
        Seq::empty()
    } else {
        let before = submitted_bytes(connection, batch.drop_last());
        match batch.last() {
            PayloadView::Data(c, data) => if c == connection {
                before + data
            } else {
                before
            },
            _ => before,
        }
    }
}

/// What two runs of deliveries hold for a connection is what their
/// concatenation holds for it.
pub proof fn lemma_delivered_bytes_concat(
    connection: u64,
    a: Seq<(u64, ReaderDataView)>,
    b: Seq<(u64, ReaderDataView)>,
)
    ensures
        delivered_bytes(connection, a + b) == delivered_bytes(connection, a) + delivered_bytes(
            connection,
            b,
        ),
    decreases b.len(),
{
    if b.len() == 0 {
        assert(a + b =~= a);
        assert(delivered_bytes(connection, a) + delivered_bytes(connection, b)
            =~= delivered_bytes(connection, a));
    } else {
        lemma_delivered_bytes_concat(connection, a, b.drop_last());
        assert((a + b).drop_last() =~= a + b.drop_last());
        assert((a + b).last() == b.last());
        let x = delivered_bytes(connection, a);
        let y = delivered_bytes(connection, b.drop_last());
        match b.last() {
            (c, ReaderDataView::Data(data)) => {
                assert(x + (y + data) =~= (x + y) + data);
            },
            _ => {},
        }
    }
}

/// What the messages made of the submissions `batch` deliver to a connection
/// are the bytes submitted for it, in the order of submission, whatever ids
/// the messages got.
pub proof fn lemma_stamped_bytes(connection: u64, first_id: nat, batch: Seq<PayloadView>)
    ensures
        delivered_bytes(connection, deliveries_of(stamped(first_id, batch))) == submitted_bytes(
            connection,
            batch,
        ),
    decreases batch.len(),
{
    if batch.len() > 0 {
        let init = batch.drop_last();
        lemma_stamped_bytes(connection, first_id, init);
        let msgs = stamped(first_id, batch);
        assert(msgs.drop_last() =~= stamped(first_id, init));
        assert(msgs.last().payload == batch.last());
        let d = deliveries_of(msgs.drop_last());
        match batch.last() {
            PayloadView::Data(c, data) => {
                assert(d.push((c, ReaderDataView::Data(data))).drop_last() =~= d);
            },
            PayloadView::Disconnect(c) => {
                assert(d.push((c, ReaderDataView::Disconnect)).drop_last() =~= d);
            },
            _ => {},
        }
    }
}

/// From a log whose ids grow strictly, exactly the entries with an id above
/// the highest applied id are applied, each once and in log order.
pub proof fn lemma_increasing_log_applied(reader_sync: nat, log: Seq<MessageView>)
    requires
        strictly_increasing(log),
    ensures
        accepted(reader_sync, log) == newer_than(log, reader_sync),
        reader_sync_after(reader_sync, log) == (if log.len() > 0 && log.last().id > reader_sync {
            log.last().id
        } else {
            reader_sync
        }),
    decreases log.len(),
{
    reveal(Seq::filter);
    if log.len() > 0 {
        let init = log.drop_last();
        assert forall|i: int, j: int| 0 <= i < j < init.len() implies (#[trigger] init[i]).id < (
        #[trigger] init[j]).id by {
            assert(init[i] == log[i]);
            assert(init[j] == log[j]);
        }
        lemma_increasing_log_applied(reader_sync, init);
        if init.len() > 0 {
            assert(init.last() == log[log.len() - 2]);
            assert(log.last() == log[log.len() - 1]);
        }
    }
}

/// Let `history` be all that one side ever appended to its outbound log, in
/// order, the first with id 1, and let the mailbox hold the part of it from
/// position `from` to position `to`. A reader that has applied the first
/// `reader_sync` messages, none of which the mailbox has skipped, applies
/// exactly the messages that follow them, up to position `to`, in order.
pub proof fn lemma_mailbox_applied(history: Seq<PayloadView>, from: nat, to: nat, reader_sync: nat)
    requires
        from <= to <= history.len(),
        from <= reader_sync <= history.len(),
    ensures
        ({
            let sent = stamped(1, history);
            let mailbox = sent.subrange(from as int, to as int);
            let upto = if to > reader_sync {
                to
            } else {
                reader_sync
            };
            &&& accepted(reader_sync, mailbox) == sent.subrange(reader_sync as int, upto as int)
            &&& reader_sync_after(reader_sync, mailbox) == upto
        }),
{
    let sent = stamped(1, history);
    let mailbox = sent.subrange(from as int, to as int);
    let upto = if to > reader_sync {
        to
    } else {
        reader_sync
    };
    assert forall|i: int, j: int| 0 <= i < j < mailbox.len() implies (#[trigger] mailbox[i]).id < (
    #[trigger] mailbox[j]).id by {
        assert(mailbox[i] == sent[from + i]);
        assert(mailbox[j] == sent[from + j]);
    }
    lemma_increasing_log_applied(reader_sync, mailbox);
    lemma_newer_than_is_suffix(mailbox, reader_sync);
    let cut = acknowledged_prefix(mailbox, reader_sync) as int;
    // the entries of the mailbox at or below `reader_sync` are its first
    // `reader_sync - from` ones, as far as it reaches
    let stale = if to > reader_sync {
        reader_sync - from
    } else {
        to - from
    };
    if cut < stale {
        assert(mailbox[cut] == sent[from + cut]);
    }
    if stale < cut {
        assert(mailbox[stale] == sent[from + stale]);
    }
    assert(mailbox.skip(cut) =~= sent.subrange(reader_sync as int, upto as int));
    if mailbox.len() > 0 {
        assert(mailbox.last() == sent[to - 1]);
    }
}

/// The bytes that a log delivers to a connection up to one position are a
/// prefix of those it delivers up to a later one: what is added are the bytes
/// of the messages in between.
pub proof fn lemma_delivery_grows(connection: u64, sent: Seq<MessageView>, n: nat, m: nat)
    requires
        n <= m <= sent.len(),
    ensures
        delivered_bytes(connection, deliveries_of(sent.take(m as int))) == delivered_bytes(
            connection,
            deliveries_of(sent.take(n as int)),
        ) + delivered_bytes(connection, deliveries_of(sent.subrange(n as int, m as int))),
        delivered_bytes(connection, deliveries_of(sent.take(n as int))).is_prefix_of(
            delivered_bytes(connection, deliveries_of(sent.take(m as int))),
        ),
{
    let a = sent.take(n as int);
    let b = sent.subrange(n as int, m as int);
    assert(sent.take(m as int) =~= a + b);
    lemma_dispatch_concat(0, a, b);
    lemma_delivered_bytes_concat(connection, deliveries_of(a), deliveries_of(b));
    let x = delivered_bytes(connection, deliveries_of(a));
    let y = delivered_bytes(connection, deliveries_of(b));
    assert((x + y).subrange(0, x.len() as int) =~= x);
}

/// Order is kept from end to end. Let `history` be all that one side ever
/// appended to its outbound log, in order, the first with id 1. Let the
/// mailbox hold the part of it from position `from` to position `to`, and
/// let the other side have applied the first `reader_sync` messages, none of
/// which the mailbox has skipped (`from <= reader_sync`). Then the bytes that
/// reading the mailbox delivers to a connection follow those delivered to it
/// before, and all that was delivered to it so far is a prefix of the bytes
/// submitted for it, in the order of submission.
pub proof fn lemma_order_preserved(
    connection: u64,
    history: Seq<PayloadView>,
    from: nat,
    to: nat,
    reader_sync: nat,
)
    requires
        from <= to <= history.len(),
        from <= reader_sync <= history.len(),
    ensures
        ({
            let sent = stamped(1, history);
            let mailbox = sent.subrange(from as int, to as int);
            let before = delivered_bytes(connection, deliveries_of(sent.take(reader_sync as int)));
            let now = delivered_bytes(
                connection,
                deliveries_of(accepted(reader_sync, mailbox)),
            );
            let after = delivered_bytes(
                connection,
                deliveries_of(sent.take(reader_sync_after(reader_sync, mailbox) as int)),
            );
            &&& after == before + now
            &&& after.is_prefix_of(submitted_bytes(connection, history))
        }),
{
    let sent = stamped(1, history);
    let upto = if to > reader_sync {
        to
    } else {
        reader_sync
    };
    lemma_mailbox_applied(history, from, to, reader_sync);
    lemma_delivery_grows(connection, sent, reader_sync, upto);
    lemma_delivery_grows(connection, sent, upto, sent.len());
    assert(sent.take(sent.len() as int) =~= sent);
    lemma_stamped_bytes(connection, 1, history);
}

/// Reading the inbound mailbox in two polls is reading the concatenation of
/// what the two held.
pub proof fn lemma_ingest_split(e: EngineView, a: Seq<MessageView>, b: Seq<MessageView>)
    ensures
        e.ingest(a).ingest(b) == e.ingest(a + b),
        deliveries_of(accepted(e.reader_sync, a + b)) == deliveries_of(accepted(e.reader_sync, a))
            + deliveries_of(accepted(e.ingest(a).reader_sync, b)),
{
    lemma_reader_sync_concat(e.reader_sync, a, b);
    lemma_dispatch_concat(
        e.writer_sync,
        accepted(e.reader_sync, a),
        accepted(reader_sync_after(e.reader_sync, a), b),
    );
}

/// What `deliveries` hold for `connection`, in order of delivery: what the
/// registry hands to the channel of that connection.
pub open spec fn routed_to(connection: u64, deliveries: Seq<(u64, ReaderDataView)>) -> Seq<
    ReaderDataView,
>
    decreases deliveries.len(),
{
    if deliveries.len() == 0 {
        Seq::empty()
    } else {
        let before = routed_to(connection, deliveries.drop_last());
        if deliveries.last().0 == connection {
            before.push(deliveries.last().1)
        } else {
            before
        }
    }
}

/// The bytes of a sequence of chunks, one chunk after the other.
pub open spec fn chunk_bytes(chunks: Seq<Seq<u8>>) -> Seq<u8>
    decreases chunks.len(),
{
    if chunks.len() == 0 {
        Seq::empty()
    } else {
        chunk_bytes(chunks.drop_last()) + chunks.last()
    }
}

/// The chunks that a connection writes to its socket, taken together, are
/// the bytes that the engine delivered for it, in the order of delivery.
pub proof fn lemma_written_bytes(connection: u64, deliveries: Seq<(u64, ReaderDataView)>)
    ensures
        chunk_bytes(data_chunks(routed_to(connection, deliveries))) == delivered_bytes(
            connection,
            deliveries,
        ),
    decreases deliveries.len(),
{
    if deliveries.len() > 0 {
        let init = deliveries.drop_last();
        lemma_written_bytes(connection, init);
        let routed = routed_to(connection, init);
        match deliveries.last() {
            (c, ReaderDataView::Data(data)) => {
                if c == connection {
                    let item = ReaderDataView::Data(data);
                    assert(routed.push(item).drop_last() =~= routed);
                    assert(data_chunks(routed).push(data).drop_last() =~= data_chunks(routed));
                }
            },
            (c, ReaderDataView::Disconnect) => {
                if c == connection {
                    assert(routed.push(ReaderDataView::Disconnect).drop_last() =~= routed);
                }
            },
        }
    }
}

/// What one iteration hands to the engine: what the inbound mailbox held and
/// what the local connections submitted.
pub struct Iteration {
    pub msgs: Seq<MessageView>,
    pub batch: Seq<PayloadView>,
}

/// The messages that an iteration appends to the outbound log: the
/// acknowledgment, if one is owed, and then the submissions in their order.
pub open spec fn appended(e: EngineView, step: Iteration) -> Seq<MessageView> {
    let read = e.ingest(step.msgs);
    if read.owes_sync(e.reader_sync) {
        seq![
            MessageView {
                id: e.next_id,
                payload: PayloadView::Sync(SYNC_CONNECTION, read.reader_sync),
            },
        ] + stamped(e.next_id + 1, step.batch)
    } else {
        stamped(e.next_id, step.batch)
    }
}

/// The state after a run of iterations.
pub open spec fn run(e: EngineView, steps: Seq<Iteration>) -> EngineView
    decreases steps.len(),
{
    if steps.len() == 0 {
        e
    } else {
        run(e, steps.drop_last()).poll(steps.last().msgs, steps.last().batch)
    }
}

/// All that a run of iterations appends to the outbound log, in order,
/// whether it was pruned since or not.
pub open spec fn history(e: EngineView, steps: Seq<Iteration>) -> Seq<MessageView>
    decreases steps.len(),
{
    if steps.len() == 0 {
        Seq::empty()
    } else {
        history(e, steps.drop_last()) + appended(run(e, steps.drop_last()), steps.last())
    }
}

/// After an iteration the outbound log is what pruning left of it, followed
/// by what the iteration appended.
pub proof fn lemma_poll_appends(e: EngineView, step: Iteration)
    ensures
        e.poll(step.msgs, step.batch).log == e.ingest(step.msgs).prune(e.writer_sync).log
            + appended(e, step),
        e.poll(step.msgs, step.batch).next_id == e.next_id + appended(e, step).len(),
        forall|i: int|
            0 <= i < appended(e, step).len() ==> (#[trigger] appended(e, step)[i]).id == e.next_id
                + i,
{
    let read = e.ingest(step.msgs);
    let pruned = read.prune(e.writer_sync);
    if read.owes_sync(e.reader_sync) {
        assert(pruned.owes_sync(e.reader_sync));
        let sync = MessageView {
            id: e.next_id,
            payload: PayloadView::Sync(SYNC_CONNECTION, read.reader_sync),
        };
        assert(pruned.log.push(sync) + stamped(e.next_id + 1, step.batch) =~= pruned.log + (
        seq![sync] + stamped(e.next_id + 1, step.batch)));
    } else {
        assert(!pruned.owes_sync(e.reader_sync));
    }
}

/// Over any run of iterations, whatever the inbound mailbox holds in between,
/// every message that is appended gets the id that follows the one before
/// it: the ids grow strictly, leave no gap, and none is given out twice.
pub proof fn lemma_run_ids(e: EngineView, steps: Seq<Iteration>)
    ensures
        run(e, steps).next_id == e.next_id + history(e, steps).len(),
        forall|i: int|
            0 <= i < history(e, steps).len() ==> (#[trigger] history(e, steps)[i]).id == e.next_id
                + i,
        strictly_increasing(history(e, steps)),
    decreases steps.len(),
{
    if steps.len() > 0 {
        let init = steps.drop_last();
        lemma_run_ids(e, init);
        let before = run(e, init);
        lemma_poll_appends(before, steps.last());
        let h = history(e, steps);
        let h0 = history(e, init);
        let new = appended(before, steps.last());
        assert forall|i: int| 0 <= i < h.len() implies (#[trigger] h[i]).id == e.next_id + i by {
            if i < h0.len() {
                assert(h[i] == h0[i]);
            } else {
                assert(h[i] == new[i - h0.len()]);
            }
        }
    }
    let h = history(e, steps);
    assert forall|i: int, j: int| 0 <= i < j < h.len() implies (#[trigger] h[i]).id < (
    #[trigger] h[j]).id by {}
}

/// The submissions of a run keep their order in what is appended: each
/// iteration's submissions stand, whole and in order, at the end of what the
/// run has appended so far.
pub proof fn lemma_run_keeps_submissions(e: EngineView, steps: Seq<Iteration>)
    requires
        steps.len() > 0,
    ensures
        ({
            let h = history(e, steps);
            let batch = steps.last().batch;
            &&& h.len() >= batch.len()
            &&& forall|k: int|
                0 <= k < batch.len() ==> (#[trigger] h[h.len() - batch.len() + k]).payload
                    == batch[k]
        }),
{
    let before = run(e, steps.drop_last());
    let new = appended(before, steps.last());
    let h = history(e, steps);
    let batch = steps.last().batch;
    assert forall|k: int| 0 <= k < batch.len() implies (#[trigger] h[h.len() - batch.len()
        + k]).payload == batch[k] by {
        assert(h[h.len() - batch.len() + k] == new[new.len() - batch.len() + k]);
    }
}

/// What a connection forwards to the tunnel over a run of attempts to read
/// from its socket, in order.
pub open spec fn reads_forwarded(c: ConnectionView, reads: Seq<SocketReadView>) -> Seq<PayloadView>
    decreases reads.len(),
{
    if reads.len() == 0 {
        Seq::empty()
    } else {
        let rest = reads_forwarded(c.after_read(reads[0]), reads.drop_first());
        match c.forwards(reads[0]) {
            Some(data) => seq![data] + rest,
            None => rest,
        }
    }
}

/// The chunks that a run of attempts to read brought before the first one
/// that ends the relay loop, in order. A timeout brings nothing.
pub open spec fn chunks_read(reads: Seq<SocketReadView>) -> Seq<Seq<u8>>
    decreases reads.len(),
{
    if reads.len() == 0 || ends_relay(reads[0]) {
        Seq::empty()
    } else {
        let rest = chunks_read(reads.drop_first());
        match reads[0] {
            SocketReadView::Read(bytes) => seq![bytes] + rest,
            _ => rest,
        }
    }
}

/// The chunks as data of the connection `id`.
pub open spec fn as_data(id: u64, chunks: Seq<Seq<u8>>) -> Seq<PayloadView> {
    chunks.map_values(|bytes: Seq<u8>| PayloadView::Data(id, bytes))
}

/// Over any run of attempts to read from its socket, a running connection
/// forwards exactly the chunks that were read before the relay loop ended,
/// each once, whole, in the order of reading and as data of this connection;
/// a connection that is not running forwards nothing.
pub proof fn lemma_reads_forwarded_in_order(c: ConnectionView, reads: Seq<SocketReadView>)
    ensures
        c.phase == Phase::Running ==> reads_forwarded(c, reads) == as_data(
            c.id,
            chunks_read(reads),
        ),
        c.phase != Phase::Running ==> reads_forwarded(c, reads) == Seq::<PayloadView>::empty(),
    decreases reads.len(),
{
    if reads.len() == 0 {
        assert(as_data(c.id, chunks_read(reads)) =~= Seq::<PayloadView>::empty());
    } else {
        let next = c.after_read(reads[0]);
        lemma_reads_forwarded_in_order(next, reads.drop_first());
        if c.phase == Phase::Running {
            let rest = chunks_read(reads.drop_first());
            if ends_relay(reads[0]) {
                assert(as_data(c.id, chunks_read(reads)) =~= Seq::<PayloadView>::empty());
            } else {
                match reads[0] {
                    SocketReadView::Read(bytes) => {
                        assert(as_data(c.id, seq![bytes] + rest) =~= seq![
                            PayloadView::Data(c.id, bytes),
                        ] + as_data(c.id, rest));
                    },
                    _ => {},
                }
            }
        }
    }
}

/// The bytes that a running connection forwards over a run of attempts to
/// read are the bytes read before the relay loop ended, in the order of
/// reading: nothing is lost, doubled or moved.
pub proof fn lemma_forwarded_bytes(c: ConnectionView, reads: Seq<SocketReadView>)
    requires
        c.phase == Phase::Running,
    ensures
        submitted_bytes(c.id, reads_forwarded(c, reads)) == chunk_bytes(chunks_read(reads)),
{
    lemma_reads_forwarded_in_order(c, reads);
    lemma_data_bytes(c.id, chunks_read(reads));
}

/// The bytes submitted for a connection by a run of its own data are the
/// bytes of the chunks, one after the other.
pub proof fn lemma_data_bytes(id: u64, chunks: Seq<Seq<u8>>)
    ensures
        submitted_bytes(id, as_data(id, chunks)) == chunk_bytes(chunks),
    decreases chunks.len(),
{
    if chunks.len() > 0 {
        lemma_data_bytes(id, chunks.drop_last());
        assert(as_data(id, chunks).drop_last() =~= as_data(id, chunks.drop_last()));
        assert(as_data(id, chunks).last() == PayloadView::Data(id, chunks.last()));
    } else {
        assert(as_data(id, chunks) =~= Seq::<PayloadView>::empty());
    }
}

} // verus!
