//! Records of the mailbox log and their mathematical views.

use vstd::prelude::*;

verus! {

/// Message payload.
#[derive(Debug, Clone, PartialEq, Eq)]
pub enum Payload {
    /// Request to dial `address:port` for a new connection with the given id.
    Connect(u64, String, u16),
    /// The connection with the given id is closed.
    Disconnect(u64),
    /// A chunk of bytes for the connection with the given id.
    Data(u64, Vec<u8>),
    /// Acknowledgment: every message up to and including the given message id
    /// has been processed by the sender of this payload.
    Sync(u64, usize),
}

/// One record of the mailbox log.
#[derive(Debug, Clone, PartialEq, Eq)]
pub struct Message {
    /// Sequence number of the record within its direction.
    pub id: usize,
    /// What the record carries.
    pub payload: Payload,
}

/// Mathematical value of a [`Payload`].
pub enum PayloadView {
    Connect(u64, Seq<char>, u16),
    Disconnect(u64),
    Data(u64, Seq<u8>),
    Sync(u64, nat),
}

/// Mathematical value of a [`Message`].
pub struct MessageView {
    pub id: nat,
    pub payload: PayloadView,
}

impl View for Payload {
    type V = PayloadView;

    open spec fn view(&self) -> PayloadView {
        match *self {
            Payload::Connect(connection, address, port) => PayloadView::Connect(
                connection,
                address@,
                port,
            ),
            Payload::Disconnect(connection) => PayloadView::Disconnect(connection),
            Payload::Data(connection, data) => PayloadView::Data(connection, data@),
            Payload::Sync(connection, last) => PayloadView::Sync(connection, last as nat),
        }
    }
}

impl View for Message {
    type V = MessageView;

    open spec fn view(&self) -> MessageView {
        MessageView { id: self.id as nat, payload: self.payload@ }
    }
}

/// The views of a sequence of messages, in the same order.
pub open spec fn log_view(log: Seq<Message>) -> Seq<MessageView> {
    log.map_values(|m: Message| m@)
}

/// Each id is one more than the id before it.
pub open spec fn consecutive(log: Seq<MessageView>) -> bool {
    forall|i: int| 0 <= i < log.len() ==> (#[trigger] log[i]).id == log[0].id + i
}

/// Ids grow strictly from the front of the log to its end.
pub open spec fn strictly_increasing(log: Seq<MessageView>) -> bool {
    forall|i: int, j: int| 0 <= i < j < log.len() ==> (#[trigger] log[i]).id < (#[trigger] log[j]).id
}

/// The entries whose id is greater than `bound`, in log order.
pub open spec fn newer_than(log: Seq<MessageView>, bound: nat) -> Seq<MessageView> {
    log.filter(|m: MessageView| m.id > bound)
}

/// Number of leading entries whose id is at most `bound`.
pub open spec fn acknowledged_prefix(log: Seq<MessageView>, bound: nat) -> nat
    decreases log.len(),
{
    if log.len() == 0 || log[0].id > bound {
        0
    } else {
        1 + acknowledged_prefix(log.drop_first(), bound)
    }
}

/// A log with consecutive ids has strictly increasing ids.
pub proof fn lemma_consecutive_increasing(log: Seq<MessageView>)
    requires
        consecutive(log),
    ensures
        strictly_increasing(log),
{
}

/// In a log with strictly increasing ids the entries newer than `bound` are
/// what is left when the acknowledged prefix is cut off.
pub proof fn lemma_newer_than_is_suffix(log: Seq<MessageView>, bound: nat)
    requires
        strictly_increasing(log),
    ensures
        acknowledged_prefix(log, bound) <= log.len(),
        newer_than(log, bound) == log.skip(acknowledged_prefix(log, bound) as int),
        forall|i: int|
            0 <= i < acknowledged_prefix(log, bound) ==> (#[trigger] log[i]).id <= bound,
        forall|i: int|
            acknowledged_prefix(log, bound) <= i < log.len() ==> (#[trigger] log[i]).id > bound,
    decreases log.len(),
{
    reveal(Seq::filter);
    let keep = |m: MessageView| m.id > bound;
    if log.len() == 0 {
        assert(log.filter(keep) =~= log.skip(0));
    } else if log[0].id > bound {
        lemma_filter_keeps_all(log, bound);
        assert(log.skip(0) =~= log);
    } else {
        let rest = log.drop_first();
        assert forall|i: int, j: int| 0 <= i < j < rest.len() implies (#[trigger] rest[i]).id < (
        #[trigger] rest[j]).id by {
            assert(rest[i] == log[i + 1]);
            assert(rest[j] == log[j + 1]);
        }
        lemma_newer_than_is_suffix(rest, bound);
        let k = acknowledged_prefix(rest, bound);
        lemma_filter_drop_first(log, bound);
        assert(rest.skip(k as int) =~= log.skip(k as int + 1));
        assert forall|i: int| 0 <= i < acknowledged_prefix(log, bound) implies (
        #[trigger] log[i]).id <= bound by {
            if i > 0 {
                assert(log[i] == rest[i - 1]);
            }
        }
        assert forall|i: int| acknowledged_prefix(log, bound) <= i < log.len() implies (
        #[trigger] log[i]).id > bound by {
            assert(log[i] == rest[i - 1]);
        }
    }
}

/// Where every id is greater than `bound`, nothing is filtered out.
pub proof fn lemma_filter_keeps_all(log: Seq<MessageView>, bound: nat)
    requires
        forall|i: int| 0 <= i < log.len() ==> (#[trigger] log[i]).id > bound,
    ensures
        newer_than(log, bound) == log,
    decreases log.len(),
{
    reveal(Seq::filter);
    if log.len() > 0 {
        lemma_filter_keeps_all(log.drop_last(), bound);
        assert(log.drop_last().push(log.last()) =~= log);
    }
}

/// Filtering a log whose first entry is not kept is filtering the rest.
pub proof fn lemma_filter_drop_first(log: Seq<MessageView>, bound: nat)
    requires
        log.len() > 0,
        log[0].id <= bound,
    ensures
        newer_than(log, bound) == newer_than(log.drop_first(), bound),
    decreases log.len(),
{
    reveal(Seq::filter);
    let keep = |m: MessageView| m.id > bound;
    if log.len() == 1 {
        assert(log.drop_last() =~= Seq::<MessageView>::empty());
        assert(log.drop_first() =~= Seq::<MessageView>::empty());
    } else {
        lemma_filter_drop_first(log.drop_last(), bound);
        assert(log.drop_last().drop_first() =~= log.drop_first().drop_last());
        assert(log.drop_first().last() == log.last());
    }
}

} // verus!
