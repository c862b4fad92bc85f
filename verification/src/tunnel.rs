//! What travels between the tunnel and the connections on either side of it.

use crate::messages;
use crate::messages::PayloadView;
use crate::unique_id::ID;
use vstd::prelude::*;

verus! {

/// Request to dial a target: connection id, address and port.
pub type NewConnection = (u64, String, u16);

/// Message is communication coming from and to the tunnel.
#[derive(Debug, Clone, PartialEq, Eq)]
pub enum Message {
    /// Connect to create a new connection to start the communication.
    Connect(ID, String),
    /// Disconnect to stop the communication.
    Disconnect(ID),
    /// Error message from connection.
    Error(ID, String),
    /// Data to pass is an arbitrary data over the communication.
    Data(ID, Vec<u8>),
}

impl Message {
    /// The connection that the message belongs to.
    pub open spec fn connection(&self) -> ID {
        match *self {
            Message::Connect(id, _) => id,
            Message::Disconnect(id) => id,
            Message::Error(id, _) => id,
            Message::Data(id, _) => id,
        }
    }

    /// Get the connection from the message.
    pub fn get_id(&self) -> (id: ID)
        ensures
            id == self.connection(),
    {
        match self {
            Message::Connect(id, _) => *id,
            Message::Disconnect(id) => *id,
            Message::Error(id, _) => *id,
            Message::Data(id, _) => *id,
        }
    }
}

/// What a connection hands to the tunnel for the peer.
#[derive(Debug, Clone, PartialEq, Eq)]
pub enum WriterData {
    /// A local connection was accepted: the peer is to dial `address:port`.
    Connect(u64, String, u16),
    /// The local connection is closed.
    Disconnect(u64),
    /// Bytes read from the local socket.
    Data(u64, Vec<u8>),
}

impl View for WriterData {
    type V = PayloadView;

    /// The payload that the submission becomes in the outbound log.
    open spec fn view(&self) -> PayloadView {
        match *self {
            WriterData::Connect(connection, address, port) => PayloadView::Connect(
                connection,
                address@,
                port,
            ),
            WriterData::Disconnect(connection) => PayloadView::Disconnect(connection),
            WriterData::Data(connection, data) => PayloadView::Data(connection, data@),
        }
    }
}

/// What the tunnel hands to one connection.
#[derive(Debug, Clone, PartialEq, Eq)]
pub enum ReaderData {
    /// The peer closed the connection.
    Disconnect,
    /// Bytes to write to the local socket.
    Data(Vec<u8>),
}

/// Mathematical value of a [`ReaderData`].
pub enum ReaderDataView {
    Disconnect,
    Data(Seq<u8>),
}

impl View for ReaderData {
    type V = ReaderDataView;

    open spec fn view(&self) -> ReaderDataView {
        match *self {
            ReaderData::Disconnect => ReaderDataView::Disconnect,
            ReaderData::Data(data) => ReaderDataView::Data(data@),
        }
    }
}

/// Result of one poll of the inbound mailbox.
#[derive(Debug, Clone, PartialEq, Eq)]
pub enum ReadCommand {
    /// The mailbox object is absent, or could not be read.
    NoFile,
    /// The log that the mailbox object holds.
    Read(Vec<messages::Message>),
}

/// What is to be done with the outbound mailbox at the end of an iteration.
#[derive(Debug, Clone, Copy, PartialEq, Eq, Structural)]
pub enum Publish {
    /// Leave the mailbox as it is.
    Nothing,
    /// Overwrite the mailbox object with the whole outbound log.
    Write,
    /// Remove the mailbox object.
    Delete,
}

/// The views of a sequence of submissions, in the same order.
pub open spec fn writer_view(batch: Seq<WriterData>) -> Seq<PayloadView> {
    batch.map_values(|w: WriterData| w@)
}

/// The views of a sequence of deliveries, in the same order.
pub open spec fn deliveries_view(deliveries: Seq<(u64, ReaderData)>) -> Seq<(u64, ReaderDataView)> {
    deliveries.map_values(|d: (u64, ReaderData)| (d.0, d.1@))
}

/// The views of a sequence of dial requests, in the same order.
pub open spec fn connections_view(connections: Seq<NewConnection>) -> Seq<(u64, Seq<char>, u16)> {
    connections.map_values(|c: NewConnection| (c.0, c.1@, c.2))
}

/// The messages that a sequence of polls brought, in the order of arrival. A
/// poll that found no mailbox object brought none.
pub open spec fn inbound_messages(commands: Seq<ReadCommand>) -> Seq<messages::MessageView>
    decreases commands.len(),
{
    if commands.len() == 0 {
        Seq::empty()
    } else {
        let before = inbound_messages(commands.drop_last());
        match commands.last() {
            ReadCommand::NoFile => before,
            ReadCommand::Read(stream) => before + messages::log_view(stream@),
        }
    }
}

} // verus!
