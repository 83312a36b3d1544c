//! The records the durable store keeps, and the conversions between them
//! and the live data types.  The store assigns its own row identifiers;
//! these records carry everything the coordinator decides.

use vstd::prelude::*;
use crate::model::{Message, PrivateMessageReq};

verus! {

/// A stored socket-to-name binding.
#[derive(Clone, Debug)]
pub struct SocketCollection {
    pub socket: String,
    pub username: String,
    pub created_at: i64,
    pub updated_at: i64,
}

/// A stored chat-room message.
#[derive(Clone, Debug)]
pub struct MessageCollection {
    pub room: String,
    pub sender: String,
    pub message: String,
    pub created_at: i64,
    pub updated_at: i64,
}

/// A stored private message.
#[derive(Clone, Debug)]
pub struct PrivateMessageCollection {
    pub sender: String,
    pub receiver: String,
    pub message: String,
    pub updated_at: i64,
    pub created_at: i64,
}

/// The row to store for a message: its creation time is the message's own
/// timestamp, its update time the moment of writing.
pub fn message_to_doc(message: &Message, now: i64) -> (r: MessageCollection)
    ensures
        r.sender@ == message.sender@,
        r.room@ == message.room@,
        r.message@ == message.message@,
        r.created_at == message.date_time,
        r.updated_at == now,
{
    MessageCollection {
        room: message.room.clone(),
        sender: message.sender.clone(),
        message: message.message.clone(),
        created_at: message.date_time,
        updated_at: now,
    }
}

/// The live message a stored row describes.
pub fn doc_to_message(doc: &MessageCollection) -> (r: Message)
    ensures
        r.sender@ == doc.sender@,
        r.room@ == doc.room@,
        r.message@ == doc.message@,
        r.date_time == doc.created_at,
{
    Message {
        sender: doc.sender.clone(),
        room: doc.room.clone(),
        message: doc.message.clone(),
        date_time: doc.created_at,
    }
}

/// The row to store for a private message; a request that names no sender
/// is stored with an empty one.
pub fn private_message_record(req: &PrivateMessageReq, now: i64) -> (r: PrivateMessageCollection)
    ensures
        r.sender@ == match req.sender {
            Some(s) => s@,
            None => Seq::<char>::empty(),
        },
        r.message@ == req.message@,
        r.receiver@ == req.receiver@,
        r.created_at == now,
        r.updated_at == now,
{
    let sender: String = match &req.sender {
        Some(s) => s.clone(),
        None => String::new(),
    };
    PrivateMessageCollection {
        sender,
        receiver: req.receiver.clone(),
        message: req.message.clone(),
        updated_at: now,
        created_at: now,
    }
}

/// The row to store when a connection is bound to its generated name.
pub fn socket_binding(username: &String, socket: &String, now: i64) -> (r: SocketCollection)
    ensures
        r.socket@ == socket@,
        r.username@ == username@,
        r.created_at == now,
        r.updated_at == now,
{
    SocketCollection {
        socket: socket.clone(),
        username: username.clone(),
        created_at: now,
        updated_at: now,
    }
}

} // verus!
