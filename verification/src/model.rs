//! Plain data carried between the transport layer, the coordinator and the
//! durable store.  Timestamps are integer milliseconds since the Unix epoch,
//! so that every field is a value Verus can reason about directly.

use vstd::prelude::*;

verus! {

/// An inbound room-scoped event: who sent it, for which room, and the body.
#[derive(Clone, Debug)]
pub struct GeneralRequest {
    pub sender: String,
    pub room: String,
    pub message: String,
}

/// The room-scoped reply fanned out to every member of the room.
#[derive(Clone, Debug)]
pub struct GeneralResponse {
    pub sender: String,
    pub room: String,
    pub message: String,
    pub date_time: i64,
}

/// A durable identity binding request: the user-chosen owned username and
/// the generated display name the connection currently carries.
#[derive(Clone, Debug)]
pub struct User {
    pub username: String,
    pub generated_username: String,
}

/// Answer to an existence check on an owned username.
#[derive(Clone, Debug)]
pub struct UserExists {
    pub exists: bool,
    pub username: String,
    pub generated_username: String,
}

/// The identity record as reported back to the client after a binding.
#[derive(Clone, Debug)]
pub struct UserResp {
    pub owned_uname: String,
    pub cur_gen_uname: String,
    pub updated_at: i64,
    pub created_at: i64,
}

/// A chat-room message.  Immutable once created; `date_time` is the
/// ordering key within a room.
#[derive(Clone, Debug)]
pub struct Message {
    pub sender: String,
    pub room: String,
    pub message: String,
    pub date_time: i64,
}

/// A batch of room messages handed back on joining a room, oldest first.
#[derive(Clone, Debug)]
pub struct Messages {
    pub messages: Vec<Message>,
}

/// A private point-to-point message.
#[derive(Clone, Debug)]
pub struct PrivateMessage {
    pub sender: String,
    pub message: String,
    pub receiver: String,
    pub date_time: i64,
}

/// An inbound private-message event.  The sender may be left out, in which
/// case the invoking connection's display name is used.
#[derive(Clone, Debug)]
pub struct PrivateMessageReq {
    pub sender: Option<String>,
    pub message: String,
    pub receiver: String,
}

/// Paging parameters of a listing request; absent fields fall back to
/// defaults chosen by the caller.
#[derive(Clone, Debug)]
pub struct Filter {
    pub page: Option<usize>,
    pub limit: Option<usize>,
}

/// One row of the connection listing: a stored socket-to-name binding.
#[derive(Clone, Debug)]
pub struct SocketResponse {
    pub id: String,
    pub socket: String,
    pub username: String,
    pub created_at: i64,
    pub updated_at: i64,
}

/// One page of a listing, together with the paging bookkeeping.
#[derive(Clone, Debug)]
pub struct PaginationResponse<T> {
    pub data: Vec<T>,
    pub curr_page: i64,
    pub total_pages: i64,
    pub total_records: i64,
    pub next_page: Option<i64>,
    pub prev_page: Option<i64>,
}

/// Mathematical image of a [`Message`].
pub ghost struct MessageView {
    pub sender: Seq<char>,
    pub room: Seq<char>,
    pub message: Seq<char>,
    pub date_time: int,
}

impl View for Message {
    type V = MessageView;

    open spec fn view(&self) -> MessageView {
        MessageView {
            sender: self.sender@,
            room: self.room@,
            message: self.message@,
            date_time: self.date_time as int,
        }
    }
}

impl DeepView for Message {
    type V = MessageView;

    open spec fn deep_view(&self) -> MessageView {
        self.view()
    }
}

impl Message {
    /// An identical copy of the message.
    pub fn duplicate(&self) -> (r: Message)
        ensures
            r@ == self@,
    {
        Message {
            sender: self.sender.clone(),
            room: self.room.clone(),
            message: self.message.clone(),
            date_time: self.date_time,
        }
    }
}

/// Mathematical image of a [`PrivateMessage`].
pub ghost struct PrivateMessageView {
    pub sender: Seq<char>,
    pub message: Seq<char>,
    pub receiver: Seq<char>,
    pub date_time: int,
}

impl View for PrivateMessage {
    type V = PrivateMessageView;

    open spec fn view(&self) -> PrivateMessageView {
        PrivateMessageView {
            sender: self.sender@,
            message: self.message@,
            receiver: self.receiver@,
            date_time: self.date_time as int,
        }
    }
}

} // verus!
