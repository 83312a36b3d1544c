//! The session coordinator: the one shared object behind every
//! connection-event handler.  It owns the connection registry, the room
//! membership table and the room message cache; the durable store is
//! consulted by the surrounding program, which hands its answers in and
//! carries the coordinator's decisions out.

use vstd::prelude::*;
use crate::cache::{RoomMessageCache, appended, read_view, rows_view};
use crate::clock::now_millis;
use crate::db_model::PrivateMessageCollection;
use crate::errors::MyError;
use crate::identity;
use crate::identity::{UserCollection, bind_spec};
use crate::model::{GeneralRequest, GeneralResponse, Message, Messages, PrivateMessage, PrivateMessageReq, User, UserResp};
use crate::namegen::generate_name;
use crate::registry::ConnectionRegistry;
use crate::rooms::{RoomMembership, join_view};

verus! {

/// How many draws a connect makes before giving the name space up as
/// exhausted.
pub const NAME_ATTEMPTS: usize = 16;

pub struct SocketState {
    pub registry: ConnectionRegistry,
    pub rooms: RoomMembership,
    pub messages: RoomMessageCache,
}

impl SocketState {
    pub open spec fn wf(&self) -> bool {
        &&& self.registry.wf()
        &&& self.rooms.wf()
        &&& self.messages.wf()
    }

    pub fn new() -> (r: SocketState)
        ensures
            r.wf(),
            r.registry.entries_view() == Seq::<(Seq<char>, Seq<char>)>::empty(),
            r.rooms.entries_view() == Seq::<(Seq<char>, Seq<Seq<char>>)>::empty(),
            forall|room: Seq<char>|
                #[trigger] r.messages.messages_of(room) == Seq::<crate::model::MessageView>::empty(),
    {
        SocketState {
            registry: ConnectionRegistry::new(),
            rooms: RoomMembership::new(),
            messages: RoomMessageCache::new(),
        }
    }

    /// A fresh connection arrives: draw generated names until one is free,
    /// bind the connection to it, and put the connection in its identity
    /// room.  The name comes back for the caller to store and announce;
    /// nothing changes when the draws are exhausted.  The draws are
    /// random, so success cannot be promised unconditionally — but a draw
    /// can only collide with a registered name, so against an empty
    /// registry a connect always assigns a name.
    pub fn on_connect(&mut self, conn_id: &String) -> (r: Option<String>)
        requires
            old(self).wf(),
            !old(self).registry.has_conn(conn_id@),
        ensures
            final(self).wf(),
            final(self).messages == old(self).messages,
            old(self).registry.entries_view().len() == 0 ==> r is Some,
            match r {
                Some(name) => {
                    &&& !old(self).registry.uses_name(name@)
                    &&& final(self).registry.entries_view() == old(self).registry.entries_view().push(
                        (conn_id@, name@),
                    )
                    &&& final(self).registry.has_conn(conn_id@)
                    &&& final(self).registry.name_of(conn_id@) == name@
                    &&& final(self).rooms.entries_view() == join_view(
                        old(self).rooms.entries_view(),
                        conn_id@,
                        name@,
                        name@,
                    )
                    &&& forall|rm: Seq<char>|
                        #[trigger] final(self).rooms.is_member(conn_id@, rm) <==> rm == name@
                    &&& forall|k: Seq<char>|
                        k != conn_id@ ==> #[trigger] final(self).rooms.rooms_of(k) == old(self).rooms.rooms_of(k)
                },
                None => *final(self) == *old(self),
            },
    {
        let mut attempts: usize = 0;
        while attempts < NAME_ATTEMPTS
            invariant
                *self == *old(self),
                old(self).wf(),
                !old(self).registry.has_conn(conn_id@),
                attempts > 0 ==> old(self).registry.entries_view().len() > 0,
            decreases NAME_ATTEMPTS - attempts,
        {
            let candidate = generate_name();
            match candidate {
                Some(name) => {
                    if !self.registry.contains_name(&name) {
                        self.registry.register(conn_id.clone(), name.clone());
                        self.rooms.join(conn_id, &name, &name);
                        return Some(name);
                    }
                },
                None => {},
            }
            attempts += 1;
        }
        None
    }

    /// Bind the owned username named in `user` to its generated display
    /// name, given the record the store holds for it, and put the
    /// connection in its owned identity room.  The first component of the
    /// result is the record for the store to hold; the second is the
    /// answer for the client.
    pub fn handle_user(&mut self, conn_id: &String, user: &User, existing: Option<&UserCollection>) -> (r: (
        UserCollection,
        UserResp,
    ))
        requires
            old(self).wf(),
            match existing {
                Some(e) => e.owned_uname@ == user.username@,
                None => true,
            },
        ensures
            final(self).wf(),
            final(self).registry == old(self).registry,
            final(self).messages == old(self).messages,
            r.0@ == bind_spec(
                match existing {
                    Some(e) => Some(e@),
                    None => None,
                },
                user.username@,
                user.generated_username@,
                r.0.updated_at as int,
            ),
            r.1.owned_uname@ == r.0.owned_uname@,
            r.1.cur_gen_uname@ == r.0.cur_gen_uname@,
            r.1.updated_at == r.0.updated_at,
            r.1.created_at == r.0.created_at,
            final(self).rooms.entries_view() == join_view(
                old(self).rooms.entries_view(),
                conn_id@,
                user.username@,
                user.generated_username@,
            ),
            final(self).rooms.is_member(conn_id@, user.username@),
            forall|rm: Seq<char>|
                #[trigger] final(self).rooms.is_member(conn_id@, rm) <==> (rm == user.username@ || (
                rm == user.generated_username@ && old(self).rooms.is_member(conn_id@, rm))),
            forall|k: Seq<char>|
                k != conn_id@ ==> #[trigger] final(self).rooms.rooms_of(k) == old(self).rooms.rooms_of(k),
    {
        let now = now_millis();
        let rec = identity::handle_user(existing, user, now);
        let resp = identity::to_user_resp(&rec);
        self.rooms.join(conn_id, &user.username, &user.generated_username);
        (rec, resp)
    }

    /// A connection joins a conversation room: it leaves every room but
    /// its identity room (named by the event's sender), enters the room,
    /// and gets the room's history back, oldest first.  A connection that
    /// was never assigned a display name is rejected.
    pub fn handle_join_room(&mut self, conn_id: &String, req: &GeneralRequest, store_rows: Option<Vec<Message>>) -> (r:
        Result<Messages, MyError>)
        requires
            old(self).wf(),
        ensures
            final(self).wf(),
            final(self).registry == old(self).registry,
            final(self).messages == old(self).messages,
            match r {
                Ok(msgs) => {
                    &&& old(self).registry.has_conn(conn_id@)
                    &&& msgs.messages.deep_view() == read_view(
                        old(self).messages.messages_of(req.room@),
                        rows_view(store_rows),
                    )
                    &&& final(self).rooms.entries_view() == join_view(
                        old(self).rooms.entries_view(),
                        conn_id@,
                        req.room@,
                        req.sender@,
                    )
                    &&& final(self).rooms.is_member(conn_id@, req.room@)
                    &&& forall|rm: Seq<char>|
                        #[trigger] final(self).rooms.is_member(conn_id@, rm) <==> (rm == req.room@
                            || (rm == req.sender@ && old(self).rooms.is_member(conn_id@, rm)))
                    &&& forall|k: Seq<char>|
                        k != conn_id@ ==> #[trigger] final(self).rooms.rooms_of(k) == old(self).rooms.rooms_of(k)
                },
                Err(e) => {
                    &&& e == MyError::NotFound
                    &&& !old(self).registry.has_conn(conn_id@)
                    &&& *final(self) == *old(self)
                },
            },
    {
        if !self.registry.contains_conn(conn_id) {
            return Err(MyError::NotFound);
        }
        self.rooms.join(conn_id, &req.room, &req.sender);
        let history = self.messages.read(&req.room, store_rows);
        Ok(Messages { messages: history })
    }

    /// Push a message onto the room's cache; the caller then writes it
    /// through to the durable store.  The in-memory append stands whether
    /// or not that write succeeds.
    pub fn insert(&mut self, room: &String, message: Message)
        requires
            old(self).wf(),
        ensures
            final(self).wf(),
            final(self).registry == old(self).registry,
            final(self).rooms == old(self).rooms,
            final(self).messages.messages_of(room@) == appended(
                old(self).messages.messages_of(room@),
                message@,
            ),
            forall|k: Seq<char>|
                k != room@ ==> #[trigger] final(self).messages.messages_of(k) == old(self).messages.messages_of(k),
    {
        self.messages.append(room, message);
    }

    /// A room message arrives: stamp it, cache it, and hand back the
    /// message for the store together with the response to fan out to the
    /// room.
    pub fn handle_message(&mut self, req: &GeneralRequest) -> (r: (Message, GeneralResponse))
        requires
            old(self).wf(),
        ensures
            final(self).wf(),
            final(self).registry == old(self).registry,
            final(self).rooms == old(self).rooms,
            r.0.sender@ == req.sender@,
            r.0.room@ == req.room@,
            r.0.message@ == req.message@,
            r.1.sender@ == req.sender@,
            r.1.room@ == req.room@,
            r.1.message@ == req.message@,
            r.1.date_time == r.0.date_time,
            final(self).messages.messages_of(req.room@) == appended(
                old(self).messages.messages_of(req.room@),
                r.0@,
            ),
            forall|k: Seq<char>|
                k != req.room@ ==> #[trigger] final(self).messages.messages_of(k) == old(self).messages.messages_of(k),
    {
        let now = now_millis();
        let message = Message {
            sender: req.sender.clone(),
            room: req.room.clone(),
            message: req.message.clone(),
            date_time: now,
        };
        let response = GeneralResponse {
            sender: req.sender.clone(),
            room: req.room.clone(),
            message: req.message.clone(),
            date_time: now,
        };
        let copy = message.duplicate();
        self.insert(&req.room, copy);
        (message, response)
    }

    /// A room's history, oldest first: the durable store's rows win when
    /// it returned any; only an empty or failed store read falls back to
    /// the cache.
    pub fn get_messages(&self, room: &String, store_rows: Option<Vec<Message>>) -> (out: Vec<Message>)
        requires
            self.wf(),
        ensures
            out.deep_view() == read_view(self.messages.messages_of(room@), rows_view(store_rows)),
    {
        self.messages.read(room, store_rows)
    }

    /// A private message arrives: fill in the sender (the connection's
    /// display name when the event names none) and collect the connections
    /// sitting in the receiver's identity room.  An anonymous private
    /// message from an unregistered connection is rejected.
    pub fn handle_private(&self, conn_id: &String, req: &PrivateMessageReq) -> (r: Result<
        (PrivateMessageReq, Vec<String>),
        MyError,
    >)
        requires
            self.wf(),
        ensures
            match r {
                Ok(pair) => {
                    &&& pair.0.message@ == req.message@
                    &&& pair.0.receiver@ == req.receiver@
                    &&& pair.0.sender is Some
                    &&& match req.sender {
                        Some(s) => pair.0.sender->Some_0@ == s@,
                        None => self.registry.has_conn(conn_id@) && pair.0.sender->Some_0@
                            == self.registry.name_of(conn_id@),
                    }
                    &&& forall|p: int|
                        0 <= p < pair.1.len() ==> self.rooms.is_member(
                            #[trigger] pair.1[p]@,
                            req.receiver@,
                        )
                    &&& forall|k: Seq<char>|
                        #[trigger] self.rooms.is_member(k, req.receiver@) ==> exists|p: int|
                            0 <= p < pair.1.len() && pair.1[p]@ == k
                },
                Err(e) => {
                    &&& e == MyError::NotFound
                    &&& req.sender is None
                    &&& !self.registry.has_conn(conn_id@)
                },
            },
    {
        let sender: String = match &req.sender {
            Some(s) => s.clone(),
            None => {
                match self.registry.lookup(conn_id) {
                    Some(n) => n,
                    None => {
                        return Err(MyError::NotFound);
                    },
                }
            },
        };
        let filled = PrivateMessageReq {
            sender: Some(sender),
            message: req.message.clone(),
            receiver: req.receiver.clone(),
        };
        let targets = self.rooms.members_of(&req.receiver);
        let out = (filled, targets);
        proof {
            assert(out.1 == targets);
            assert forall|k: Seq<char>| #[trigger] self.rooms.is_member(k, req.receiver@)
                implies exists|p: int| 0 <= p < out.1.len() && out.1[p]@ == k by {
                assert(exists|p: int| 0 <= p < targets.len() && targets[p]@ == k);
                let p = choose|p: int| 0 <= p < targets.len() && targets[p]@ == k;
                assert(0 <= p < out.1.len() && out.1[p]@ == k);
            }
        }
        Ok(out)
    }

    /// The delivered private message: the stored record when the write
    /// succeeded, and otherwise a sentinel telling the receiver that a
    /// message was not sent — delivery is preferred over strict error
    /// propagation.
    pub fn insert_private_messages(&self, persisted: Result<PrivateMessageCollection, MyError>) -> (r:
        PrivateMessage)
        ensures
            match persisted {
                Ok(rec) => r.sender@ == rec.sender@ && r.message@ == rec.message@ && r.receiver@
                    == rec.receiver@ && r.date_time == rec.created_at,
                Err(_) => r.sender@ == Seq::<char>::empty() && r.receiver@ == Seq::<char>::empty()
                    && r.message@ == "Error: Message not sent!"@,
            },
    {
        match persisted {
            Ok(rec) => PrivateMessage {
                sender: rec.sender,
                message: rec.message,
                receiver: rec.receiver,
                date_time: rec.created_at,
            },
            Err(_) => {
                let now = now_millis();
                PrivateMessage {
                    sender: String::new(),
                    message: "Error: Message not sent!".to_string(),
                    receiver: String::new(),
                    date_time: now,
                }
            },
        }
    }

    /// Remove the connection from every room except `room_to_stay`, its
    /// identity room.
    pub fn leave_all_expect_one(&mut self, conn_id: &String, room_to_stay: &String)
        requires
            old(self).wf(),
        ensures
            final(self).wf(),
            final(self).registry == old(self).registry,
            final(self).messages == old(self).messages,
            forall|rm: Seq<char>|
                #[trigger] final(self).rooms.is_member(conn_id@, rm) <==> (rm == room_to_stay@
                    && old(self).rooms.is_member(conn_id@, rm)),
            forall|k: Seq<char>|
                k != conn_id@ ==> #[trigger] final(self).rooms.rooms_of(k) == old(self).rooms.rooms_of(k),
    {
        self.rooms.leave_all_expect_one(conn_id, room_to_stay);
    }

    /// The connection disconnects: its registry binding goes, it leaves
    /// every room, and the display name it held comes back so the caller
    /// can delete the stored binding and mark the identity offline.
    pub fn remove_socket(&mut self, conn_id: &String) -> (r: Option<String>)
        requires
            old(self).wf(),
        ensures
            final(self).wf(),
            final(self).messages == old(self).messages,
            match r {
                Some(n) => old(self).registry.has_conn(conn_id@) && n@ == old(self).registry.name_of(conn_id@),
                None => !old(self).registry.has_conn(conn_id@),
            },
            !final(self).registry.has_conn(conn_id@),
            forall|k: Seq<char>|
                k != conn_id@ ==> #[trigger] final(self).registry.has_conn(k) == old(self).registry.has_conn(k),
            forall|k: Seq<char>|
                k != conn_id@ && old(self).registry.has_conn(k) ==> #[trigger] final(self).registry.name_of(k) == old(self).registry.name_of(k),
            forall|rm: Seq<char>| !final(self).rooms.is_member(conn_id@, rm),
            forall|k: Seq<char>|
                k != conn_id@ ==> #[trigger] final(self).rooms.rooms_of(k) == old(self).rooms.rooms_of(k),
    {
        let name = self.registry.lookup(conn_id);
        self.registry.unregister(conn_id);
        self.rooms.leave_all(conn_id);
        name
    }
}

} // verus!
