//! The room message cache: a bounded, per-room buffer of the most recent
//! messages, written through on every accepted message and used as the
//! fallback when the durable store has no rows for a room.
//!
//! Each room holds its messages oldest first, capped at [`MESSAGE_LIMIT`];
//! appending to a full room drops the oldest message.

use vstd::prelude::*;
use crate::assoc::{distinct_keys, has_key, index_of_key, value_of, lemma_key_at, lemma_push_distinct, lemma_remove_distinct};
use crate::model::{Message, MessageView};

verus! {

/// How many messages a room keeps, and how many a read hands back: the
/// same window the durable store is queried with.
pub const MESSAGE_LIMIT: usize = 20;

pub struct RoomMessageCache {
    pub rooms: Vec<(String, Vec<Message>)>,
}

/// A room's messages after an append: the message goes to the newest end,
/// and a full room loses its oldest message.
pub open spec fn appended(s: Seq<MessageView>, m: MessageView) -> Seq<MessageView> {
    if s.len() < MESSAGE_LIMIT {
        s.push(m)
    } else {
        s.subrange(1, s.len() as int).push(m)
    }
}

/// What a read returns, oldest first: the store's rows (newest first, at
/// most [`MESSAGE_LIMIT`] of them) when it supplied any; the cached room
/// otherwise.
pub open spec fn read_view(cache: Seq<MessageView>, store: Option<Seq<MessageView>>) -> Seq<MessageView> {
    match store {
        Some(rows) => {
            if rows.len() > 0 {
                let k: int = if rows.len() > MESSAGE_LIMIT {
                    MESSAGE_LIMIT as int
                } else {
                    rows.len() as int
                };
                rows.subrange(0, k).reverse()
            } else {
                cache
            }
        },
        None => cache,
    }
}

/// The store's answer, at the level of views.
pub open spec fn rows_view(rows: Option<Vec<Message>>) -> Option<Seq<MessageView>> {
    match rows {
        Some(v) => Some(v.deep_view()),
        None => None,
    }
}

impl RoomMessageCache {
    /// The cache as a sequence of (room, messages oldest first) pairs.
    pub open spec fn entries_view(&self) -> Seq<(Seq<char>, Seq<MessageView>)> {
        self.rooms@.map_values(|e: (String, Vec<Message>)| (e.0@, e.1.deep_view()))
    }

    /// The cached messages of a room, oldest first.
    pub open spec fn messages_of(&self, room: Seq<char>) -> Seq<MessageView> {
        if has_key(self.entries_view(), room) {
            value_of(self.entries_view(), room)
        } else {
            Seq::empty()
        }
    }

    /// One entry per room, each within the recency cap.
    pub open spec fn wf(&self) -> bool {
        &&& distinct_keys(self.entries_view())
        &&& forall|i: int|
            0 <= i < self.entries_view().len()
                ==> (#[trigger] self.entries_view()[i]).1.len() <= MESSAGE_LIMIT
    }

    pub fn new() -> (r: RoomMessageCache)
        ensures
            r.wf(),
            forall|room: Seq<char>| #[trigger] r.messages_of(room) == Seq::<MessageView>::empty(),
    {
        let r = RoomMessageCache { rooms: Vec::new() };
        proof {
            assert(r.entries_view() =~= Seq::<(Seq<char>, Seq<MessageView>)>::empty());
            assert forall|room: Seq<char>| #[trigger] r.messages_of(room) == Seq::<MessageView>::empty() by {
                if has_key(r.entries_view(), room) {
                    let j = index_of_key(r.entries_view(), room);
                    assert(0 <= j < 0);
                }
            }
        }
        r
    }

    /// The index of the entry for `room`, if the room has cached messages.
    fn find(&self, room: &String) -> (r: Option<usize>)
        ensures
            match r {
                Some(i) => i < self.rooms.len() && self.entries_view()[i as int].0 == room@,
                None => !has_key(self.entries_view(), room@),
            },
    {
        let mut i: usize = 0;
        while i < self.rooms.len()
            invariant
                i <= self.rooms.len(),
                forall|j: int| 0 <= j < i ==> (#[trigger] self.entries_view()[j]).0 != room@,
            decreases self.rooms.len() - i,
        {
            if self.rooms[i].0 == *room {
                return Some(i);
            }
            i += 1;
        }
        proof {
            if has_key(self.entries_view(), room@) {
                let j = index_of_key(self.entries_view(), room@);
                assert(self.entries_view()[j].0 != room@);
            }
        }
        None
    }

    /// Insert a message at the newest end of the room, creating the room on
    /// its first message and dropping the oldest message of a full room.
    pub fn append(&mut self, room: &String, message: Message)
        requires
            old(self).wf(),
        ensures
            final(self).wf(),
            final(self).messages_of(room@) == appended(old(self).messages_of(room@), message@),
            forall|k: Seq<char>|
                k != room@ ==> #[trigger] final(self).messages_of(k) == old(self).messages_of(k),
    {
        let ghost m = self.entries_view();
        let ghost rm = room@;
        let ghost mv = message@;
        match self.find(room) {
            Some(i) => {
                proof {
                    lemma_key_at(m, i as int);
                }
                let ghost list0 = m[i as int].1;
                let mut entry = self.rooms.remove(i);
                if entry.1.len() == MESSAGE_LIMIT {
                    entry.1.remove(0);
                }
                entry.1.push(message);
                proof {
                    assert(entry.1.deep_view() =~= appended(list0, mv));
                }
                self.rooms.push(entry);
                proof {
                    let s1 = m.remove(i as int);
                    lemma_remove_distinct(m, i as int);
                    m.remove_ensures(i as int);
                    let t = self.entries_view();
                    assert(t =~= s1.push((rm, appended(list0, mv))));
                    lemma_push_distinct(s1, rm, appended(list0, mv));
                    assert forall|q: int| 0 <= q < t.len() implies (#[trigger] t[q]).1.len()
                        <= MESSAGE_LIMIT by {
                        if q < s1.len() {
                            assert(t[q] == s1[q]);
                            let q0: int = if q < i as int { q } else { q + 1 };
                            assert(s1[q] == m[q0]);
                        }
                    }
                    assert forall|k: Seq<char>| k != rm implies #[trigger] final(self).messages_of(k)
                        == old(self).messages_of(k) by {
                        assert(has_key(t, k) == has_key(s1, k));
                        assert(has_key(s1, k) == has_key(m, k));
                        if has_key(m, k) {
                            assert(value_of(s1, k) == value_of(m, k));
                            assert(value_of(t, k) == value_of(s1, k));
                        }
                    }
                }
            },
            None => {
                let mut list: Vec<Message> = Vec::new();
                list.push(message);
                proof {
                    assert(list.deep_view() =~= appended(Seq::empty(), mv));
                }
                self.rooms.push((room.clone(), list));
                proof {
                    let t = self.entries_view();
                    assert(t =~= m.push((rm, appended(Seq::empty(), mv))));
                    lemma_push_distinct(m, rm, appended(Seq::empty(), mv));
                    assert forall|q: int| 0 <= q < t.len() implies (#[trigger] t[q]).1.len()
                        <= MESSAGE_LIMIT by {
                        if q < m.len() {
                            assert(t[q] == m[q]);
                        }
                    }
                    assert forall|k: Seq<char>| k != rm implies #[trigger] final(self).messages_of(k)
                        == old(self).messages_of(k) by {
                        assert(has_key(t, k) == has_key(m, k));
                        if has_key(m, k) {
                            assert(value_of(t, k) == value_of(m, k));
                        }
                    }
                }
            },
        }
    }

    /// A copy of the cached messages of a room, oldest first.
    pub fn history(&self, room: &String) -> (out: Vec<Message>)
        requires
            self.wf(),
        ensures
            out.deep_view() == self.messages_of(room@),
    {
        match self.find(room) {
            Some(i) => {
                proof {
                    lemma_key_at(self.entries_view(), i as int);
                }
                let list = &self.rooms[i].1;
                let mut out: Vec<Message> = Vec::new();
                let mut p: usize = 0;
                while p < list.len()
                    invariant
                        p <= list.len(),
                        out.len() == p,
                        forall|q: int| 0 <= q < p ==> out[q]@ == (#[trigger] list.deep_view()[q]),
                    decreases list.len() - p,
                {
                    out.push(list[p].duplicate());
                    p += 1;
                }
                proof {
                    assert(out.deep_view() =~= list.deep_view());
                }
                out
            },
            None => {
                let out: Vec<Message> = Vec::new();
                proof {
                    assert(out.deep_view() =~= Seq::<MessageView>::empty());
                }
                out
            },
        }
    }

    /// Read a room's history, oldest first: the durable store's rows
    /// (newest first) win when it returned any; otherwise the cache
    /// supplies the fallback.  At most [`MESSAGE_LIMIT`] messages come
    /// back.
    pub fn read(&self, room: &String, store_rows: Option<Vec<Message>>) -> (out: Vec<Message>)
        requires
            self.wf(),
        ensures
            out.deep_view() == read_view(self.messages_of(room@), rows_view(store_rows)),
    {
        match store_rows {
            Some(rows) => {
                if rows.len() > 0 {
                    let k: usize = if rows.len() > MESSAGE_LIMIT {
                        MESSAGE_LIMIT
                    } else {
                        rows.len()
                    };
                    let mut out: Vec<Message> = Vec::new();
                    let mut p: usize = 0;
                    while p < k
                        invariant
                            p <= k,
                            k <= rows.len(),
                            out.len() == p,
                            forall|q: int|
                                0 <= q < p ==> out[q]@ == (#[trigger] rows.deep_view()[k - 1 - q]),
                        decreases k - p,
                    {
                        out.push(rows[k - 1 - p].duplicate());
                        p += 1;
                    }
                    proof {
                        assert(out.deep_view() =~= rows.deep_view().subrange(0, k as int).reverse());
                    }
                    out
                } else {
                    self.history(room)
                }
            },
            None => self.history(room),
        }
    }
}

/// Appending first one message and then a second leaves them adjacent at
/// the newest end: a read of the room sees the first immediately before
/// the second, oldest first.
pub proof fn lemma_append_order(s: Seq<MessageView>, m1: MessageView, m2: MessageView)
    ensures
        appended(appended(s, m1), m2).len() >= 2,
        appended(appended(s, m1), m2)[appended(appended(s, m1), m2).len() - 1] == m2,
        appended(appended(s, m1), m2)[appended(appended(s, m1), m2).len() - 2] == m1,
        read_view(appended(appended(s, m1), m2), None) == appended(appended(s, m1), m2),
{
    let s1 = appended(s, m1);
    assert(s1[s1.len() - 1] == m1);
    let s2 = appended(s1, m2);
    assert(s2[s2.len() - 1] == m2);
    if s1.len() < MESSAGE_LIMIT {
        assert(s2[s2.len() - 2] == s1[s1.len() - 1]);
    } else {
        assert(s2[s2.len() - 2] == s1.subrange(1, s1.len() as int)[s1.len() - 2]);
    }
}

/// A message among the rows the durable store returned is in what a read
/// of that room returns, whatever the cache holds: a message once
/// persisted stays retrievable while the store keeps it within the
/// recency window.
pub proof fn lemma_read_from_store(cache: Seq<MessageView>, rows: Seq<MessageView>, m: MessageView)
    requires
        0 < rows.len() <= MESSAGE_LIMIT,
        rows.contains(m),
    ensures
        read_view(cache, Some(rows)).contains(m),
{
    let q = choose|q: int| 0 <= q < rows.len() && rows[q] == m;
    let out = read_view(cache, Some(rows));
    assert(rows.subrange(0, rows.len() as int) =~= rows);
    assert(out[rows.len() - 1 - q] == m);
    assert(out.contains(m));
}

} // verus!
