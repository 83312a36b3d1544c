//! Room membership: which connections sit in which rooms.
//!
//! Every connection keeps a permanent identity room, named after its bound
//! identity and used for private-message delivery, and at most one
//! conversation room.  Joining a conversation room removes the connection
//! from every room except its identity room.

use vstd::prelude::*;
use crate::assoc::{distinct_keys, has_key, index_of_key, value_of, lemma_key_at, lemma_push_distinct, lemma_remove_distinct, lemma_update_distinct};

verus! {

pub struct RoomMembership {
    pub entries: Vec<(String, Vec<String>)>,
}

/// The rooms a connection occupies after a join: its identity room, when it
/// was already inside, and the joined room.
pub open spec fn joined_rooms(rooms: Seq<Seq<char>>, room: Seq<char>, identity: Seq<char>) -> Seq<Seq<char>> {
    if rooms.contains(identity) {
        if room == identity {
            seq![identity]
        } else {
            seq![identity, room]
        }
    } else {
        seq![room]
    }
}

/// The whole membership table after a join.
pub open spec fn join_view(
    m: Seq<(Seq<char>, Seq<Seq<char>>)>,
    c: Seq<char>,
    room: Seq<char>,
    identity: Seq<char>,
) -> Seq<(Seq<char>, Seq<Seq<char>>)> {
    if has_key(m, c) {
        m.update(index_of_key(m, c), (c, joined_rooms(value_of(m, c), room, identity)))
    } else {
        m.push((c, joined_rooms(Seq::empty(), room, identity)))
    }
}

impl RoomMembership {
    /// The table as a sequence of (connection id, rooms) pairs.
    pub open spec fn entries_view(&self) -> Seq<(Seq<char>, Seq<Seq<char>>)> {
        self.entries@.map_values(|e: (String, Vec<String>)| (e.0@, e.1.deep_view()))
    }

    /// The rooms a connection occupies.
    pub open spec fn rooms_of(&self, c: Seq<char>) -> Seq<Seq<char>> {
        if has_key(self.entries_view(), c) {
            value_of(self.entries_view(), c)
        } else {
            Seq::empty()
        }
    }

    /// The connection occupies the room.
    pub open spec fn is_member(&self, c: Seq<char>, room: Seq<char>) -> bool {
        self.rooms_of(c).contains(room)
    }

    /// One entry per connection, no room listed twice for a connection, and
    /// no connection in more than two rooms (its identity room plus at most
    /// one conversation room).
    pub open spec fn wf(&self) -> bool {
        &&& distinct_keys(self.entries_view())
        &&& forall|i: int|
            0 <= i < self.entries_view().len() ==> rooms_wf((#[trigger] self.entries_view()[i]).1)
    }

    pub fn new() -> (r: RoomMembership)
        ensures
            r.wf(),
            r.entries_view() == Seq::<(Seq<char>, Seq<Seq<char>>)>::empty(),
    {
        let r = RoomMembership { entries: Vec::new() };
        proof {
            assert(r.entries_view() =~= Seq::<(Seq<char>, Seq<Seq<char>>)>::empty());
        }
        r
    }

    /// The index of the entry for `conn`, if there is one.
    fn find(&self, conn: &String) -> (r: Option<usize>)
        ensures
            match r {
                Some(i) => i < self.entries.len() && self.entries_view()[i as int].0 == conn@,
                None => !has_key(self.entries_view(), conn@),
            },
    {
        let mut i: usize = 0;
        while i < self.entries.len()
            invariant
                i <= self.entries.len(),
                forall|j: int| 0 <= j < i ==> (#[trigger] self.entries_view()[j]).0 != conn@,
            decreases self.entries.len() - i,
        {
            if self.entries[i].0 == *conn {
                return Some(i);
            }
            i += 1;
        }
        proof {
            if has_key(self.entries_view(), conn@) {
                let j = index_of_key(self.entries_view(), conn@);
                assert(self.entries_view()[j].0 != conn@);
            }
        }
        None
    }

    /// Move `conn` into `room`: it leaves every room it was in except
    /// `identity_room`, and re-joining a room it is already in changes
    /// nothing.
    pub fn join(&mut self, conn: &String, room: &String, identity_room: &String)
        requires
            old(self).wf(),
        ensures
            final(self).wf(),
            final(self).entries_view() == join_view(old(self).entries_view(), conn@, room@, identity_room@),
            final(self).is_member(conn@, room@),
            forall|r: Seq<char>|
                #[trigger] final(self).is_member(conn@, r) <==> (r == room@ || (r == identity_room@
                    && old(self).is_member(conn@, r))),
            forall|k: Seq<char>|
                k != conn@ ==> #[trigger] final(self).rooms_of(k) == old(self).rooms_of(k),
    {
        let ghost m = self.entries_view();
        let ghost c = conn@;
        let ghost r = room@;
        let ghost id = identity_room@;
        let idx = self.find(conn);

        let mut new_rooms: Vec<String> = Vec::new();
        let ghost rooms0: Seq<Seq<char>> = match idx {
            Some(i) => m[i as int].1,
            None => Seq::empty(),
        };
        let was_inside = match idx {
            Some(i) => vec_contains_string(&self.entries[i].1, identity_room),
            None => false,
        };
        proof {
            if idx is Some {
                let i = idx->Some_0;
                lemma_key_at(m, i as int);
                assert(rooms0 == value_of(m, c));
            }
            assert(was_inside == rooms0.contains(id));
        }
        if was_inside {
            new_rooms.push(identity_room.clone());
            if !(*room == *identity_room) {
                new_rooms.push(room.clone());
            }
        } else {
            new_rooms.push(room.clone());
        }
        proof {
            assert(new_rooms.deep_view() =~= joined_rooms(rooms0, r, id));
            assert(rooms_wf(new_rooms.deep_view()));
        }

        match idx {
            Some(i) => {
                self.entries[i] = (conn.clone(), new_rooms);
                proof {
                    let t = self.entries_view();
                    assert(t =~= m.update(i as int, (c, joined_rooms(value_of(m, c), r, id))));
                    lemma_update_distinct(m, i as int, joined_rooms(value_of(m, c), r, id));
                    lemma_key_at(t, i as int);
                    assert forall|q: int| 0 <= q < t.len() implies rooms_wf((#[trigger] t[q]).1) by {
                        if q != i as int {
                            assert(t[q] == m[q]);
                        }
                    }
                    assert forall|k: Seq<char>| k != c implies #[trigger] final(self).rooms_of(k)
                        == old(self).rooms_of(k) by {
                        assert(has_key(t, k) == has_key(m, k));
                        if has_key(m, k) {
                            assert(value_of(t, k) == value_of(m, k));
                        }
                    }
                }
            },
            None => {
                self.entries.push((conn.clone(), new_rooms));
                proof {
                    let t = self.entries_view();
                    assert(t =~= m.push((c, joined_rooms(Seq::empty(), r, id))));
                    lemma_push_distinct(m, c, joined_rooms(Seq::empty(), r, id));
                    assert forall|q: int| 0 <= q < t.len() implies rooms_wf((#[trigger] t[q]).1) by {
                        if q < m.len() {
                            assert(t[q] == m[q]);
                        }
                    }
                    assert forall|k: Seq<char>| k != c implies #[trigger] final(self).rooms_of(k)
                        == old(self).rooms_of(k) by {
                        assert(has_key(t, k) == has_key(m, k));
                        if has_key(m, k) {
                            assert(value_of(t, k) == value_of(m, k));
                        }
                    }
                }
            },
        }
        proof {
            lemma_joined_rooms_membership(rooms0, r, id);
        }
    }

    /// Remove `conn` from every room except `room_to_stay`.
    pub fn leave_all_expect_one(&mut self, conn: &String, room_to_stay: &String)
        requires
            old(self).wf(),
        ensures
            final(self).wf(),
            forall|r: Seq<char>|
                #[trigger] final(self).is_member(conn@, r) <==> (r == room_to_stay@
                    && old(self).is_member(conn@, r)),
            forall|k: Seq<char>|
                k != conn@ ==> #[trigger] final(self).rooms_of(k) == old(self).rooms_of(k),
    {
        let ghost m = self.entries_view();
        let ghost c = conn@;
        let ghost stay = room_to_stay@;
        let idx = self.find(conn);
        match idx {
            Some(i) => {
                proof {
                    lemma_key_at(m, i as int);
                }
                let was_inside = vec_contains_string(&self.entries[i].1, room_to_stay);
                let mut new_rooms: Vec<String> = Vec::new();
                if was_inside {
                    new_rooms.push(room_to_stay.clone());
                }
                let ghost kept: Seq<Seq<char>> = if m[i as int].1.contains(stay) {
                    seq![stay]
                } else {
                    Seq::empty()
                };
                proof {
                    assert(new_rooms.deep_view() =~= kept);
                }
                self.entries[i] = (conn.clone(), new_rooms);
                proof {
                    let t = self.entries_view();
                    assert(t =~= m.update(i as int, (c, kept)));
                    lemma_update_distinct(m, i as int, kept);
                    lemma_key_at(t, i as int);
                    assert forall|q: int| 0 <= q < t.len() implies rooms_wf((#[trigger] t[q]).1) by {
                        if q != i as int {
                            assert(t[q] == m[q]);
                        }
                    }
                    assert forall|r: Seq<char>|
                        #[trigger] final(self).is_member(c, r) <==> (r == stay && old(self).is_member(c, r)) by {
                        if kept.contains(r) {
                            assert(kept[0] == stay);
                        }
                        if r == stay && old(self).is_member(c, r) {
                            assert(kept[0] == stay);
                        }
                    }
                }
            },
            None => {
                proof {
                    assert(self.entries_view() =~= m);
                }
            },
        }
    }

    /// Remove `conn` from every room, its identity room included.
    pub fn leave_all(&mut self, conn: &String)
        requires
            old(self).wf(),
        ensures
            final(self).wf(),
            forall|r: Seq<char>| !final(self).is_member(conn@, r),
            forall|k: Seq<char>|
                k != conn@ ==> #[trigger] final(self).rooms_of(k) == old(self).rooms_of(k),
    {
        let ghost m = self.entries_view();
        let idx = self.find(conn);
        match idx {
            Some(i) => {
                proof {
                    lemma_key_at(m, i as int);
                }
                self.entries.remove(i);
                proof {
                    let t = self.entries_view();
                    assert(t =~= m.remove(i as int));
                    lemma_remove_distinct(m, i as int);
                    m.remove_ensures(i as int);
                    assert forall|q: int| 0 <= q < t.len() implies rooms_wf((#[trigger] t[q]).1) by {
                        let q0: int = if q < i as int { q } else { q + 1 };
                        assert(t[q] == m[q0]);
                    }
                }
            },
            None => {
                proof {
                    assert(self.entries_view() =~= m);
                }
            },
        }
    }

    /// The connections currently inside `room`.
    pub fn members_of(&self, room: &String) -> (out: Vec<String>)
        requires
            self.wf(),
        ensures
            forall|p: int| 0 <= p < out.len() ==> self.is_member(#[trigger] out[p]@, room@),
            forall|k: Seq<char>|
                #[trigger] self.is_member(k, room@) ==> exists|p: int| 0 <= p < out.len() && out[p]@ == k,
    {
        let ghost m = self.entries_view();
        let mut out: Vec<String> = Vec::new();
        let mut i: usize = 0;
        while i < self.entries.len()
            invariant
                self.wf(),
                m == self.entries_view(),
                i <= self.entries.len(),
                forall|p: int| 0 <= p < out.len() ==> self.is_member(#[trigger] out[p]@, room@),
                forall|j: int|
                    0 <= j < i && (#[trigger] m[j]).1.contains(room@) ==> exists|p: int|
                        0 <= p < out.len() && out[p]@ == m[j].0,
            decreases self.entries.len() - i,
        {
            if vec_contains_string(&self.entries[i].1, room) {
                proof {
                    lemma_key_at(m, i as int);
                }
                let ghost out_before = out@;
                out.push(self.entries[i].0.clone());
                proof {
                    let n = out.len() - 1;
                    assert(out[n as int]@ == m[i as int].0);
                    assert(self.is_member(m[i as int].0, room@));
                    assert forall|j: int| 0 <= j < i + 1 && (#[trigger] m[j]).1.contains(room@)
                        implies exists|p: int| 0 <= p < out.len() && out[p]@ == m[j].0 by {
                        if j < i {
                            let p = choose|p: int|
                                0 <= p < out_before.len() && out_before[p]@ == m[j].0;
                            assert(out[p]@ == m[j].0);
                        } else {
                            assert(out[n as int]@ == m[j].0);
                        }
                    }
                }
            }
            i += 1;
        }
        proof {
            assert forall|k: Seq<char>| #[trigger] self.is_member(k, room@) implies exists|p: int|
                0 <= p < out.len() && out[p]@ == k by {
                let j = index_of_key(m, k);
                assert(0 <= j < m.len() && m[j].0 == k);
                assert(value_of(m, k) == m[j].1);
            }
        }
        out
    }
}

/// A room list is well formed when no room repeats and it holds at most an
/// identity room plus one conversation room.
pub open spec fn rooms_wf(rooms: Seq<Seq<char>>) -> bool {
    &&& rooms.len() <= 2
    &&& forall|i: int, j: int| 0 <= i < j < rooms.len() ==> rooms[i] != rooms[j]
}

/// After a join the connection is in the joined room, and in its identity
/// room exactly when it already was; it is in no third room.
pub proof fn lemma_joined_rooms_membership(rooms: Seq<Seq<char>>, room: Seq<char>, identity: Seq<char>)
    ensures
        joined_rooms(rooms, room, identity).contains(room),
        forall|r: Seq<char>|
            #[trigger] joined_rooms(rooms, room, identity).contains(r) <==> (r == room || (r
                == identity && rooms.contains(r))),
        rooms_wf(joined_rooms(rooms, room, identity)),
{
    let out = joined_rooms(rooms, room, identity);
    if rooms.contains(identity) {
        if room == identity {
            assert(out[0] == identity);
            assert forall|r: Seq<char>| #[trigger] out.contains(r) implies (r == room || (r == identity
                && rooms.contains(r))) by {
                let p = choose|p: int| 0 <= p < out.len() && out[p] == r;
                assert(out[p] == identity);
            }
        } else {
            assert(out[0] == identity);
            assert(out[1] == room);
            assert forall|r: Seq<char>| #[trigger] out.contains(r) implies (r == room || (r == identity
                && rooms.contains(r))) by {
                let p = choose|p: int| 0 <= p < out.len() && out[p] == r;
                assert(p == 0 || p == 1);
            }
        }
    } else {
        assert(out[0] == room);
        assert forall|r: Seq<char>| #[trigger] out.contains(r) implies (r == room || (r == identity
            && rooms.contains(r))) by {
            let p = choose|p: int| 0 <= p < out.len() && out[p] == r;
            assert(out[p] == room);
        }
    }
}

/// Joining the same room twice, with the same identity room, leaves the
/// membership table exactly as one join leaves it.
pub proof fn lemma_join_idempotent(
    m: Seq<(Seq<char>, Seq<Seq<char>>)>,
    c: Seq<char>,
    room: Seq<char>,
    identity: Seq<char>,
)
    requires
        distinct_keys(m),
    ensures
        join_view(join_view(m, c, room, identity), c, room, identity) == join_view(m, c, room, identity),
{
    let rooms0: Seq<Seq<char>> = if has_key(m, c) {
        value_of(m, c)
    } else {
        Seq::empty()
    };
    let rooms1 = joined_rooms(rooms0, room, identity);
    let m1 = join_view(m, c, room, identity);

    assert(joined_rooms(rooms1, room, identity) =~~= rooms1) by {
        lemma_joined_rooms_membership(rooms0, room, identity);
        if rooms0.contains(identity) {
            assert(rooms1.contains(identity));
        } else {
            if room == identity {
                assert(rooms1[0] == identity);
                assert(rooms1.contains(identity));
                assert(joined_rooms(rooms1, room, identity) == seq![identity]);
            } else {
                if rooms1.contains(identity) {
                    let p = choose|p: int| 0 <= p < rooms1.len() && rooms1[p] == identity;
                    assert(rooms1[p] == room);
                }
            }
        }
    }

    if has_key(m, c) {
        let idx = index_of_key(m, c);
        assert(0 <= idx < m.len() && m[idx].0 == c);
        assert(m1 == m.update(idx, (c, rooms1)));
        lemma_update_distinct(m, idx, rooms1);
        lemma_key_at(m1, idx);
        assert(join_view(m1, c, room, identity) == m1.update(idx, (c, joined_rooms(rooms1, room, identity))));
        assert(m1.update(idx, (c, rooms1)) =~= m1);
    } else {
        let n = m.len() as int;
        assert(m1 == m.push((c, rooms1)));
        lemma_push_distinct(m, c, rooms1);
        assert(join_view(m1, c, room, identity) == m1.update(n, (c, joined_rooms(rooms1, room, identity))));
        assert(m1.update(n, (c, rooms1)) =~= m1);
    }
}

/// Whether a vector of strings holds the given string.
pub fn vec_contains_string(v: &Vec<String>, x: &String) -> (b: bool)
    ensures
        b == v.deep_view().contains(x@),
{
    let mut i: usize = 0;
    while i < v.len()
        invariant
            i <= v.len(),
            forall|j: int| 0 <= j < i ==> v.deep_view()[j] != x@,
        decreases v.len() - i,
    {
        if v[i] == *x {
            assert(v.deep_view()[i as int] == x@);
            return true;
        }
        i += 1;
    }
    proof {
        if v.deep_view().contains(x@) {
            let j = choose|j: int| 0 <= j < v.deep_view().len() && v.deep_view()[j] == x@;
            assert(v.deep_view()[j] != x@);
        }
    }
    false
}

} // verus!
