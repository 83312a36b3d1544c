//! The connection registry: each live connection is bound to exactly one
//! generated display name, unique among the currently registered names.
//! Created on connect, removed on disconnect, and enumerable for
//! diagnostics.

use vstd::prelude::*;
use crate::assoc::{distinct_keys, has_key, index_of_key, value_of, lemma_key_at, lemma_push_distinct, lemma_remove_distinct};

verus! {

pub struct ConnectionRegistry {
    pub entries: Vec<(String, String)>,
}

impl ConnectionRegistry {
    /// The registry as a sequence of (connection id, display name) pairs.
    pub open spec fn entries_view(&self) -> Seq<(Seq<char>, Seq<char>)> {
        self.entries@.map_values(|e: (String, String)| (e.0@, e.1@))
    }

    /// The connection is registered.
    pub open spec fn has_conn(&self, c: Seq<char>) -> bool {
        has_key(self.entries_view(), c)
    }

    /// The display name bound to a registered connection.
    pub open spec fn name_of(&self, c: Seq<char>) -> Seq<char> {
        value_of(self.entries_view(), c)
    }

    /// Some registered connection carries this display name.
    pub open spec fn uses_name(&self, n: Seq<char>) -> bool {
        exists|i: int|
            0 <= i < self.entries_view().len() && (#[trigger] self.entries_view()[i]).1 == n
    }

    /// Each live connection has exactly one display name, and no display
    /// name is shared between live connections.
    pub open spec fn wf(&self) -> bool {
        &&& distinct_keys(self.entries_view())
        &&& forall|i: int, j: int|
            0 <= i < j < self.entries_view().len()
                ==> (#[trigger] self.entries_view()[i]).1 != (#[trigger] self.entries_view()[j]).1
    }

    pub fn new() -> (r: ConnectionRegistry)
        ensures
            r.wf(),
            r.entries_view() == Seq::<(Seq<char>, Seq<char>)>::empty(),
    {
        let r = ConnectionRegistry { entries: Vec::new() };
        proof {
            assert(r.entries_view() =~= Seq::<(Seq<char>, Seq<char>)>::empty());
        }
        r
    }

    /// The index of the entry for `conn`, if the connection is registered.
    fn find(&self, conn: &String) -> (r: Option<usize>)
        ensures
            match r {
                Some(i) => i < self.entries.len() && self.entries_view()[i as int].0 == conn@,
                None => !self.has_conn(conn@),
            },
    {
        let mut i: usize = 0;
        while i < self.entries.len()
            invariant
                i <= self.entries.len(),
                forall|j: int| 0 <= j < i ==> (#[trigger] self.entries_view()[j]).0 != conn@,
            decreases self.entries.len() - i,
        {
            if self.entries[i].0 == *conn {
                return Some(i);
            }
            i += 1;
        }
        proof {
            if self.has_conn(conn@) {
                let j = index_of_key(self.entries_view(), conn@);
                assert(self.entries_view()[j].0 != conn@);
            }
        }
        None
    }

    /// Whether the connection is registered.
    pub fn contains_conn(&self, conn: &String) -> (b: bool)
        ensures
            b == self.has_conn(conn@),
    {
        let r = self.find(conn);
        proof {
            if r is Some {
                assert(self.has_conn(conn@));
            }
        }
        r.is_some()
    }

    /// Whether some registered connection carries this display name.
    pub fn contains_name(&self, name: &String) -> (b: bool)
        ensures
            b == self.uses_name(name@),
    {
        let mut i: usize = 0;
        while i < self.entries.len()
            invariant
                i <= self.entries.len(),
                forall|j: int| 0 <= j < i ==> (#[trigger] self.entries_view()[j]).1 != name@,
            decreases self.entries.len() - i,
        {
            if self.entries[i].1 == *name {
                assert(self.entries_view()[i as int].1 == name@);
                return true;
            }
            i += 1;
        }
        false
    }

    /// The display name bound to `conn`, if any.
    pub fn lookup(&self, conn: &String) -> (r: Option<String>)
        requires
            self.wf(),
        ensures
            match r {
                Some(n) => self.has_conn(conn@) && n@ == self.name_of(conn@),
                None => !self.has_conn(conn@),
            },
    {
        match self.find(conn) {
            Some(i) => {
                proof {
                    lemma_key_at(self.entries_view(), i as int);
                }
                Some(self.entries[i].1.clone())
            },
            None => None,
        }
    }

    /// Record the binding of a fresh connection to a fresh display name.
    pub fn register(&mut self, conn: String, name: String)
        requires
            old(self).wf(),
            !old(self).has_conn(conn@),
            !old(self).uses_name(name@),
        ensures
            final(self).wf(),
            final(self).entries_view() == old(self).entries_view().push((conn@, name@)),
            final(self).has_conn(conn@),
            final(self).name_of(conn@) == name@,
    {
        let ghost c = conn@;
        let ghost n = name@;
        let ghost s = self.entries_view();
        self.entries.push((conn, name));
        proof {
            let t = self.entries_view();
            assert(t =~= s.push((c, n)));
            lemma_push_distinct(s, c, n);
            assert forall|i: int, j: int| 0 <= i < j < t.len() implies (#[trigger] t[i]).1 != (#[trigger] t[j]).1 by {
                if j < s.len() {
                    assert(t[i] == s[i] && t[j] == s[j]);
                } else {
                    assert(t[j] == (c, n));
                    assert(t[i] == s[i]);
                    if s[i].1 == n {
                        assert(old(self).uses_name(n));
                    }
                }
            }
        }
    }

    /// Remove the binding for `conn`; a no-op when it is absent.
    pub fn unregister(&mut self, conn: &String)
        requires
            old(self).wf(),
        ensures
            final(self).wf(),
            !final(self).has_conn(conn@),
            old(self).has_conn(conn@) ==> final(self).entries_view() == old(self).entries_view().remove(
                index_of_key(old(self).entries_view(), conn@),
            ),
            !old(self).has_conn(conn@) ==> final(self).entries_view() == old(self).entries_view(),
            forall|k: Seq<char>|
                k != conn@ ==> #[trigger] final(self).has_conn(k) == old(self).has_conn(k),
            forall|k: Seq<char>|
                k != conn@ && old(self).has_conn(k) ==> #[trigger] final(self).name_of(k) == old(self).name_of(k),
    {
        let ghost s = self.entries_view();
        match self.find(conn) {
            Some(i) => {
                proof {
                    lemma_key_at(s, i as int);
                }
                self.entries.remove(i);
                proof {
                    let t = self.entries_view();
                    assert(t =~= s.remove(i as int));
                    lemma_remove_distinct(s, i as int);
                    s.remove_ensures(i as int);
                    assert forall|p: int, q: int| 0 <= p < q < t.len() implies (#[trigger] t[p]).1 != (#[trigger] t[q]).1 by {
                        let p0: int = if p < i as int { p } else { p + 1 };
                        let q0: int = if q < i as int { q } else { q + 1 };
                        assert(t[p] == s[p0] && t[q] == s[q0]);
                    }
                }
            },
            None => {
                proof {
                    assert(self.entries_view() =~= s);
                }
            },
        }
    }

    /// The display names of the currently registered connections, in
    /// registration order.
    pub fn list(&self) -> (names: Vec<String>)
        ensures
            names.len() == self.entries.len(),
            forall|i: int|
                0 <= i < names.len() ==> names[i]@ == (#[trigger] self.entries_view()[i]).1,
    {
        let mut out: Vec<String> = Vec::new();
        let mut i: usize = 0;
        while i < self.entries.len()
            invariant
                i <= self.entries.len(),
                out.len() == i,
                forall|j: int| 0 <= j < i ==> out[j]@ == (#[trigger] self.entries_view()[j]).1,
            decreases self.entries.len() - i,
        {
            out.push(self.entries[i].1.clone());
            i += 1;
        }
        out
    }
}

} // verus!
