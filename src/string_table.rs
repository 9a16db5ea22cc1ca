//! Interning of strings to small integer ids.
use vstd::prelude::*;

use crate::collections::{
    string_entries, string_set_get, string_set_index_of, string_set_insert, string_set_len,
    string_set_new,
};
use crate::interning::{intern_one, lemma_intern_one, lemma_position, position};
use indexmap::IndexSet;

verus! {

/// The largest number of entries that any table of a profile holds. Ids are
/// positions plus one and are meant to fit in 32 bits.
pub const CONTAINER_MAX: usize = 4_294_967_294;

/// A table whose first entry is the empty string and whose entries differ.
pub open spec fn valid_table(t: Seq<Seq<char>>) -> bool {
    &&& 1 <= t.len() <= CONTAINER_MAX
    &&& t[0] == Seq::<char>::empty()
    &&& t.no_duplicates()
}

/// Interned strings in insertion order; the empty string has id 0.
pub struct StringTable {
    set: IndexSet<String>,
}

impl View for StringTable {
    type V = Seq<Seq<char>>;

    closed spec fn view(&self) -> Seq<Seq<char>> {
        string_entries(self.set)
    }
}

impl StringTable {
    pub open spec fn wf(&self) -> bool {
        valid_table(self@)
    }

    /// A table that holds the empty string alone.
    pub fn new() -> (r: Self)
        ensures
            r@ == seq![Seq::<char>::empty()],
            r.wf(),
    {
        let mut set = string_set_new();
        let empty = String::new();
        proof {
            assert(!string_entries(set).contains(empty@));
        }
        string_set_insert(&mut set, empty);
        let r = StringTable { set };
        proof {
            assert(r@ =~= seq![Seq::<char>::empty()]);
        }
        r
    }

    /// The id of `s`, adding it last when it is not yet held.
    pub fn intern(&mut self, s: &str) -> (r: i64)
        requires
            old(self).wf(),
            old(self)@.len() < CONTAINER_MAX || old(self)@.contains(s@),
        ensures
            final(self).wf(),
            final(self)@ == intern_one(old(self)@, s@),
            r == position(final(self)@, s@),
            0 <= r < final(self)@.len(),
            final(self)@[r as int] == s@,
    {
        proof {
            lemma_intern_one(old(self)@, s@);
        }
        match string_set_index_of(&self.set, s) {
            Some(i) => {
                proof {
                    lemma_position(self@, i as int, s@);
                }
                i as i64
            },
            None => {
                let owned = s.to_owned();
                let i = string_set_insert(&mut self.set, owned);
                proof {
                    let t = self@;
                    assert forall|a: int, b: int|
                        0 <= a < t.len() && 0 <= b < t.len() && a != b implies t[a] != t[b] by {
                        if b == t.len() - 1 {
                            assert(old(self)@.contains(t[a]) ==> t[a] != s@);
                            assert(old(self)@[a] == t[a]);
                        } else if a == t.len() - 1 {
                            assert(old(self)@[b] == t[b]);
                        } else {
                            assert(old(self)@[a] == t[a]);
                            assert(old(self)@[b] == t[b]);
                        }
                    }
                    lemma_position(self@, i as int, s@);
                }
                i as i64
            },
        }
    }

    /// Interns `s` where the table holds it or has room for it; `None`, with
    /// the table unchanged, where it is full and does not hold `s`.
    pub fn try_intern(&mut self, s: &str) -> (r: Option<i64>)
        requires
            old(self).wf(),
        ensures
            final(self).wf(),
            r is None <==> (old(self)@.len() >= CONTAINER_MAX && !old(self)@.contains(s@)),
            r is None ==> final(self)@ == old(self)@,
            r is Some ==> final(self)@ == intern_one(old(self)@, s@) && r.unwrap() == position(
                final(self)@,
                s@,
            ),
    {
        match string_set_index_of(&self.set, s) {
            Some(_) => Some(self.intern(s)),
            None => {
                if string_set_len(&self.set) >= CONTAINER_MAX {
                    None
                } else {
                    Some(self.intern(s))
                }
            },
        }
    }

    /// The number of strings held.
    pub fn len(&self) -> (r: usize)
        ensures
            r == self@.len(),
    {
        string_set_len(&self.set)
    }

    /// The string with id `id`, if there is one.
    pub fn get(&self, id: i64) -> (r: Option<&String>)
        ensures
            r is Some <==> 0 <= id < self@.len(),
            r is Some ==> r.unwrap()@ == self@[id as int],
    {
        if id < 0 {
            return None;
        }
        let n = string_set_len(&self.set);
        if id as u64 >= n as u64 {
            return None;
        }
        string_set_get(&self.set, id as usize)
    }

    /// A copy of the strings, in id order.
    pub fn strings(&self) -> (r: Vec<String>)
        ensures
            r@.len() == self@.len(),
            forall|i: int| 0 <= i < r@.len() ==> #[trigger] r@[i]@ == self@[i],
    {
        let n = string_set_len(&self.set);
        let mut out: Vec<String> = Vec::with_capacity(n);
        let mut i: usize = 0;
        while i < n
            invariant
                n == self@.len(),
                i <= n,
                out@.len() == i,
                forall|j: int| 0 <= j < i ==> #[trigger] out@[j]@ == self@[j],
            decreases n - i,
        {
            let s = string_set_get(&self.set, i).unwrap();
            out.push(s.clone());
            i += 1;
        }
        out
    }
}

} // verus!

verus! {

impl Default for StringTable {
    fn default() -> (r: Self)
        ensures
            r@ == seq![Seq::<char>::empty()],
            r.wf(),
    {
        StringTable::new()
    }
}

} // verus!
