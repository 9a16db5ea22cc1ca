//! Counts of the endpoints that producers reported, by name, in the order
//! they were first seen.
use vstd::prelude::*;

use crate::collections::{
    count_entries, count_map_get, count_map_index_of, count_map_insert, count_map_len,
    count_map_new, CountMap,
};

verus! {

/// Names differ between entries.
pub open spec fn names_unique(e: Seq<(Seq<char>, i64)>) -> bool {
    forall|i: int, j: int| 0 <= i < e.len() && 0 <= j < e.len() && i != j ==> e[i].0 != e[j].0
}

pub open spec fn has_name(e: Seq<(Seq<char>, i64)>, name: Seq<char>) -> bool {
    exists|i: int| 0 <= i < e.len() && e[i].0 == name
}

pub open spec fn name_index(e: Seq<(Seq<char>, i64)>, name: Seq<char>) -> int {
    choose|i: int| 0 <= i < e.len() && e[i].0 == name
}

/// `e` after one more call for `name`: its count goes up by one (wrapping), or
/// it goes last with a count of one.
pub open spec fn counted(e: Seq<(Seq<char>, i64)>, name: Seq<char>) -> Seq<(Seq<char>, i64)> {
    if has_name(e, name) {
        e.update(name_index(e, name), (name, e[name_index(e, name)].1.wrapping_add(1)))
    } else {
        e.push((name, 1))
    }
}

/// `e` with the count of `name` set to `count`, in its place or last.
pub open spec fn with_count(e: Seq<(Seq<char>, i64)>, name: Seq<char>, count: i64) -> Seq<
    (Seq<char>, i64),
> {
    if has_name(e, name) {
        e.update(name_index(e, name), (name, count))
    } else {
        e.push((name, count))
    }
}

/// The counts that a list of names and counts gives, in the order of first
/// mention; a later count of a name replaces an earlier one.
pub open spec fn listed(xs: Seq<(Seq<char>, i64)>) -> Seq<(Seq<char>, i64)>
    decreases xs.len(),
{
    if xs.len() == 0 {
        Seq::empty()
    } else {
        with_count(listed(xs.drop_last()), xs.last().0, xs.last().1)
    }
}

/// The count of `name`; zero for a name never seen.
pub open spec fn count_of(e: Seq<(Seq<char>, i64)>, name: Seq<char>) -> i64 {
    if has_name(e, name) {
        e[name_index(e, name)].1
    } else {
        0
    }
}

/// Endpoint counts in insertion order.
pub struct ProfiledEndpointsStats {
    count: CountMap,
}

/// One endpoint and its count.
#[derive(Debug, PartialEq, Eq, PartialOrd, Ord)]
pub struct ProfiledEndpointStats {
    pub name: String,
    pub count: i64,
}

impl ProfiledEndpointsStats {
    /// The names and counts, in insertion order.
    pub closed spec fn entries(&self) -> Seq<(Seq<char>, i64)> {
        count_entries(self.count)
    }

    pub open spec fn wf(&self) -> bool {
        names_unique(self.entries())
    }

    pub fn new() -> (r: Self)
        ensures
            r.wf(),
            r.entries().len() == 0,
    {
        ProfiledEndpointsStats { count: count_map_new() }
    }

    /// Counts one more call for `endpoint_name`.
    pub fn add_endpoint(&mut self, endpoint_name: String)
        requires
            old(self).wf(),
        ensures
            final(self).wf(),
            final(self).entries() == counted(old(self).entries(), endpoint_name@),
    {
        let ghost e = self.entries();
        let ghost name = endpoint_name@;
        match count_map_index_of(&self.count, endpoint_name.as_str()) {
            None => {
                assert(!has_name(e, name));
                let i = count_map_insert(&mut self.count, endpoint_name, 1);
                proof {
                    assert(self.entries() =~= e.push((name, 1)));
                    assert forall|a: int, b: int|
                        0 <= a < self.entries().len() && 0 <= b < self.entries().len() && a
                            != b implies self.entries()[a].0 != self.entries()[b].0 by {
                        if a < e.len() && b < e.len() {
                            assert(self.entries()[a] == e[a] && self.entries()[b] == e[b]);
                        } else if a < e.len() {
                            assert(self.entries()[a] == e[a]);
                        } else {
                            assert(self.entries()[b] == e[b]);
                        }
                    }
                }
            },
            Some(i) => {
                let current = *count_map_get(&self.count, i).unwrap().1;
                proof {
                    assert(has_name(e, name));
                    let k = name_index(e, name);
                    assert(k == i);
                }
                let j = count_map_insert(&mut self.count, endpoint_name, current.wrapping_add(1));
                proof {
                    if j == e.len() {
                        assert(e[i as int].0 == name);
                    }
                    assert(j == i);
                    assert forall|a: int, b: int|
                        0 <= a < self.entries().len() && 0 <= b < self.entries().len() && a
                            != b implies self.entries()[a].0 != self.entries()[b].0 by {
                        assert(self.entries()[a].0 == e[a].0 && self.entries()[b].0 == e[b].0);
                    }
                }
            },
        }
    }

    pub fn is_empty(&self) -> (r: bool)
        ensures
            r == (self.entries().len() == 0),
    {
        count_map_len(&self.count) == 0
    }

    /// The number of endpoints.
    pub fn len(&self) -> (r: usize)
        ensures
            r == self.entries().len(),
    {
        count_map_len(&self.count)
    }

    /// The count of `name`; zero for a name never seen.
    pub fn get(&self, name: &str) -> (r: i64)
        requires
            self.wf(),
        ensures
            r == count_of(self.entries(), name@),
    {
        match count_map_index_of(&self.count, name) {
            Some(i) => {
                proof {
                    assert(has_name(self.entries(), name@));
                    assert(name_index(self.entries(), name@) == i);
                }
                *count_map_get(&self.count, i).unwrap().1
            },
            None => {
                assert(!has_name(self.entries(), name@));
                0
            },
        }
    }

    /// The endpoints and their counts, in insertion order.
    pub fn to_vec(&self) -> (r: Vec<ProfiledEndpointStats>)
        ensures
            r@.len() == self.entries().len(),
            forall|i: int|
                0 <= i < r@.len() ==> #[trigger] r@[i].name@ == self.entries()[i].0 && r@[i].count
                    == self.entries()[i].1,
    {
        let n = count_map_len(&self.count);
        let mut out: Vec<ProfiledEndpointStats> = Vec::with_capacity(n);
        let mut i: usize = 0;
        while i < n
            invariant
                n == self.entries().len(),
                i <= n,
                out@.len() == i,
                forall|j: int|
                    0 <= j < i ==> #[trigger] out@[j].name@ == self.entries()[j].0 && out@[j].count
                        == self.entries()[j].1,
            decreases n - i,
        {
            let (name, count) = count_map_get(&self.count, i).unwrap();
            out.push(ProfiledEndpointStats { name: name.clone(), count: *count });
            i += 1;
        }
        out
    }

    /// The stats that `stats` lists; where a name comes again, its later
    /// count replaces the earlier one in the earlier place.
    pub fn from_vec(stats: Vec<ProfiledEndpointStats>) -> (r: Self)
        ensures
            r.wf(),
            r.entries() == listed(
                stats@.map_values(|s: ProfiledEndpointStats| (s.name@, s.count)),
            ),
    {
        let ghost want = stats@.map_values(|s: ProfiledEndpointStats| (s.name@, s.count));
        let mut out = ProfiledEndpointsStats::new();
        let mut i: usize = 0;
        while i < stats.len()
            invariant
                out.wf(),
                want == stats@.map_values(|s: ProfiledEndpointStats| (s.name@, s.count)),
                i <= stats@.len(),
                out.entries() == listed(want.take(i as int)),
            decreases stats@.len() - i,
        {
            let item = &stats[i];
            let ghost e = out.entries();
            let ghost name = item.name@;
            match count_map_index_of(&out.count, item.name.as_str()) {
                Some(j) => {
                    proof {
                        assert(has_name(e, name));
                        assert(name_index(e, name) == j);
                    }
                    let k = count_map_insert(&mut out.count, item.name.clone(), item.count);
                    proof {
                        if k == e.len() {
                            assert(e[j as int].0 == name);
                        }
                        assert(k == j);
                        assert forall|a: int, b: int|
                            0 <= a < out.entries().len() && 0 <= b < out.entries().len() && a
                                != b implies out.entries()[a].0 != out.entries()[b].0 by {
                            assert(out.entries()[a].0 == e[a].0 && out.entries()[b].0 == e[b].0);
                        }
                    }
                },
                None => {
                    proof {
                        assert(!has_name(e, name));
                    }
                    count_map_insert(&mut out.count, item.name.clone(), item.count);
                    proof {
                        assert forall|a: int, b: int|
                            0 <= a < out.entries().len() && 0 <= b < out.entries().len() && a
                                != b implies out.entries()[a].0 != out.entries()[b].0 by {
                            if a < e.len() {
                                assert(out.entries()[a] == e[a]);
                            }
                            if b < e.len() {
                                assert(out.entries()[b] == e[b]);
                            }
                        }
                    }
                },
            }
            proof {
                assert(want.take(i + 1).drop_last() =~= want.take(i as int));
                assert(want[i as int] == (name, item.count));
            }
            i += 1;
        }
        assert(want.take(i as int) =~= want);
        out
    }

    /// A copy with the same entries.
    pub fn copy(&self) -> (r: Self)
        requires
            self.wf(),
        ensures
            r.wf(),
            r.entries() == self.entries(),
    {
        let n = count_map_len(&self.count);
        let mut out = ProfiledEndpointsStats::new();
        let mut i: usize = 0;
        while i < n
            invariant
                self.wf(),
                n == self.entries().len(),
                i <= n,
                out.wf(),
                out.entries() == self.entries().take(i as int),
            decreases n - i,
        {
            let (name, count) = count_map_get(&self.count, i).unwrap();
            let ghost e = out.entries();
            proof {
                assert forall|k: int| 0 <= k < e.len() implies e[k].0 != name@ by {
                    assert(e[k] == self.entries()[k]);
                }
            }
            let j = count_map_insert(&mut out.count, name.clone(), *count);
            proof {
                if j < e.len() {
                    assert(e[j as int].0 == name@);
                }
                assert(out.entries() =~= self.entries().take(i + 1));
            }
            i += 1;
        }
        assert(self.entries().take(n as int) =~= self.entries());
        out
    }
}

} // verus!

verus! {

impl Default for ProfiledEndpointsStats {
    fn default() -> (r: Self)
        ensures
            r.wf(),
            r.entries().len() == 0,
    {
        ProfiledEndpointsStats::new()
    }
}

} // verus!
