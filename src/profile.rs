//! A profile that aggregates samples by stack and labels, correlates them
//! with endpoints, and is emitted in the `pprof` format.
use vstd::prelude::*;

use crate::api;
use crate::collections::{
    endpoint_map_new, endpoint_pairs, sample_entries, sample_key_view, sample_map_get,
    sample_map_index_of, sample_map_insert, sample_map_len, sample_map_new, EndpointMap,
    FunctionKey, LabelKey, LocationEntry, MappingKey, SampleKey, SampleKeyView, SampleMap,
};
use crate::interning::{
    extends, intern_all, intern_one, lemma_intern_all, lemma_intern_all_prefix,
    lemma_position_extends, position,
};
use crate::pprof::{self, ValueType};
use crate::profiled_endpoints::ProfiledEndpointsStats;
use crate::resolve::{
    entity_id, flat, function_key_of, function_keys, label_key, label_strings, labels_strings, lemma_flat_all,
    lemma_flat_step,
    lemma_sample_strings_labels, lemma_sample_strings_locations, line_function_keys,
    line_key_of, line_strings, location_key_of, location_keys, location_strings,
    mapping_key_of, mapping_keys, sample_key_of, sample_strings, string_id,
};
use crate::storage::{function_key, location_key, mapping_key, ProfileStorage};
use crate::string_table::{valid_table, StringTable, CONTAINER_MAX};
use crate::time::Timespec;

verus! {

/// The id of a sample: its position in the sample table plus one; zero where
/// a sample was rejected.
#[derive(Clone, Copy, Debug, PartialEq, Eq, Hash, Structural)]
pub struct PProfId(pub usize);

/// A table of the profile is full.
#[derive(Clone, Copy, Debug, PartialEq, Eq, Structural)]
pub struct FullError;

/// Span ids mapped to endpoints, with the ids of the two label keys involved,
/// and the count of endpoint reports.
pub struct Endpoints {
    mappings: EndpointMap,
    local_root_span_id_label: i64,
    endpoint_label: i64,
    stats: ProfiledEndpointsStats,
}

impl Endpoints {
    /// Span ids to endpoints, both string ids.
    pub closed spec fn span_map(&self) -> Map<i64, i64> {
        endpoint_pairs(self.mappings)
    }

    /// The id of "local root span id", once an endpoint was added.
    pub closed spec fn span_label(&self) -> i64 {
        self.local_root_span_id_label
    }

    /// The id of "trace endpoint", once an endpoint was added.
    pub closed spec fn endpoint_label(&self) -> i64 {
        self.endpoint_label
    }

    /// How often each endpoint was reported.
    pub closed spec fn stats(&self) -> ProfiledEndpointsStats {
        self.stats
    }

    pub fn new() -> (r: Self)
        ensures
            r.span_map().dom() == Set::<i64>::empty(),
            r.stats().wf(),
            r.stats().entries().len() == 0,
    {
        Endpoints {
            mappings: endpoint_map_new(),
            local_root_span_id_label: 0,
            endpoint_label: 0,
            stats: ProfiledEndpointsStats::new(),
        }
    }
}

/// The key of the label that carries a sample's local root span id.
pub open spec fn span_label_name() -> Seq<char> {
    "local root span id"@
}

/// The key of the label that carries a sample's endpoint.
pub open spec fn endpoint_label_name() -> Seq<char> {
    "trace endpoint"@
}

/// The index of the entry with key `k`.
pub open spec fn key_index(e: Seq<(SampleKeyView, Seq<i64>)>, k: SampleKeyView) -> int {
    choose|i: int| 0 <= i < e.len() && e[i].0 == k
}

pub open spec fn has_key(e: Seq<(SampleKeyView, Seq<i64>)>, k: SampleKeyView) -> bool {
    exists|i: int| 0 <= i < e.len() && e[i].0 == k
}

/// Element-wise sums, wrapping on overflow.
pub open spec fn summed(a: Seq<i64>, b: Seq<i64>) -> Seq<i64> {
    Seq::new(a.len(), |i: int| a[i].wrapping_add(b[i]))
}

/// The sample table after values `vs` were added under key `k`.
pub open spec fn aggregated(
    e: Seq<(SampleKeyView, Seq<i64>)>,
    k: SampleKeyView,
    vs: Seq<i64>,
) -> Seq<(SampleKeyView, Seq<i64>)> {
    if has_key(e, k) {
        e.update(key_index(e, k), (k, summed(e[key_index(e, k)].1, vs)))
    } else {
        e.push((k, vs))
    }
}

/// Keys differ between entries.
pub open spec fn keys_unique(e: Seq<(SampleKeyView, Seq<i64>)>) -> bool {
    forall|i: int, j: int| 0 <= i < e.len() && 0 <= j < e.len() && i != j ==> e[i].0 != e[j].0
}

/// The key, string value and unit of a label are ids below `n`.
pub open spec fn label_ids_below(l: LabelKey, n: nat) -> bool {
    0 <= l.0 < n && 0 <= l.1 < n && 0 <= l.3 < n
}

/// Both ids of a value type name strings of table `t`.
pub open spec fn value_type_in(v: ValueType, t: Seq<Seq<char>>) -> bool {
    0 <= v.type_ < t.len() && 0 <= v.unit < t.len()
}

/// Samples aggregated by stack and labels, with the tables they refer to.
pub struct Profile {
    sample_types: Vec<ValueType>,
    samples: SampleMap,
    storage: ProfileStorage,
    strings: StringTable,
    start_time: Timespec,
    period: Option<(i64, ValueType)>,
    endpoints: Endpoints,
}

impl Profile {
    /// The interned strings, by id.
    pub closed spec fn string_table(&self) -> Seq<Seq<char>> {
        self.strings@
    }

    /// The mappings, by id minus one.
    pub closed spec fn mapping_table(&self) -> Seq<MappingKey> {
        self.storage.mapping_table()
    }

    /// The functions, by id minus one.
    pub closed spec fn function_table(&self) -> Seq<FunctionKey> {
        self.storage.function_table()
    }

    /// The locations, by id minus one.
    pub closed spec fn location_table(&self) -> Seq<LocationEntry> {
        self.storage.location_table()
    }

    /// The samples with their summed values, by id minus one.
    pub closed spec fn sample_table(&self) -> Seq<(SampleKeyView, Seq<i64>)> {
        sample_entries(self.samples)
    }

    /// The sample types, as string ids.
    pub closed spec fn sample_type_ids(&self) -> Seq<ValueType> {
        self.sample_types@
    }

    /// The period's value and type, as string ids.
    pub closed spec fn period_ids(&self) -> Option<(i64, ValueType)> {
        self.period
    }

    /// When the profile started.
    pub closed spec fn start(&self) -> Timespec {
        self.start_time
    }

    /// The span to endpoint map, its label keys and the endpoint counts.
    pub closed spec fn endpoints(&self) -> Endpoints {
        self.endpoints
    }

    /// The invariant that every operation keeps.
    pub open spec fn wf(&self) -> bool {
        &&& valid_table(self.string_table())
        &&& self.storage_wf()
        &&& self.endpoints().stats().wf()
        &&& keys_unique(self.sample_table())
        &&& self.sample_table().len() <= CONTAINER_MAX
        &&& forall|i: int|
            0 <= i < self.sample_table().len() ==> (#[trigger] self.sample_table()[i]).1.len()
                == self.sample_type_ids().len()
        &&& 2 * self.sample_type_ids().len() + 3 <= CONTAINER_MAX
        &&& forall|i: int|
            0 <= i < self.sample_type_ids().len() ==> value_type_in(
                #[trigger] self.sample_type_ids()[i],
                self.string_table(),
            )
        &&& self.period_ids() matches Some(p) ==> value_type_in(p.1, self.string_table())
        &&& self.endpoints_wf()
    }

    /// Span ids and endpoints are strings of the table; once there is one,
    /// the two label keys are too.
    pub open spec fn endpoints_wf(&self) -> bool {
        let t = self.string_table();
        let m = self.endpoints().span_map();
        &&& forall|k: i64| #[trigger]
            m.contains_key(k) ==> 0 <= k < t.len() && 0 <= m[k] < t.len()
        &&& m.dom() != Set::<i64>::empty() ==> {
            &&& 0 <= self.endpoints().span_label() < t.len()
            &&& t[self.endpoints().span_label() as int] == span_label_name()
            &&& 0 <= self.endpoints().endpoint_label() < t.len()
            &&& t[self.endpoints().endpoint_label() as int] == endpoint_label_name()
        }
    }

    pub closed spec fn storage_wf(&self) -> bool {
        self.storage.wf()
    }

    /// The string table once the strings of `s` are interned.
    pub open spec fn strings_after(&self, s: api::Sample) -> Seq<Seq<char>> {
        intern_all(self.string_table(), sample_strings(s))
    }

    pub open spec fn mappings_after(&self, s: api::Sample) -> Seq<MappingKey> {
        intern_all(self.mapping_table(), mapping_keys(self.strings_after(s), s.locations@))
    }

    pub open spec fn functions_after(&self, s: api::Sample) -> Seq<FunctionKey> {
        intern_all(self.function_table(), function_keys(self.strings_after(s), s.locations@))
    }

    pub open spec fn locations_after(&self, s: api::Sample) -> Seq<LocationEntry> {
        intern_all(
            self.location_table(),
            location_keys(
                self.strings_after(s),
                self.mappings_after(s),
                self.functions_after(s),
                s.locations@,
            ),
        )
    }

    /// The key that `s` is aggregated under.
    pub open spec fn key_after(&self, s: api::Sample) -> SampleKeyView {
        sample_key_of(
            self.strings_after(s),
            self.mappings_after(s),
            self.functions_after(s),
            self.locations_after(s),
            s,
        )
    }

    pub open spec fn samples_after(&self, s: api::Sample) -> Seq<(SampleKeyView, Seq<i64>)> {
        aggregated(self.sample_table(), self.key_after(s), s.values@)
    }

    /// `after` is this profile once `s` was added.
    pub open spec fn adds_to(&self, s: api::Sample, after: Profile) -> bool {
        &&& after.string_table() == self.strings_after(s)
        &&& after.mapping_table() == self.mappings_after(s)
        &&& after.function_table() == self.functions_after(s)
        &&& after.location_table() == self.locations_after(s)
        &&& after.sample_table() == self.samples_after(s)
        &&& after.sample_type_ids() == self.sample_type_ids()
        &&& after.period_ids() == self.period_ids()
        &&& after.start() == self.start()
        &&& after.endpoints() == self.endpoints()
    }

    /// No table grows past `CONTAINER_MAX` when `s` is added.
    pub open spec fn fits(&self, s: api::Sample) -> bool {
        &&& self.strings_after(s).len() <= CONTAINER_MAX
        &&& self.mappings_after(s).len() <= CONTAINER_MAX
        &&& self.functions_after(s).len() <= CONTAINER_MAX
        &&& self.locations_after(s).len() <= CONTAINER_MAX
        &&& self.samples_after(s).len() <= CONTAINER_MAX
    }

    /// `after` holds this profile's strings, mappings, functions and
    /// locations and maybe more, and the same samples, schema, start and
    /// endpoints.
    pub open spec fn grows_to(&self, after: Profile) -> bool {
        &&& extends(after.string_table(), self.string_table())
        &&& extends(after.mapping_table(), self.mapping_table())
        &&& extends(after.function_table(), self.function_table())
        &&& extends(after.location_table(), self.location_table())
        &&& after.sample_table() == self.sample_table()
        &&& after.sample_type_ids() == self.sample_type_ids()
        &&& after.period_ids() == self.period_ids()
        &&& after.start() == self.start()
        &&& after.endpoints() == self.endpoints()
    }

    /// A profile that `before` grows to is well-formed where its tables are.
    proof fn lemma_grown_wf(&self, before: Profile)
        requires
            before.wf(),
            before.grows_to(*self),
            self.strings.wf(),
            self.storage.wf(),
        ensures
            self.wf(),
    {
        let t0 = before.string_table();
        let t = self.string_table();
        assert forall|i: int| 0 <= i < self.sample_type_ids().len() implies value_type_in(
            #[trigger] self.sample_type_ids()[i],
            t,
        ) by {
            assert(value_type_in(before.sample_type_ids()[i], t0));
        }
        if self.endpoints().span_map().dom() != Set::<i64>::empty() {
            assert(t[self.endpoints().span_label() as int] == t0[self.endpoints().span_label() as int]);
            assert(t[self.endpoints().endpoint_label() as int] == t0[self.endpoints().endpoint_label() as int]);
        }
    }
}

} // verus!

verus! {

/// Interns `s` as the next of a sequence of strings interned into `t0`.
fn intern_next(
    strings: &mut StringTable,
    s: &str,
    Ghost(t0): Ghost<Seq<Seq<char>>>,
    Ghost(done): Ghost<Seq<Seq<char>>>,
) -> (r: i64)
    requires
        old(strings).wf(),
        t0.no_duplicates(),
        old(strings)@ == intern_all(t0, done),
        t0.len() + done.len() < CONTAINER_MAX,
    ensures
        final(strings).wf(),
        final(strings)@ == intern_all(t0, done.push(s@)),
        r == position(final(strings)@, s@),
{
    proof {
        lemma_intern_all(t0, done);
        assert(done.push(s@).drop_last() =~= done);
    }
    strings.intern(s)
}

/// The id of a string that `strings` holds.
fn id_of_held(strings: &mut StringTable, s: &str) -> (r: i64)
    requires
        old(strings).wf(),
        old(strings)@.contains(s@),
    ensures
        final(strings)@ == old(strings)@,
        final(strings).wf(),
        r == string_id(old(strings)@, s@),
        0 <= r < old(strings)@.len(),
{
    strings.intern(s)
}

impl Profile {
    /// The strings of a sample in the order they are interned.
    fn sample_string_list<'a>(s: &api::Sample<'a>) -> (out: Vec<&'a str>)
        ensures
            out@.map_values(|x: &str| x@) == sample_strings(*s),
    {
        let mut out: Vec<&'a str> = Vec::new();
        let ghost lf = |l: api::Label| label_strings(l);
        let ghost gf = |l: api::Location| location_strings(l);
        let ghost hf = |ln: api::Line| line_strings(ln);
        let ghost mut done: Seq<Seq<char>> = Seq::empty();
        let mut i: usize = 0;
        while i < s.labels.len()
            invariant
                lf == (|l: api::Label| label_strings(l)),
                i <= s.labels@.len(),
                done == flat(s.labels@.take(i as int), lf),
                out@.map_values(|x: &str| x@) == done,
            decreases s.labels@.len() - i,
        {
            let l = s.labels[i];
            let ghost start = done;
            proof {
                lemma_flat_step(s.labels@, lf, i as int);
            }
            out.push(l.key);
            proof {
                done = done.push(l.key@);
                assert(out@.map_values(|x: &str| x@) =~= done);
            }
            match l.str {
                Some(v) => {
                    out.push(v);
                    proof {
                        done = done.push(v@);
                        assert(out@.map_values(|x: &str| x@) =~= done);
                    }
                },
                None => {},
            }
            match l.num_unit {
                Some(v) => {
                    out.push(v);
                    proof {
                        done = done.push(v@);
                        assert(out@.map_values(|x: &str| x@) =~= done);
                    }
                },
                None => {},
            }
            proof {
                assert(done =~= start + lf(l));
            }
            i += 1;
        }
        proof {
            lemma_flat_all(s.labels@, lf);
            assert(done == labels_strings(s.labels@));
        }
        let ghost labels_done = done;
        let mut j: usize = 0;
        while j < s.locations.len()
            invariant
                labels_done == labels_strings(s.labels@),
                gf == (|l: api::Location| location_strings(l)),
                hf == (|ln: api::Line| line_strings(ln)),
                j <= s.locations@.len(),
                done == labels_done + flat(s.locations@.take(j as int), gf),
                out@.map_values(|x: &str| x@) == done,
            decreases s.locations@.len() - j,
        {
            let loc = &s.locations[j];
            let ghost start = done;
            proof {
                lemma_flat_step(s.locations@, gf, j as int);
            }
            out.push(loc.mapping.filename);
            proof {
                done = done.push(loc.mapping.filename@);
                assert(out@.map_values(|x: &str| x@) =~= done);
            }
            out.push(loc.mapping.build_id);
            proof {
                done = done.push(loc.mapping.build_id@);
                assert(out@.map_values(|x: &str| x@) =~= done);
                assert(done =~= start + seq![loc.mapping.filename@, loc.mapping.build_id@]);
            }
            let ghost head = done;
            let mut k: usize = 0;
            while k < loc.lines.len()
                invariant
                    hf == (|ln: api::Line| line_strings(ln)),
                    gf(*loc).len() == 2 + flat(loc.lines@, hf).len(),
                    head == start + seq![loc.mapping.filename@, loc.mapping.build_id@],
                    k <= loc.lines@.len(),
                    done == head + flat(loc.lines@.take(k as int), hf),
                    out@.map_values(|x: &str| x@) == done,
                decreases loc.lines@.len() - k,
            {
                let f = loc.lines[k].function;
                let ghost before = done;
                proof {
                    lemma_flat_step(loc.lines@, hf, k as int);
                }
                out.push(f.name);
                proof {
                    done = done.push(f.name@);
                    assert(out@.map_values(|x: &str| x@) =~= done);
                }
                out.push(f.system_name);
                proof {
                    done = done.push(f.system_name@);
                    assert(out@.map_values(|x: &str| x@) =~= done);
                }
                out.push(f.filename);
                proof {
                    done = done.push(f.filename@);
                    assert(out@.map_values(|x: &str| x@) =~= done);
                    assert(done =~= before + hf(loc.lines@[k as int]));
                    assert(done =~= head + flat(loc.lines@.take(k + 1), hf));
                }
                k += 1;
            }
            proof {
                lemma_flat_all(loc.lines@, hf);
                assert(done =~= labels_done + flat(s.locations@.take(j + 1), gf));
            }
            j += 1;
        }
        proof {
            lemma_flat_all(s.locations@, gf);
        }
        out
    }

    /// Pass one of adding a sample: interns its strings, unless the string
    /// table would grow past `CONTAINER_MAX`; then it stops, with the table
    /// extended by some of them.
    fn intern_sample_strings(&mut self, s: &api::Sample) -> (ok: bool)
        requires
            old(self).strings.wf(),
        ensures
            final(self).strings.wf(),
            extends(final(self).strings@, old(self).strings@),
            ok == (intern_all(old(self).strings@, sample_strings(*s)).len() <= CONTAINER_MAX),
            ok ==> final(self).strings@ == intern_all(old(self).strings@, sample_strings(*s)),
            final(self).sample_types == old(self).sample_types,
            final(self).samples == old(self).samples,
            final(self).storage == old(self).storage,
            final(self).start_time == old(self).start_time,
            final(self).period == old(self).period,
            final(self).endpoints == old(self).endpoints,
    {
        let ghost t0 = self.strings@;
        let ghost all = sample_strings(*s);
        let list = Self::sample_string_list(s);
        let mut i: usize = 0;
        while i < list.len()
            invariant
                self.strings.wf(),
                t0 == old(self).strings@,
                t0.no_duplicates(),
                all == sample_strings(*s),
                list@.map_values(|x: &str| x@) == all,
                i <= all.len(),
                self.strings@ == intern_all(t0, all.take(i as int)),
                self.sample_types == old(self).sample_types,
                self.samples == old(self).samples,
                self.storage == old(self).storage,
                self.start_time == old(self).start_time,
                self.period == old(self).period,
                self.endpoints == old(self).endpoints,
            decreases all.len() - i,
        {
            let x = list[i];
            proof {
                lemma_intern_all(t0, all.take(i as int));
                assert(all[i as int] == x@);
                assert(all.take(i + 1).drop_last() =~= all.take(i as int));
            }
            match self.strings.try_intern(x) {
                None => {
                    proof {
                        let cur = intern_all(t0, all.take(i as int));
                        assert(all.take(i + 1).last() == x@);
                        assert(intern_all(t0, all.take(i + 1)) == intern_one(cur, x@));
                        assert(intern_one(cur, x@) == cur.push(x@));
                        lemma_intern_all_prefix(t0, all, i + 1);
                        assert(intern_all(t0, all.take(i + 1)).len() == CONTAINER_MAX + 1);
                    }
                    return false;
                },
                Some(_) => {},
            }
            i += 1;
        }
        proof {
            assert(all.take(i as int) =~= all);
            lemma_intern_all(t0, all);
        }
        true
    }
}

} // verus!

verus! {

/// Every string of `s` is in `t`.
pub open spec fn holds_strings_of(t: Seq<Seq<char>>, s: api::Sample) -> bool {
    forall|x: Seq<char>| sample_strings(s).contains(x) ==> #[trigger] t.contains(x)
}

impl Profile {
    /// Pass two of adding a sample: adds the mapping of each location.
    fn add_sample_mappings(&mut self, s: &api::Sample) -> (ok: bool)
        requires
            old(self).strings.wf(),
            old(self).storage.wf(),
            holds_strings_of(old(self).strings@, *s),
        ensures
            final(self).strings.wf(),
            final(self).strings@ == old(self).strings@,
            final(self).storage.wf(),
            extends(final(self).storage.mapping_table(), old(self).storage.mapping_table()),
            ok == (intern_all(
                old(self).storage.mapping_table(),
                mapping_keys(old(self).strings@, s.locations@),
            ).len() <= CONTAINER_MAX),
            ok ==> final(self).storage.mapping_table() == intern_all(
                old(self).storage.mapping_table(),
                mapping_keys(old(self).strings@, s.locations@),
            ),
            final(self).storage.function_table() == old(self).storage.function_table(),
            final(self).storage.location_table() == old(self).storage.location_table(),
            final(self).sample_types == old(self).sample_types,
            final(self).samples == old(self).samples,
            final(self).start_time == old(self).start_time,
            final(self).period == old(self).period,
            final(self).endpoints == old(self).endpoints,
    {
        let ghost t = self.strings@;
        let ghost m0 = self.storage.mapping_table();
        let mut j: usize = 0;
        while j < s.locations.len()
            invariant
                self.strings.wf(),
                self.strings@ == t,
                holds_strings_of(t, *s),
                t == old(self).strings@,
                m0 == old(self).storage.mapping_table(),
                self.storage.wf(),
                m0.no_duplicates(),
                extends(self.storage.mapping_table(), m0),
                j <= s.locations@.len(),
                self.storage.mapping_table() == intern_all(
                    m0,
                    mapping_keys(t, s.locations@.take(j as int)),
                ),
                self.storage.function_table() == old(self).storage.function_table(),
                self.storage.location_table() == old(self).storage.location_table(),
                self.sample_types == old(self).sample_types,
                self.samples == old(self).samples,
                self.start_time == old(self).start_time,
                self.period == old(self).period,
                self.endpoints == old(self).endpoints,
            decreases s.locations@.len() - j,
        {
            let loc = &s.locations[j];
            proof {
                lemma_sample_strings_locations(*s, j as int);
                lemma_intern_all(m0, mapping_keys(t, s.locations@.take(j as int)));
            }
            let filename = id_of_held(&mut self.strings, loc.mapping.filename);
            let build_id = id_of_held(&mut self.strings, loc.mapping.build_id);
            let mapping = pprof::Mapping {
                id: 0,
                memory_start: loc.mapping.memory_start,
                memory_limit: loc.mapping.memory_limit,
                file_offset: loc.mapping.file_offset,
                filename,
                build_id,
                has_functions: false,
                has_filenames: false,
                has_line_numbers: false,
                has_inline_frames: false,
            };
            assert(mapping_key(mapping) == mapping_key_of(t, loc.mapping));
            proof {
                let ks = mapping_keys(t, s.locations@.take(j + 1));
                assert(ks =~= mapping_keys(t, s.locations@.take(j as int)).push(
                    mapping_key_of(t, loc.mapping),
                ));
                assert(ks.drop_last() =~= mapping_keys(t, s.locations@.take(j as int)));
                assert(s.locations@.take(j + 1) =~= s.locations@.take(j + 1));
                assert(mapping_keys(t, s.locations@).take(j + 1) =~= ks);
            }
            if self.storage.mapping_count() >= CONTAINER_MAX && !self.storage.has_mapping(&mapping) {
                proof {
                    let all = mapping_keys(t, s.locations@);
                    let cur = intern_all(m0, all.take(j as int));
                    assert(all.take(j as int) =~= mapping_keys(t, s.locations@.take(j as int)));
                    assert(all.take(j + 1).drop_last() =~= all.take(j as int));
                    assert(all.take(j + 1).last() == mapping_key(mapping));
                    assert(intern_all(m0, all.take(j + 1)) == cur.push(mapping_key(mapping)));
                    lemma_intern_all_prefix(m0, all, j + 1);
                    assert(intern_all(m0, all.take(j + 1)).len() == CONTAINER_MAX + 1);
                }
                return false;
            }
            self.storage.add_mapping(mapping);
            proof {
                let ks = mapping_keys(t, s.locations@.take(j + 1));
                assert(ks =~= mapping_keys(t, s.locations@.take(j as int)).push(
                    mapping_key_of(t, loc.mapping),
                ));
                assert(ks.drop_last() =~= mapping_keys(t, s.locations@.take(j as int)));
            }
            j += 1;
        }
        assert(s.locations@.take(j as int) =~= s.locations@);
        proof {
            lemma_intern_all(m0, mapping_keys(t, s.locations@));
        }
        true
    }

    /// The function of each line of each location of a sample, in order.
    fn sample_function_keys(&mut self, s: &api::Sample) -> (keys: Vec<FunctionKey>)
        requires
            old(self).strings.wf(),
            holds_strings_of(old(self).strings@, *s),
        ensures
            final(self).strings.wf(),
            final(self).strings@ == old(self).strings@,
            keys@ == function_keys(old(self).strings@, s.locations@),
            final(self).storage == old(self).storage,
            final(self).sample_types == old(self).sample_types,
            final(self).samples == old(self).samples,
            final(self).start_time == old(self).start_time,
            final(self).period == old(self).period,
            final(self).endpoints == old(self).endpoints,
    {
        let ghost t = self.strings@;
        let ghost g = |l: api::Location| line_function_keys(t, l);
        proof {
        }
        let ghost mut done: Seq<FunctionKey> = Seq::empty();
        let mut keys: Vec<FunctionKey> = Vec::new();
        let mut j: usize = 0;
        while j < s.locations.len()
            invariant
                self.strings.wf(),
                self.strings@ == t,
                holds_strings_of(t, *s),
                g == (|l: api::Location| line_function_keys(t, l)),
                j <= s.locations@.len(),
                done == flat(s.locations@.take(j as int), g),
                self.storage == old(self).storage,
                keys@ == done,
                self.sample_types == old(self).sample_types,
                self.samples == old(self).samples,
                self.start_time == old(self).start_time,
                self.period == old(self).period,
                self.endpoints == old(self).endpoints,
            decreases s.locations@.len() - j,
        {
            let loc = &s.locations[j];
            let ghost start = done;
            proof {
                lemma_sample_strings_locations(*s, j as int);
                lemma_flat_step(s.locations@, g, j as int);
            }
            let mut k: usize = 0;
            while k < loc.lines.len()
                invariant
                    self.strings.wf(),
                    self.strings@ == t,
                    holds_strings_of(t, *s),
                    0 <= j < s.locations@.len(),
                    *loc == s.locations@[j as int],
                    forall|q: int|
                        0 <= q < loc.lines@.len() ==> {
                            let f = (#[trigger] loc.lines@[q]).function;
                            &&& t.contains(f.name@)
                            &&& t.contains(f.system_name@)
                            &&& t.contains(f.filename@)
                        },
                    g(*loc) == line_function_keys(t, *loc),
                    k <= loc.lines@.len(),
                    done == start + g(*loc).take(k as int),
                    self.storage == old(self).storage,
                keys@ == done,
                    self.sample_types == old(self).sample_types,
                    self.samples == old(self).samples,
                    self.start_time == old(self).start_time,
                    self.period == old(self).period,
                    self.endpoints == old(self).endpoints,
                decreases loc.lines@.len() - k,
            {
                let f = loc.lines[k].function;
                proof {
                }
                let name = id_of_held(&mut self.strings, f.name);
                let system_name = id_of_held(&mut self.strings, f.system_name);
                let filename = id_of_held(&mut self.strings, f.filename);
                let function = pprof::Function {
                    id: 0,
                    name,
                    system_name,
                    filename,
                    start_line: f.start_line,
                };
                assert(function_key(function) == g(*loc)[k as int]);
                keys.push((name, system_name, filename, f.start_line));
                proof {
                    let d = start + g(*loc).take(k + 1);
                    assert(d =~= done.push(function_key(function)));
                    done = d;
                }
                k += 1;
            }
            proof {
                assert(g(*loc).take(k as int) =~= g(*loc));
            }
            j += 1;
        }
        proof {
            lemma_flat_all(s.locations@, g);
        }
        keys
    }

    /// Pass three of adding a sample: adds the function of each line of each
    /// location, unless the function table would grow past `CONTAINER_MAX`;
    /// then it stops, with the table extended by some of them.
    fn add_sample_functions(&mut self, s: &api::Sample) -> (ok: bool)
        requires
            old(self).strings.wf(),
            old(self).storage.wf(),
            holds_strings_of(old(self).strings@, *s),
        ensures
            final(self).strings.wf(),
            final(self).strings@ == old(self).strings@,
            final(self).storage.wf(),
            extends(final(self).storage.function_table(), old(self).storage.function_table()),
            ok == (intern_all(
                old(self).storage.function_table(),
                function_keys(old(self).strings@, s.locations@),
            ).len() <= CONTAINER_MAX),
            ok ==> final(self).storage.function_table() == intern_all(
                old(self).storage.function_table(),
                function_keys(old(self).strings@, s.locations@),
            ),
            final(self).storage.mapping_table() == old(self).storage.mapping_table(),
            final(self).storage.location_table() == old(self).storage.location_table(),
            final(self).sample_types == old(self).sample_types,
            final(self).samples == old(self).samples,
            final(self).start_time == old(self).start_time,
            final(self).period == old(self).period,
            final(self).endpoints == old(self).endpoints,
    {
        let ghost f0 = self.storage.function_table();
        let ghost all = function_keys(self.strings@, s.locations@);
        let keys = self.sample_function_keys(s);
        let mut i: usize = 0;
        while i < keys.len()
            invariant
                self.strings.wf(),
                self.strings@ == old(self).strings@,
                self.storage.wf(),
                f0 == old(self).storage.function_table(),
                f0.no_duplicates(),
                keys@ == all,
                all == function_keys(old(self).strings@, s.locations@),
                i <= all.len(),
                self.storage.function_table() == intern_all(f0, all.take(i as int)),
                self.storage.mapping_table() == old(self).storage.mapping_table(),
                self.storage.location_table() == old(self).storage.location_table(),
                self.sample_types == old(self).sample_types,
                self.samples == old(self).samples,
                self.start_time == old(self).start_time,
                self.period == old(self).period,
                self.endpoints == old(self).endpoints,
            decreases all.len() - i,
        {
            let k = keys[i];
            let function = pprof::Function {
                id: 0,
                name: k.0,
                system_name: k.1,
                filename: k.2,
                start_line: k.3,
            };
            proof {
                lemma_intern_all(f0, all.take(i as int));
                assert(function_key(function) == all[i as int]);
                assert(all.take(i + 1).drop_last() =~= all.take(i as int));
                assert(all.take(i + 1).last() == all[i as int]);
            }
            if self.storage.function_count() >= CONTAINER_MAX && !self.storage.has_function(
                &function,
            ) {
                proof {
                    let cur = intern_all(f0, all.take(i as int));
                    assert(!cur.contains(all[i as int]));
                    assert(intern_all(f0, all.take(i + 1)) == intern_one(cur, all[i as int]));
                    assert(intern_all(f0, all.take(i + 1)).len() == CONTAINER_MAX + 1);
                    lemma_intern_all_prefix(f0, all, i + 1);
                }
                return false;
            }
            self.storage.add_function(function);
            i += 1;
        }
        proof {
            assert(all.take(i as int) =~= all);
            lemma_intern_all(f0, all);
        }
        true
    }
}

} // verus!

verus! {

impl Profile {
    /// Pass four of adding a sample: adds each location; returns their ids.
    fn add_sample_locations(&mut self, s: &api::Sample) -> (r: Option<Vec<u64>>)
        requires
            old(self).strings.wf(),
            old(self).storage.wf(),
            holds_strings_of(old(self).strings@, *s),
            forall|j: int|
                0 <= j < s.locations@.len() ==> old(self).storage.mapping_table().contains(
                    mapping_key_of(old(self).strings@, (#[trigger] s.locations@[j]).mapping),
                ),
            forall|j: int, k: int|
                0 <= j < s.locations@.len() && 0 <= k < s.locations@[j].lines@.len()
                    ==> old(self).storage.function_table().contains(
                    function_key_of(
                        old(self).strings@,
                        (#[trigger] s.locations@[j].lines@[k]).function,
                    ),
                ),
        ensures
            final(self).strings.wf(),
            final(self).strings@ == old(self).strings@,
            final(self).storage.wf(),
            extends(final(self).storage.location_table(), old(self).storage.location_table()),
            r is Some <==> intern_all(
                old(self).storage.location_table(),
                location_keys(
                    old(self).strings@,
                    old(self).storage.mapping_table(),
                    old(self).storage.function_table(),
                    s.locations@,
                ),
            ).len() <= CONTAINER_MAX,
            r is Some ==> final(self).storage.location_table() == intern_all(
                old(self).storage.location_table(),
                location_keys(
                    old(self).strings@,
                    old(self).storage.mapping_table(),
                    old(self).storage.function_table(),
                    s.locations@,
                ),
            ),
            r is Some ==> r.unwrap()@ == s.locations@.map_values(
                |l: api::Location|
                    entity_id(
                        final(self).storage.location_table(),
                        location_key_of(
                            old(self).strings@,
                            old(self).storage.mapping_table(),
                            old(self).storage.function_table(),
                            l,
                        ),
                    ),
            ),
            final(self).storage.mapping_table() == old(self).storage.mapping_table(),
            final(self).storage.function_table() == old(self).storage.function_table(),
            final(self).sample_types == old(self).sample_types,
            final(self).samples == old(self).samples,
            final(self).start_time == old(self).start_time,
            final(self).period == old(self).period,
            final(self).endpoints == old(self).endpoints,
    {
        let ghost t = self.strings@;
        let ghost mt = self.storage.mapping_table();
        let ghost ft = self.storage.function_table();
        let ghost l0 = self.storage.location_table();
        let ghost keys = location_keys(t, mt, ft, s.locations@);
        let ghost lt = intern_all(l0, keys);
        proof {
            lemma_intern_all(l0, keys);
        }
        let mut ids: Vec<u64> = Vec::with_capacity(s.locations.len());
        let mut j: usize = 0;
        while j < s.locations.len()
            invariant
                self.strings.wf(),
                self.strings@ == t,
                holds_strings_of(t, *s),
                self.storage.wf(),
                self.storage.mapping_table() == mt,
                self.storage.function_table() == ft,
                forall|j: int|
                    0 <= j < s.locations@.len() ==> mt.contains(
                        mapping_key_of(t, (#[trigger] s.locations@[j]).mapping),
                    ),
                forall|j: int, k: int|
                    0 <= j < s.locations@.len() && 0 <= k < s.locations@[j].lines@.len()
                        ==> ft.contains(
                        function_key_of(t, (#[trigger] s.locations@[j].lines@[k]).function),
                    ),
                l0.no_duplicates(),
                l0 == old(self).storage.location_table(),
                t == old(self).strings@,
                mt == old(self).storage.mapping_table(),
                ft == old(self).storage.function_table(),
                keys == location_keys(t, mt, ft, s.locations@),
                lt == intern_all(l0, keys),
                lt.no_duplicates(),
                j <= s.locations@.len(),
                self.storage.location_table() == intern_all(l0, keys.take(j as int)),
                ids@.len() == j,
                forall|q: int|
                    0 <= q < j ==> #[trigger] ids@[q] == entity_id(
                        lt,
                        location_key_of(t, mt, ft, s.locations@[q]),
                    ),
                self.sample_types == old(self).sample_types,
                self.samples == old(self).samples,
                self.start_time == old(self).start_time,
                self.period == old(self).period,
                self.endpoints == old(self).endpoints,
            decreases s.locations@.len() - j,
        {
            let loc = &s.locations[j];
            proof {
                lemma_sample_strings_locations(*s, j as int);
                lemma_intern_all(l0, keys.take(j as int));
            }
            let filename = id_of_held(&mut self.strings, loc.mapping.filename);
            let build_id = id_of_held(&mut self.strings, loc.mapping.build_id);
            let mapping = pprof::Mapping {
                id: 0,
                memory_start: loc.mapping.memory_start,
                memory_limit: loc.mapping.memory_limit,
                file_offset: loc.mapping.file_offset,
                filename,
                build_id,
                has_functions: false,
                has_filenames: false,
                has_line_numbers: false,
                has_inline_frames: false,
            };
            assert(mapping_key(mapping) == mapping_key_of(t, loc.mapping));
            let mapping_id = self.storage.add_mapping(mapping);
            let mut lines: Vec<pprof::Line> = Vec::with_capacity(loc.lines.len());
            let mut k: usize = 0;
            while k < loc.lines.len()
                invariant
                    self.strings.wf(),
                    self.strings@ == t,
                    self.storage.wf(),
                    self.storage.mapping_table() == mt,
                    self.storage.function_table() == ft,
                    self.storage.location_table() == intern_all(l0, keys.take(j as int)),
                    0 <= j < s.locations@.len(),
                    *loc == s.locations@[j as int],
                    forall|q: int|
                        0 <= q < loc.lines@.len() ==> {
                            let f = (#[trigger] loc.lines@[q]).function;
                            &&& t.contains(f.name@)
                            &&& t.contains(f.system_name@)
                            &&& t.contains(f.filename@)
                        },
                    forall|q: int|
                        0 <= q < loc.lines@.len() ==> ft.contains(
                            function_key_of(t, (#[trigger] loc.lines@[q]).function),
                        ),
                    k <= loc.lines@.len(),
                    lines@.len() == k,
                    forall|q: int|
                        0 <= q < k ==> crate::storage::line_key(#[trigger] lines@[q])
                            == line_key_of(t, ft, loc.lines@[q]),
                    self.sample_types == old(self).sample_types,
                    self.samples == old(self).samples,
                    self.start_time == old(self).start_time,
                    self.period == old(self).period,
                    self.endpoints == old(self).endpoints,
                decreases loc.lines@.len() - k,
            {
                let ln = loc.lines[k];
                assert(ft.contains(function_key_of(t, loc.lines@[k as int].function)));
                let name = id_of_held(&mut self.strings, ln.function.name);
                let system_name = id_of_held(&mut self.strings, ln.function.system_name);
                let filename = id_of_held(&mut self.strings, ln.function.filename);
                let function = pprof::Function {
                    id: 0,
                    name,
                    system_name,
                    filename,
                    start_line: ln.function.start_line,
                };
                assert(function_key(function) == function_key_of(t, ln.function));
                let function_id = self.storage.add_function(function);
                lines.push(pprof::Line { function_id, line_number: ln.line });
                k += 1;
            }
            let location = pprof::Location {
                id: 0,
                mapping_id,
                address: loc.address,
                lines,
                is_folded: loc.is_folded,
            };
            proof {
                assert(location_key(location@).2 =~= location_key_of(t, mt, ft, *loc).2);
                assert(location_key(location@) == location_key_of(t, mt, ft, *loc));
                assert(keys[j as int] == location_key_of(t, mt, ft, *loc));
            }
            if self.storage.location_count() >= CONTAINER_MAX && !self.storage.has_location(
                &location,
            ) {
                proof {
                    let cur = intern_all(l0, keys.take(j as int));
                    assert(keys.take(j + 1).drop_last() =~= keys.take(j as int));
                    assert(keys.take(j + 1).last() == keys[j as int]);
                    assert(!cur.contains(keys[j as int]));
                    assert(intern_all(l0, keys.take(j + 1)) == intern_one(cur, keys[j as int]));
                    assert(intern_all(l0, keys.take(j + 1)).len() == CONTAINER_MAX + 1);
                    lemma_intern_all_prefix(l0, keys, j + 1);
                }
                return None;
            }
            let location_id = self.storage.add_location(location);
            proof {
                let d = keys.take(j + 1);
                assert(d.drop_last() =~= keys.take(j as int));
                lemma_intern_all_prefix(l0, keys, j + 1);
                lemma_intern_all(l0, d);
                lemma_position_extends(lt, intern_all(l0, d), keys[j as int]);
            }
            ids.push(location_id);
            j += 1;
        }
        proof {
            assert(keys.take(j as int) =~= keys);
            assert(ids@ =~= s.locations@.map_values(
                |l: api::Location| entity_id(lt, location_key_of(t, mt, ft, l)),
            ));
        }
        Some(ids)
    }

    /// Pass five of adding a sample: the keys of its labels.
    fn sample_label_keys(&mut self, s: &api::Sample) -> (keys: Vec<LabelKey>)
        requires
            old(self).strings.wf(),
            holds_strings_of(old(self).strings@, *s),
        ensures
            final(self).strings.wf(),
            final(self).strings@ == old(self).strings@,
            keys@ == s.labels@.map_values(|l: api::Label| label_key(old(self).strings@, l)),
            final(self).storage == old(self).storage,
            final(self).sample_types == old(self).sample_types,
            final(self).samples == old(self).samples,
            final(self).start_time == old(self).start_time,
            final(self).period == old(self).period,
            final(self).endpoints == old(self).endpoints,
    {
        let ghost t = self.strings@;
        let mut keys: Vec<LabelKey> = Vec::with_capacity(s.labels.len());
        let mut i: usize = 0;
        while i < s.labels.len()
            invariant
                self.strings.wf(),
                self.strings@ == t,
                holds_strings_of(t, *s),
                i <= s.labels@.len(),
                keys@ == s.labels@.take(i as int).map_values(|l: api::Label| label_key(t, l)),
                self.storage == old(self).storage,
                self.sample_types == old(self).sample_types,
                self.samples == old(self).samples,
                self.start_time == old(self).start_time,
                self.period == old(self).period,
                self.endpoints == old(self).endpoints,
            decreases s.labels@.len() - i,
        {
            let l = s.labels[i];
            proof {
                lemma_sample_strings_labels(*s, i as int);
            }
            let key = id_of_held(&mut self.strings, l.key);
            let str = match l.str {
                Some(v) => id_of_held(&mut self.strings, v),
                None => 0,
            };
            let num_unit = match l.num_unit {
                Some(v) => id_of_held(&mut self.strings, v),
                None => 0,
            };
            keys.push((key, str, l.num, num_unit));
            i += 1;
            assert(keys@ =~= s.labels@.take(i as int).map_values(|l: api::Label| label_key(t, l)));
        }
        assert(s.labels@.take(i as int) =~= s.labels@);
        keys
    }
}

} // verus!

verus! {

impl Profile {
    /// Adds `sample` to the profile: interns its strings, mappings, functions
    /// and locations, then adds its values to those of the sample with the same
    /// locations and labels, or enters it as a new sample. Returns the
    /// sample's id. A sample whose number of values is not that of the sample
    /// types is ignored, with id 0. Where a table would grow past
    /// `CONTAINER_MAX`, the call fails with `FullError`; the tables may then
    /// hold some of the sample's entries, and its values are not added.
    pub fn add(&mut self, sample: api::Sample) -> (r: Result<PProfId, FullError>)
        requires
            old(self).wf(),
        ensures
            final(self).wf(),
            sample.values@.len() != old(self).sample_type_ids().len() ==> r == Ok::<
                PProfId,
                FullError,
            >(PProfId(0)) && *final(self) == *old(self),
            sample.values@.len() == old(self).sample_type_ids().len() ==> (r is Ok <==> old(
                self,
            ).fits(sample)),
            sample.values@.len() == old(self).sample_type_ids().len() && !old(self).fits(sample)
                ==> r == Err::<PProfId, FullError>(FullError) && old(self).grows_to(*final(self)),
            sample.values@.len() == old(self).sample_type_ids().len() && old(self).fits(sample)
                ==> old(self).adds_to(sample, *final(self)) && (r matches Ok(id) && id.0
                == key_index(final(self).sample_table(), old(self).key_after(sample)) + 1),
    {
        if sample.values.len() != self.sample_types.len() {
            return Ok(PProfId(0));
        }
        let ghost t = old(self).strings_after(sample);
        let ghost mt = old(self).mappings_after(sample);
        let ghost ft = old(self).functions_after(sample);
        let ghost lt = old(self).locations_after(sample);
        proof {
            lemma_intern_all(old(self).strings@, sample_strings(sample));
            old(self).lemma_tables_valid();
        }
        if !self.intern_sample_strings(&sample) {
            proof {
                self.lemma_grown_wf(*old(self));
            }
            return Err(FullError);
        }
        assert(holds_strings_of(self.strings@, sample)) by {
            assert forall|x: Seq<char>| sample_strings(sample).contains(x) implies #[trigger] t.contains(x) by {
                let q = choose|q: int| 0 <= q < sample_strings(sample).len() && sample_strings(sample)[q] == x;
            }
        }
        if !self.add_sample_mappings(&sample) {
            proof {
                self.lemma_grown_wf(*old(self));
            }
            return Err(FullError);
        }
        if !self.add_sample_functions(&sample) {
            proof {
                self.lemma_grown_wf(*old(self));
            }
            return Err(FullError);
        }
        proof {
            lemma_intern_all(old(self).mapping_table(), mapping_keys(t, sample.locations@));
            lemma_intern_all(old(self).function_table(), function_keys(t, sample.locations@));
            assert forall|j: int| 0 <= j < sample.locations@.len() implies mt.contains(
                mapping_key_of(t, (#[trigger] sample.locations@[j]).mapping),
            ) by {
                assert(mapping_keys(t, sample.locations@)[j] == mapping_key_of(t, sample.locations@[j].mapping));
            }
            let g = |l: api::Location| line_function_keys(t, l);
            assert forall|j: int, k: int|
                0 <= j < sample.locations@.len() && 0 <= k < sample.locations@[j].lines@.len()
                    implies ft.contains(
                function_key_of(t, (#[trigger] sample.locations@[j].lines@[k]).function),
            ) by {
                crate::resolve::lemma_flat_contains(sample.locations@, g, j, k);
                let fk = function_keys(t, sample.locations@);
                let p = choose|p: int| 0 <= p < fk.len() && fk[p] == g(sample.locations@[j])[k];
            }
        }
        let location_ids = match self.add_sample_locations(&sample) {
            Some(ids) => ids,
            None => {
                proof {
                    self.lemma_grown_wf(*old(self));
                }
                return Err(FullError);
            },
        };
        let labels = self.sample_label_keys(&sample);
        let ghost key_view = old(self).key_after(sample);
        let key: SampleKey = (location_ids, labels);
        assert(sample_key_view(key).0 =~= key_view.0);
        assert(sample_key_view(key).1 =~= key_view.1);
        let ghost e = self.sample_table();
        let values = sample.values;
        match sample_map_index_of(&self.samples, &key) {
            None => {
                proof {
                    assert(!has_key(e, key_view));
                }
                if sample_map_len(&self.samples) >= CONTAINER_MAX {
                    proof {
                        assert(aggregated(e, key_view, sample.values@).len() == CONTAINER_MAX + 1);
                        self.lemma_grown_wf(*old(self));
                    }
                    return Err(FullError);
                }
                let i = sample_map_insert(&mut self.samples, key, values);
                proof {
                    assert(self.sample_table() == aggregated(e, key_view, sample.values@));
                    let f = self.sample_table();
                    assert(f[i as int].0 == key_view);
                    assert forall|a: int, b: int|
                        0 <= a < f.len() && 0 <= b < f.len() && a != b implies f[a].0
                            != f[b].0 by {
                        if a < e.len() {
                            assert(f[a] == e[a]);
                        }
                        if b < e.len() {
                            assert(f[b] == e[b]);
                        }
                    }
                    assert(key_index(f, key_view) == i);
                    assert forall|q: int| 0 <= q < f.len() implies (#[trigger] f[q]).1.len()
                        == self.sample_type_ids().len() by {
                        if q < e.len() {
                            assert(f[q] == e[q]);
                        }
                    }
                }
                Ok(PProfId(i + 1))
            },
            Some(i) => {
                proof {
                    assert(has_key(e, key_view));
                    assert(key_index(e, key_view) == i);
                }
                let existing = sample_map_get(&self.samples, i).unwrap().1;
                let n = existing.len();
                let mut sum: Vec<i64> = Vec::with_capacity(n);
                let mut k: usize = 0;
                while k < n
                    invariant
                        n == existing@.len(),
                        n == values@.len(),
                        k <= n,
                        sum@ == summed(existing@, values@).take(k as int),
                    decreases n - k,
                {
                    sum.push(existing[k].wrapping_add(values[k]));
                    k += 1;
                    assert(sum@ =~= summed(existing@, values@).take(k as int));
                }
                assert(sum@ =~= summed(existing@, values@));
                let j = sample_map_insert(&mut self.samples, key, sum);
                proof {
                    if j == e.len() {
                        assert(e[i as int].0 == key_view);
                    }
                    assert(j == i);
                    let f = self.sample_table();
                    assert(f =~= aggregated(e, key_view, sample.values@));
                    assert forall|a: int, b: int|
                        0 <= a < f.len() && 0 <= b < f.len() && a != b implies f[a].0
                            != f[b].0 by {
                        assert(f[a].0 == e[a].0 && f[b].0 == e[b].0);
                    }
                    assert(f[i as int].0 == key_view);
                    assert(has_key(f, key_view));
                    let q = key_index(f, key_view);
                    assert(0 <= q < f.len() && f[q].0 == key_view);
                    assert(key_index(f, key_view) == i);
                    assert forall|q: int| 0 <= q < f.len() implies (#[trigger] f[q]).1.len()
                        == self.sample_type_ids().len() by {
                        if q != i {
                            assert(f[q] == e[q]);
                        }
                    }
                }
                Ok(PProfId(i + 1))
            },
        }
    }
}

} // verus!

verus! {

/// The type and unit strings of a value type.
pub open spec fn type_names(v: api::ValueType) -> (Seq<char>, Seq<char>) {
    (v.type_@, v.unit@)
}

pub open spec fn pair_strings(p: (Seq<char>, Seq<char>)) -> Seq<Seq<char>> {
    seq![p.0, p.1]
}

/// The strings that building a profile interns: each sample type's type and
/// unit, then the period's.
pub open spec fn schema_strings(
    sample_types: Seq<(Seq<char>, Seq<char>)>,
    period: Option<(i64, (Seq<char>, Seq<char>))>,
) -> Seq<Seq<char>> {
    flat(sample_types, |p: (Seq<char>, Seq<char>)| pair_strings(p)) + match period {
        Some(p) => pair_strings(p.1),
        None => Seq::empty(),
    }
}

/// The table of a newly built profile.
pub open spec fn schema_table(
    sample_types: Seq<(Seq<char>, Seq<char>)>,
    period: Option<(i64, (Seq<char>, Seq<char>))>,
) -> Seq<Seq<char>> {
    intern_all(seq![Seq::<char>::empty()], schema_strings(sample_types, period))
}

pub open spec fn value_type_ids(t: Seq<Seq<char>>, v: api::ValueType) -> ValueType {
    ValueType { type_: string_id(t, v.type_@), unit: string_id(t, v.unit@) }
}

/// The string table after an endpoint was added.
pub open spec fn strings_after_endpoint(
    t: Seq<Seq<char>>,
    first: bool,
    span: Seq<char>,
    endpoint: Seq<char>,
) -> Seq<Seq<char>> {
    let labelled = if first {
        intern_one(intern_one(t, span_label_name()), endpoint_label_name())
    } else {
        t
    };
    intern_one(intern_one(labelled, span), endpoint)
}

/// Builds a profile from its sample types, period and start time.
pub struct ProfileBuilder<'a> {
    period: Option<api::Period<'a>>,
    sample_types: Vec<api::ValueType<'a>>,
    start_time: Option<Timespec>,
}

impl<'a> ProfileBuilder<'a> {
    pub closed spec fn period_spec(&self) -> Option<api::Period<'a>> {
        self.period
    }

    pub closed spec fn sample_types_spec(&self) -> Seq<api::ValueType<'a>> {
        self.sample_types@
    }

    pub closed spec fn start_time_spec(&self) -> Option<Timespec> {
        self.start_time
    }

    /// The strings of the sample types.
    pub open spec fn type_names(&self) -> Seq<(Seq<char>, Seq<char>)> {
        self.sample_types_spec().map_values(|v: api::ValueType| type_names(v))
    }

    /// The value and strings of the period.
    pub open spec fn period_names(&self) -> Option<(i64, (Seq<char>, Seq<char>))> {
        match self.period_spec() {
            Some(p) => Some((p.value, type_names(p.type_))),
            None => None,
        }
    }

    /// No sample types, no period, and the time of building as start.
    pub fn new() -> (r: Self)
        ensures
            r.period_spec() is None,
            r.sample_types_spec().len() == 0,
            r.start_time_spec() is None,
    {
        ProfileBuilder { period: None, sample_types: Vec::new(), start_time: None }
    }

    pub fn period(self, period: Option<api::Period<'a>>) -> (r: Self)
        ensures
            r.period_spec() == period,
            r.sample_types_spec() == self.sample_types_spec(),
            r.start_time_spec() == self.start_time_spec(),
    {
        ProfileBuilder { period, ..self }
    }

    pub fn sample_types(self, sample_types: Vec<api::ValueType<'a>>) -> (r: Self)
        ensures
            r.period_spec() == self.period_spec(),
            r.sample_types_spec() == sample_types@,
            r.start_time_spec() == self.start_time_spec(),
    {
        ProfileBuilder { sample_types, ..self }
    }

    pub fn start_time(self, start_time: Option<Timespec>) -> (r: Self)
        ensures
            r.period_spec() == self.period_spec(),
            r.sample_types_spec() == self.sample_types_spec(),
            r.start_time_spec() == start_time,
    {
        ProfileBuilder { start_time, ..self }
    }

    /// The profile: its string table holds the empty string, then the
    /// strings of the sample types and of the period; all else is empty.
    pub fn build(self) -> (r: Profile)
        requires
            2 * self.sample_types_spec().len() + 3 <= CONTAINER_MAX,
        ensures
            r.wf(),
            r.string_table() == schema_table(self.type_names(), self.period_names()),
            r.type_names() == self.type_names(),
            r.period_names() == self.period_names(),
            r.sample_type_ids() == self.sample_types_spec().map_values(
                |v: api::ValueType| value_type_ids(r.string_table(), v),
            ),
            r.period_ids() == match self.period_spec() {
                Some(p) => Some((p.value, value_type_ids(r.string_table(), p.type_))),
                None => None,
            },
            self.start_time_spec() matches Some(t) ==> r.start() == t,
            r.is_empty(),
    {
        let start = match self.start_time {
            Some(t) => t,
            None => Timespec::now(),
        };
        let mut profile = Profile::new(start);
        let ghost t0 = profile.strings@;
        let ghost names = self.type_names();
        let ghost vf = |p: (Seq<char>, Seq<char>)| pair_strings(p);
        let ghost mut done: Seq<Seq<char>> = Seq::empty();
        let ghost all = schema_strings(names, self.period_names());
        let mut i: usize = 0;
        while i < self.sample_types.len()
            invariant
                profile.wf(),
                profile.is_empty(),
                profile.sample_types@.len() == 0,
                profile.period is None,
                profile.start_time == start,
                t0 == seq![Seq::<char>::empty()],
                t0.no_duplicates(),
                vf == (|p: (Seq<char>, Seq<char>)| pair_strings(p)),
                names == self.type_names(),
                2 * self.sample_types@.len() + 3 <= CONTAINER_MAX,
                i <= self.sample_types@.len(),
                done == flat(names.take(i as int), vf),
                done.len() == 2 * i,
                profile.strings@ == intern_all(t0, done),
            decreases self.sample_types@.len() - i,
        {
            let v = self.sample_types[i];
            proof {
                lemma_flat_step(names, vf, i as int);
            }
            intern_next(&mut profile.strings, v.type_, Ghost(t0), Ghost(done));
            proof {
                done = done.push(v.type_@);
            }
            intern_next(&mut profile.strings, v.unit, Ghost(t0), Ghost(done));
            proof {
                done = done.push(v.unit@);
                assert(done =~= flat(names.take(i + 1), vf));
            }
            i += 1;
        }
        proof {
            lemma_flat_all(names, vf);
        }
        match self.period {
            Some(p) => {
                intern_next(&mut profile.strings, p.type_.type_, Ghost(t0), Ghost(done));
                proof {
                    done = done.push(p.type_.type_@);
                }
                intern_next(&mut profile.strings, p.type_.unit, Ghost(t0), Ghost(done));
                proof {
                    done = done.push(p.type_.unit@);
                }
            },
            None => {},
        }
        let ghost t = profile.strings@;
        proof {
            assert(done =~= all);
            lemma_intern_all(t0, all);
        }
        let mut types: Vec<ValueType> = Vec::with_capacity(self.sample_types.len());
        let mut k: usize = 0;
        while k < self.sample_types.len()
            invariant
                profile.wf(),
                profile.is_empty(),
                profile.sample_types@.len() == 0,
                profile.period is None,
                profile.start_time == start,
                profile.strings@ == t,
                t == intern_all(t0, all),
                all == schema_strings(names, self.period_names()),
                names == self.type_names(),
                vf == (|p: (Seq<char>, Seq<char>)| pair_strings(p)),
                forall|j: int| 0 <= j < all.len() ==> t.contains(#[trigger] all[j]),
                k <= self.sample_types@.len(),
                types@ == self.sample_types@.take(k as int).map_values(
                    |v: api::ValueType| value_type_ids(t, v),
                ),
                forall|q: int| 0 <= q < k ==> value_type_in(#[trigger] types@[q], t),
                forall|q: int| 0 <= q < k ==> {
                    &&& t[(#[trigger] types@[q]).type_ as int] == names[q].0
                    &&& t[types@[q].unit as int] == names[q].1
                },
            decreases self.sample_types@.len() - k,
        {
            let v = self.sample_types[k];
            proof {
                let fl = flat(names, vf);
                crate::resolve::lemma_flat_contains(names, vf, k as int, 0);
                crate::resolve::lemma_flat_contains(names, vf, k as int, 1);
                let at_type = choose|p: int| 0 <= p < fl.len() && fl[p] == v.type_@;
                let at_unit = choose|p: int| 0 <= p < fl.len() && fl[p] == v.unit@;
                assert(all[at_type] == fl[at_type]);
                assert(all[at_unit] == fl[at_unit]);
            }
            let type_ = id_of_held(&mut profile.strings, v.type_);
            let unit = id_of_held(&mut profile.strings, v.unit);
            types.push(ValueType { type_, unit });
            k += 1;
            assert(types@ =~= self.sample_types@.take(k as int).map_values(
                |v: api::ValueType| value_type_ids(t, v),
            ));
        }
        assert(self.sample_types@.take(k as int) =~= self.sample_types@);
        let period = match self.period {
            Some(p) => {
                proof {
                    let fl = flat(names, vf);
                    assert(all[fl.len() as int] == p.type_.type_@);
                    assert(all[fl.len() as int + 1] == p.type_.unit@);
                }
                let type_ = id_of_held(&mut profile.strings, p.type_.type_);
                let unit = id_of_held(&mut profile.strings, p.type_.unit);
                Some((p.value, ValueType { type_, unit }))
            },
            None => None,
        };
        profile.sample_types = types;
        profile.period = period;
        profile
    }
}

impl Profile {
    /// The strings of the sample types.
    pub open spec fn type_names(&self) -> Seq<(Seq<char>, Seq<char>)> {
        self.sample_type_ids().map_values(
            |v: ValueType| (self.string_table()[v.type_ as int], self.string_table()[v.unit as int]),
        )
    }

    /// The value and strings of the period.
    pub open spec fn period_names(&self) -> Option<(i64, (Seq<char>, Seq<char>))> {
        match self.period_ids() {
            Some(p) => Some(
                (
                    p.0,
                    (self.string_table()[p.1.type_ as int], self.string_table()[p.1.unit as int]),
                ),
            ),
            None => None,
        }
    }

    /// The entity tables of a well-formed profile have no repeats and at most
    /// `CONTAINER_MAX` entries.
    pub proof fn lemma_tables_valid(&self)
        requires
            self.wf(),
        ensures
            crate::storage::valid_entity_table(self.mapping_table()),
            crate::storage::valid_entity_table(self.function_table()),
            crate::storage::valid_entity_table(self.location_table()),
    {
    }

    /// Every id that an entry of a table holds names an entry of the table it
    /// refers to: string ids are below the string table's length, mapping ids
    /// are 0 or at most the mapping table's length, function and location ids
    /// are 1 up to their table's length.
    pub open spec fn references_valid(&self) -> bool {
        let n = self.string_table().len();
        let mt = self.mapping_table();
        let ft = self.function_table();
        let lt = self.location_table();
        let st = self.sample_table();
        &&& forall|i: int|
            0 <= i < mt.len() ==> 0 <= (#[trigger] mt[i]).3 < n && 0 <= mt[i].4 < n
        &&& forall|i: int|
            0 <= i < ft.len() ==> 0 <= (#[trigger] ft[i]).0 < n && 0 <= ft[i].1 < n && 0
                <= ft[i].2 < n
        &&& forall|i: int|
            0 <= i < lt.len() ==> (#[trigger] lt[i]).0 <= mt.len() && forall|k: int|
                0 <= k < lt[i].2.len() ==> 1 <= (#[trigger] lt[i].2[k]).0 <= ft.len()
        &&& forall|i: int|
            0 <= i < st.len() ==> (forall|k: int|
                0 <= k < (#[trigger] st[i]).0.0.len() ==> 1 <= #[trigger] st[i].0.0[k] <= lt.len())
                && (forall|k: int|
                0 <= k < st[i].0.1.len() ==> label_ids_below(#[trigger] st[i].0.1[k], n))
    }

    /// Both profiles hold the same tables, schema, start and endpoints.
    pub open spec fn same_contents(&self, other: Profile) -> bool {
        &&& self.string_table() == other.string_table()
        &&& self.mapping_table() == other.mapping_table()
        &&& self.function_table() == other.function_table()
        &&& self.location_table() == other.location_table()
        &&& self.sample_table() == other.sample_table()
        &&& self.sample_type_ids() == other.sample_type_ids()
        &&& self.period_ids() == other.period_ids()
        &&& self.start() == other.start()
        &&& self.endpoints().span_map() == other.endpoints().span_map()
        &&& self.endpoints().span_label() == other.endpoints().span_label()
        &&& self.endpoints().endpoint_label() == other.endpoints().endpoint_label()
        &&& self.endpoints().stats().entries() == other.endpoints().stats().entries()
    }

    /// This profile is an empty successor of `before`: it has the same sample
    /// types and period, their strings alone in its string table.
    pub open spec fn reset_from(&self, before: Profile) -> bool {
        &&& self.is_empty()
        &&& self.string_table() == schema_table(before.type_names(), before.period_names())
        &&& self.type_names() == before.type_names()
        &&& self.period_names() == before.period_names()
    }

    /// Whether no sample, mapping, function, location or endpoint was added.
    pub open spec fn is_empty(&self) -> bool {
        &&& self.sample_table().len() == 0
        &&& self.mapping_table().len() == 0
        &&& self.function_table().len() == 0
        &&& self.location_table().len() == 0
        &&& self.endpoints().span_map().dom() == Set::<i64>::empty()
        &&& self.endpoints().stats().entries().len() == 0
    }

    /// An empty profile that starts at `start_time`; its string table holds
    /// the empty string alone.
    pub fn new(start_time: Timespec) -> (r: Self)
        ensures
            r.wf(),
            r.string_table() == seq![Seq::<char>::empty()],
            r.sample_type_ids().len() == 0,
            r.period_ids() is None,
            r.start() == start_time,
            r.is_empty(),
    {
        Profile {
            sample_types: Vec::new(),
            samples: sample_map_new(),
            storage: ProfileStorage::new(),
            strings: StringTable::new(),
            start_time,
            period: None,
            endpoints: Endpoints::new(),
        }
    }

    pub fn builder<'a>() -> (r: ProfileBuilder<'a>)
        ensures
            r.period_spec() is None,
            r.sample_types_spec().len() == 0,
            r.start_time_spec() is None,
    {
        ProfileBuilder::new()
    }

    /// Interns `s`, returning its id in the string table.
    pub fn intern(&mut self, s: &str) -> (r: i64)
        requires
            old(self).wf(),
            old(self).string_table().len() < CONTAINER_MAX || old(self).string_table().contains(
                s@,
            ),
        ensures
            final(self).wf(),
            final(self).string_table() == intern_one(old(self).string_table(), s@),
            r == string_id(final(self).string_table(), s@),
            0 <= r < final(self).string_table().len(),
            final(self).mapping_table() == old(self).mapping_table(),
            final(self).function_table() == old(self).function_table(),
            final(self).location_table() == old(self).location_table(),
            final(self).sample_table() == old(self).sample_table(),
            final(self).sample_type_ids() == old(self).sample_type_ids(),
            final(self).period_ids() == old(self).period_ids(),
            final(self).start() == old(self).start(),
            final(self).endpoints() == old(self).endpoints(),
    {
        proof {
            crate::interning::lemma_intern_one(old(self).strings@, s@);
        }
        self.strings.intern(s)
    }

    /// The string with id `id`, if there is one.
    pub fn get_string(&self, id: i64) -> (r: Option<&String>)
        ensures
            r is Some <==> 0 <= id < self.string_table().len(),
            r is Some ==> r.unwrap()@ == self.string_table()[id as int],
    {
        self.strings.get(id)
    }
}

} // verus!

verus! {

impl Profile {
    /// Maps the local root span id `local_root_span_id` to `endpoint` (the
    /// later call for a span id wins) and counts one report of `endpoint`.
    /// The first call interns the keys of the two labels involved. Where the
    /// string table would grow past `CONTAINER_MAX`, the call fails; the table
    /// may then hold some of the strings, and nothing else changes.
    pub fn add_endpoint(&mut self, local_root_span_id: &str, endpoint: &str) -> (r: Result<
        (),
        FullError,
    >)
        requires
            old(self).wf(),
        ensures
            final(self).wf(),
            r is Ok <==> strings_after_endpoint(
                old(self).string_table(),
                old(self).endpoints().span_map().dom() == Set::<i64>::empty(),
                local_root_span_id@,
                endpoint@,
            ).len() <= CONTAINER_MAX,
            r is Err ==> old(self).grows_to(*final(self)) && final(self).mapping_table() == old(
                self,
            ).mapping_table() && final(self).function_table() == old(self).function_table()
                && final(self).location_table() == old(self).location_table(),
            r is Ok ==> {
                let first = old(self).endpoints().span_map().dom() == Set::<i64>::empty();
                let t = strings_after_endpoint(
                    old(self).string_table(),
                    first,
                    local_root_span_id@,
                    endpoint@,
                );
                &&& final(self).string_table() == t
                &&& final(self).endpoints().span_map() == old(self).endpoints().span_map().insert(
                    string_id(t, local_root_span_id@),
                    string_id(t, endpoint@),
                )
                &&& first ==> final(self).endpoints().span_label() == string_id(
                    t,
                    span_label_name(),
                ) && final(self).endpoints().endpoint_label() == string_id(
                    t,
                    endpoint_label_name(),
                )
                &&& !first ==> final(self).endpoints().span_label() == old(
                    self,
                ).endpoints().span_label() && final(self).endpoints().endpoint_label() == old(
                    self,
                ).endpoints().endpoint_label()
                &&& final(self).endpoints().stats().entries() == crate::profiled_endpoints::counted(
                    old(self).endpoints().stats().entries(),
                    endpoint@,
                )
                &&& final(self).mapping_table() == old(self).mapping_table()
                &&& final(self).function_table() == old(self).function_table()
                &&& final(self).location_table() == old(self).location_table()
                &&& final(self).sample_table() == old(self).sample_table()
                &&& final(self).sample_type_ids() == old(self).sample_type_ids()
                &&& final(self).period_ids() == old(self).period_ids()
                &&& final(self).start() == old(self).start()
            },
    {
        let ghost t_old = self.strings@;
        let first = crate::collections::endpoint_map_is_empty(&self.endpoints.mappings);
        let mut span_label: i64 = 0;
        let mut endpoint_label: i64 = 0;
        if first {
            span_label = match self.strings.try_intern("local root span id") {
                Some(id) => id,
                None => {
                    proof {
                        self.lemma_grown_wf(*old(self));
                    }
                    return Err(FullError);
                },
            };
            endpoint_label = match self.strings.try_intern("trace endpoint") {
                Some(id) => id,
                None => {
                    proof {
                        crate::interning::lemma_intern_one(t_old, span_label_name());
                        self.lemma_grown_wf(*old(self));
                    }
                    return Err(FullError);
                },
            };
            proof {
                crate::interning::lemma_intern_one(t_old, span_label_name());
                crate::interning::lemma_intern_one(
                    intern_one(t_old, span_label_name()),
                    endpoint_label_name(),
                );
                lemma_position_extends(
                    self.strings@,
                    intern_one(t_old, span_label_name()),
                    span_label_name(),
                );
            }
        }
        let ghost t_mid = self.strings@;
        proof {
            crate::interning::lemma_intern_one(t_old, span_label_name());
            crate::interning::lemma_intern_one(t_mid, local_root_span_id@);
            crate::interning::lemma_intern_one(
                intern_one(t_mid, local_root_span_id@),
                endpoint@,
            );
        }
        let span = match self.strings.try_intern(local_root_span_id) {
            Some(id) => id,
            None => {
                proof {
                    self.lemma_grown_wf(*old(self));
                }
                return Err(FullError);
            },
        };
        let ghost t_span = self.strings@;
        let ep = match self.strings.try_intern(endpoint) {
            Some(id) => id,
            None => {
                proof {
                    self.lemma_grown_wf(*old(self));
                }
                return Err(FullError);
            },
        };
        let ghost t = self.strings@;
        if first {
            self.endpoints.local_root_span_id_label = span_label;
            self.endpoints.endpoint_label = endpoint_label;
        }
        proof {
            lemma_position_extends(t, t_span, local_root_span_id@);
            if first {
                lemma_position_extends(t, t_mid, span_label_name());
                lemma_position_extends(t, t_mid, endpoint_label_name());
            }
        }
        crate::collections::endpoint_map_insert(&mut self.endpoints.mappings, span, ep);
        self.endpoints.stats.add_endpoint(endpoint.to_owned());
        proof {
            let m = self.endpoints().span_map();
            assert(extends(t, t_old));
            assert(extends(t, t_mid));
            assert forall|k: i64| #[trigger] m.contains_key(k) implies 0 <= k < t.len() && 0
                <= m[k] < t.len() by {
                if k != span {
                    assert(old(self).endpoints().span_map().contains_key(k));
                }
            }
            assert(m.contains_key(span));
            if !first {
                assert(old(self).endpoints().span_map().dom() != Set::<i64>::empty());
                let sl = self.endpoints().span_label() as int;
                let el = self.endpoints().endpoint_label() as int;
                assert(t[sl] == t_old[sl]);
                assert(t[el] == t_old[el]);
            }
            assert forall|i: int|
                0 <= i < self.sample_type_ids().len() implies value_type_in(
                #[trigger] self.sample_type_ids()[i],
                self.string_table(),
            ) by {
                assert(value_type_in(old(self).sample_type_ids()[i], t_old));
            }
        }
        Ok(())
    }
}

} // verus!

verus! {

impl Profile {
    /// Replaces the profile with an empty one that has the same sample types
    /// and period (their strings interned anew) and starts at `start_time`
    /// (the current time where none is given); returns the previous profile.
    pub fn reset(&mut self, start_time: Option<Timespec>) -> (r: Option<Profile>)
        requires
            old(self).wf(),
        ensures
            r == Some(*old(self)),
            final(self).wf(),
            final(self).reset_from(*old(self)),
            start_time matches Some(t) ==> final(self).start() == t,
    {
        let mut types: Vec<api::ValueType> = Vec::with_capacity(self.sample_types.len());
        let mut i: usize = 0;
        while i < self.sample_types.len()
            invariant
                self.wf(),
                i <= self.sample_types@.len(),
                types@.len() == i,
                types@.map_values(|v: api::ValueType| type_names(v)) == self.type_names().take(
                    i as int,
                ),
            decreases self.sample_types@.len() - i,
        {
            let st = self.sample_types[i];
            assert(value_type_in(self.sample_types@[i as int], self.string_table()));
            let type_ = self.strings.get(st.type_).unwrap();
            let unit = self.strings.get(st.unit).unwrap();
            let ghost before = types@;
            let v = api::ValueType { type_: type_.as_str(), unit: unit.as_str() };
            assert(type_names(v) == self.type_names()[i as int]);
            types.push(v);
            proof {
                assert forall|q: int| 0 <= q < i implies #[trigger] type_names(types@[q])
                    == self.type_names()[q] by {
                    assert(types@[q] == before[q]);
                    assert(before.map_values(|v: api::ValueType| type_names(v))[q]
                        == self.type_names().take(i as int)[q]);
                }
            }
            i += 1;
            assert(types@.map_values(|v: api::ValueType| type_names(v)) =~= self.type_names().take(
                i as int,
            ));
        }
        assert(self.type_names().take(i as int) =~= self.type_names());
        let period = match self.period {
            Some(p) => {
                let type_ = self.strings.get(p.1.type_).unwrap();
                let unit = self.strings.get(p.1.unit).unwrap();
                Some(
                    api::Period {
                        type_: api::ValueType { type_: type_.as_str(), unit: unit.as_str() },
                        value: p.0,
                    },
                )
            },
            None => None,
        };
        let builder = ProfileBuilder::new().sample_types(types).period(period).start_time(
            start_time,
        );
        assert(builder.type_names() == self.type_names());
        let mut profile = builder.build();
        std::mem::swap(self, &mut profile);
        Some(profile)
    }
}

} // verus!

verus! {

pub open spec fn label_record(k: LabelKey) -> pprof::Label {
    pprof::Label { key: k.0, str: k.1, num: k.2, num_unit: k.3 }
}

/// The string value of the first label with key `key`, if there is one.
pub open spec fn first_value_of(ls: Seq<LabelKey>, key: i64) -> Option<i64>
    decreases ls.len(),
{
    if ls.len() == 0 {
        None
    } else if ls[0].0 == key {
        Some(ls[0].1)
    } else {
        first_value_of(ls.subrange(1, ls.len() as int), key)
    }
}

/// The labels of a sample as emitted: its own, then the endpoint label where
/// its first local root span id label names a span with an endpoint.
pub open spec fn emitted_labels(
    ls: Seq<LabelKey>,
    span_label: i64,
    endpoint_label: i64,
    spans: Map<i64, i64>,
) -> Seq<pprof::Label> {
    let own = ls.map_values(|k: LabelKey| label_record(k));
    match first_value_of(ls, span_label) {
        Some(span) => if spans.contains_key(span) {
            own.push(pprof::Label { key: endpoint_label, str: spans[span], num: 0, num_unit: 0 })
        } else {
            own
        },
        None => own,
    }
}

fn copy_u64s(v: &Vec<u64>) -> (r: Vec<u64>)
    ensures
        r@ == v@,
{
    let mut r: Vec<u64> = Vec::with_capacity(v.len());
    let mut i: usize = 0;
    while i < v.len()
        invariant
            i <= v@.len(),
            r@ == v@.take(i as int),
        decreases v@.len() - i,
    {
        r.push(v[i]);
        i += 1;
        assert(r@ =~= v@.take(i as int));
    }
    assert(v@.take(i as int) =~= v@);
    r
}

fn copy_i64s(v: &Vec<i64>) -> (r: Vec<i64>)
    ensures
        r@ == v@,
{
    let mut r: Vec<i64> = Vec::with_capacity(v.len());
    let mut i: usize = 0;
    while i < v.len()
        invariant
            i <= v@.len(),
            r@ == v@.take(i as int),
        decreases v@.len() - i,
    {
        r.push(v[i]);
        i += 1;
        assert(r@ =~= v@.take(i as int));
    }
    assert(v@.take(i as int) =~= v@);
    r
}

impl Profile {
    /// The profile's samples as `pprof` has them.
    pub open spec fn emitted_samples(&self) -> Seq<pprof::SampleView> {
        let e = self.sample_table();
        Seq::new(
            e.len(),
            |i: int|
                pprof::SampleView {
                    location_ids: e[i].0.0,
                    values: e[i].1,
                    labels: emitted_labels(
                        e[i].0.1,
                        self.endpoints().span_label(),
                        self.endpoints().endpoint_label(),
                        self.endpoints().span_map(),
                    ),
                },
        )
    }

    /// The whole profile as `pprof` has it, with duration `duration`.
    pub open spec fn pprof_view(&self, duration: i64) -> pprof::ProfileView {
        let mt = self.mapping_table();
        let lt = self.location_table();
        let ft = self.function_table();
        pprof::ProfileView {
            sample_types: self.sample_type_ids(),
            samples: self.emitted_samples(),
            mappings: Seq::new(
                mt.len(),
                |i: int| crate::storage::mapping_record(mt[i], (i + 1) as u64),
            ),
            locations: Seq::new(
                lt.len(),
                |i: int| crate::storage::location_record(lt[i], (i + 1) as u64),
            ),
            functions: Seq::new(
                ft.len(),
                |i: int| crate::storage::function_record(ft[i], (i + 1) as u64),
            ),
            string_table: self.string_table(),
            drop_frames: 0,
            keep_frames: 0,
            time_nanos: crate::time::time_nanos(self.start()),
            duration_nanos: duration,
            period_type: match self.period_ids() {
                Some(p) => Some(p.1),
                None => None,
            },
            period: match self.period_ids() {
                Some(p) => p.0,
                None => 0,
            },
            comment: Seq::empty(),
            default_sample_type: 0,
        }
    }

    /// The labels of a sample as emitted.
    fn emit_labels(&self, ls: &Vec<LabelKey>, with_endpoints: bool) -> (r: Vec<pprof::Label>)
        requires
            with_endpoints == (self.endpoints().span_map().dom() != Set::<i64>::empty()),
        ensures
            r@ == emitted_labels(
                ls@,
                self.endpoints().span_label(),
                self.endpoints().endpoint_label(),
                self.endpoints().span_map(),
            ),
    {
        let ghost own = ls@.map_values(|k: LabelKey| label_record(k));
        let mut out: Vec<pprof::Label> = Vec::with_capacity(ls.len());
        let mut i: usize = 0;
        while i < ls.len()
            invariant
                i <= ls@.len(),
                own == ls@.map_values(|k: LabelKey| label_record(k)),
                out@ == own.take(i as int),
            decreases ls@.len() - i,
        {
            let k = ls[i];
            out.push(pprof::Label { key: k.0, str: k.1, num: k.2, num_unit: k.3 });
            i += 1;
            assert(out@ =~= own.take(i as int));
        }
        assert(own.take(i as int) =~= own);
        if !with_endpoints {
            proof {
                match first_value_of(ls@, self.endpoints().span_label()) {
                    Some(span) => {
                        assert(!self.endpoints().span_map().dom().contains(span));
                    },
                    None => {},
                }
            }
            return out;
        }
        let key = self.endpoints.local_root_span_id_label;
        let mut found: Option<i64> = None;
        let mut searching = true;
        let mut j: usize = 0;
        assert(ls@.subrange(0, ls@.len() as int) =~= ls@);
        while searching && j < ls.len()
            invariant
                j <= ls@.len(),
                searching ==> found is None && first_value_of(ls@, key) == first_value_of(
                    ls@.subrange(j as int, ls@.len() as int),
                    key,
                ),
                !searching ==> found == first_value_of(ls@, key),
            decreases ls@.len() - j,
        {
            let ghost rest = ls@.subrange(j as int, ls@.len() as int);
            assert(rest.subrange(1, rest.len() as int) =~= ls@.subrange(j + 1, ls@.len() as int));
            if ls[j].0 == key {
                found = Some(ls[j].1);
                searching = false;
            }
            j += 1;
        }
        if searching {
            assert(ls@.subrange(j as int, ls@.len() as int).len() == 0);
        }
        match found {
            Some(span) => match crate::collections::endpoint_map_get(&self.endpoints.mappings, span) {
                Some(endpoint) => {
                    out.push(pprof::Label::str(self.endpoints.endpoint_label, endpoint));
                },
                None => {},
            },
            None => {},
        }
        out
    }

    /// The samples as emitted.
    fn emit_samples(&self) -> (r: Vec<pprof::Sample>)
        requires
            self.wf(),
        ensures
            r@.map_values(|s: pprof::Sample| s@) == self.emitted_samples(),
    {
        let with_endpoints = !crate::collections::endpoint_map_is_empty(&self.endpoints.mappings);
        let ghost want = self.emitted_samples();
        let n = sample_map_len(&self.samples);
        let mut out: Vec<pprof::Sample> = Vec::with_capacity(n);
        let mut i: usize = 0;
        while i < n
            invariant
                n == self.sample_table().len(),
                want == self.emitted_samples(),
                with_endpoints == (self.endpoints().span_map().dom() != Set::<i64>::empty()),
                i <= n,
                out@.len() == i,
                forall|q: int| 0 <= q < i ==> (#[trigger] out@[q])@ == want[q],
            decreases n - i,
        {
            let (k, v) = sample_map_get(&self.samples, i).unwrap();
            let labels = self.emit_labels(&k.1, with_endpoints);
            let sample = pprof::Sample {
                location_ids: copy_u64s(&k.0),
                values: copy_i64s(v),
                labels,
            };
            assert(sample@ == want[i as int]);
            out.push(sample);
            i += 1;
        }
        assert(out@.map_values(|s: pprof::Sample| s@) =~= want);
        out
    }

    /// The profile as a `pprof` message, with a duration of zero.
    pub fn to_pprof(&self) -> (r: pprof::Profile)
        requires
            self.wf(),
        ensures
            r@ == self.pprof_view(0),
    {
        let samples = self.emit_samples();
        let mappings = self.storage.mappings();
        let locations = self.storage.locations();
        let functions = self.storage.functions();
        let string_table = self.strings.strings();
        let (period, period_type) = match self.period {
            Some(p) => (p.0, Some(p.1)),
            None => (0, None),
        };
        let mut sample_types: Vec<ValueType> = Vec::with_capacity(self.sample_types.len());
        let mut i: usize = 0;
        while i < self.sample_types.len()
            invariant
                i <= self.sample_types@.len(),
                sample_types@ == self.sample_types@.take(i as int),
            decreases self.sample_types@.len() - i,
        {
            sample_types.push(self.sample_types[i]);
            i += 1;
            assert(sample_types@ =~= self.sample_types@.take(i as int));
        }
        assert(self.sample_types@.take(i as int) =~= self.sample_types@);
        let r = pprof::Profile {
            sample_types,
            samples,
            mappings,
            locations,
            functions,
            string_table,
            drop_frames: 0,
            keep_frames: 0,
            time_nanos: crate::time::start_nanos(self.start_time),
            duration_nanos: 0,
            period_type,
            period,
            comment: Vec::new(),
            default_sample_type: 0,
        };
        proof {
            let v = self.pprof_view(0);
            assert(r@.mappings =~= v.mappings);
            assert(r@.locations =~= v.locations);
            assert(r@.functions =~= v.functions);
            assert(r@.string_table =~= v.string_table);
            assert(r@.comment =~= v.comment);
        }
        r
    }
}

} // verus!

verus! {

/// A profile in the `pprof` format, with its start and end and the endpoint
/// counts at the time.
pub struct EncodedProfile {
    pub start: Timespec,
    pub end: Timespec,
    pub buffer: Vec<u8>,
    pub endpoints_stats: ProfiledEndpointsStats,
}

/// The profile could not be encoded.
#[derive(Clone, Copy, Debug, PartialEq, Eq, Structural)]
pub struct EncodeError;

impl Profile {
    /// Encodes the profile as ending at `end`; its duration is `duration`
    /// nanoseconds where given, else from its start to `end`, clamped to
    /// `[0, i64::MAX]`.
    pub fn serialize_at(&self, end: Timespec, duration: Option<u64>) -> (r: EncodedProfile)
        requires
            self.wf(),
        ensures
            r.start == self.start(),
            r.end == end,
            r.buffer@ == pprof::profile_bytes(
                self.pprof_view(crate::time::duration_nanos(self.start(), end, duration)),
            ),
            r.endpoints_stats.wf(),
            r.endpoints_stats.entries() == self.endpoints().stats().entries(),
    {
        let mut profile = self.to_pprof();
        profile.duration_nanos = crate::time::profile_duration(self.start_time, end, duration);
        let mut buffer: Vec<u8> = Vec::new();
        profile.write_to_vec(&mut buffer);
        assert(buffer@ =~= pprof::profile_bytes(profile@));
        EncodedProfile {
            start: self.start_time,
            end,
            buffer,
            endpoints_stats: self.endpoints.stats.copy(),
        }
    }

    /// Encodes the profile as ending at `end_time`, the current time where
    /// none is given; see `serialize_at`. Encoding never fails.
    pub fn serialize(&self, end_time: Option<Timespec>, duration: Option<u64>) -> (r: Result<
        EncodedProfile,
        EncodeError,
    >)
        requires
            self.wf(),
        ensures
            r matches Ok(e) && {
                &&& e.start == self.start()
                &&& end_time matches Some(t) ==> e.end == t
                &&& e.buffer@ == pprof::profile_bytes(
                    self.pprof_view(crate::time::duration_nanos(self.start(), e.end, duration)),
                )
                &&& e.endpoints_stats.wf()
                &&& e.endpoints_stats.entries() == self.endpoints().stats().entries()
            },
    {
        let end = match end_time {
            Some(t) => t,
            None => Timespec::now(),
        };
        Ok(self.serialize_at(end, duration))
    }
}

} // verus!

verus! {

impl From<PProfId> for u64 {
    fn from(id: PProfId) -> (r: u64) {
        id.0 as u64
    }
}

impl vstd::std_specs::convert::FromSpecImpl<PProfId> for u64 {
    open spec fn obeys_from_spec() -> bool {
        true
    }

    open spec fn from_spec(id: PProfId) -> u64 {
        id.0 as u64
    }
}

impl From<PProfId> for i64 {
    fn from(id: PProfId) -> (r: i64) {
        if id.0 as u64 > i64::MAX as u64 {
            0
        } else {
            id.0 as i64
        }
    }
}

impl vstd::std_specs::convert::FromSpecImpl<PProfId> for i64 {
    open spec fn obeys_from_spec() -> bool {
        true
    }

    open spec fn from_spec(id: PProfId) -> i64 {
        if id.0 > i64::MAX {
            0
        } else {
            id.0 as i64
        }
    }
}

} // verus!

verus! {

impl Default for Endpoints {
    fn default() -> (r: Self)
        ensures
            r.span_map().dom() == Set::<i64>::empty(),
            r.stats().wf(),
            r.stats().entries().len() == 0,
    {
        Endpoints::new()
    }
}

impl<'a> Default for ProfileBuilder<'a> {
    fn default() -> (r: Self)
        ensures
            r.period_spec() is None,
            r.sample_types_spec().len() == 0,
            r.start_time_spec() is None,
    {
        ProfileBuilder::new()
    }
}

} // verus!
