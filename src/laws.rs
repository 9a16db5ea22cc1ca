//! What holds of the library across calls and for all inputs.
use vstd::prelude::*;

use crate::api;
use crate::interning::{
    extends,
    intern_all, intern_one, lemma_intern_all, lemma_intern_one, lemma_position, position,
};
use crate::pprof::profile_bytes;
use crate::profile::{
    aggregated, endpoint_label_name, first_value_of, has_key, key_index, label_ids_below, label_record,
    span_label_name, summed, Profile,
};
use crate::resolve::{
    entity_id, function_key_of, function_keys, label_key, lemma_flat_contains, lemma_flat_member,
    lemma_sample_strings_labels, lemma_sample_strings_locations, line_function_keys, line_key_of,
    location_key_of, location_keys, mapping_key_of, mapping_keys, sample_key_of, sample_strings,
    string_id,
};
use crate::profiled_endpoints::{count_of, counted, has_name, name_index, names_unique};
use crate::string_table::valid_table;
use crate::time::{duration_nanos, time_nanos, Timespec};

verus! {

/// Interning into a table that already holds every one of `xs` changes
/// nothing.
pub proof fn lemma_intern_all_held<A>(t: Seq<A>, xs: Seq<A>)
    requires
        forall|j: int| 0 <= j < xs.len() ==> t.contains(#[trigger] xs[j]),
    ensures
        intern_all(t, xs) == t,
    decreases xs.len(),
{
    if xs.len() > 0 {
        assert forall|j: int| 0 <= j < xs.drop_last().len() implies t.contains(
            #[trigger] xs.drop_last()[j],
        ) by {
            assert(xs.drop_last()[j] == xs[j]);
        }
        lemma_intern_all_held(t, xs.drop_last());
        assert(t.contains(xs[xs.len() - 1]));
    }
}

/// Interning a string twice gives the same id as interning it once, and the
/// second time leaves the table as it was; the empty string has id 0; two
/// different strings of a table have different ids.
pub proof fn interning_is_stable(t: Seq<Seq<char>>, s: Seq<char>, u: Seq<char>)
    requires
        valid_table(t),
    ensures
        intern_one(intern_one(t, s), s) == intern_one(t, s),
        position(intern_one(intern_one(t, s), s), s) == position(intern_one(t, s), s),
        position(t, Seq::<char>::empty()) == 0,
        t.contains(s) && t.contains(u) && s != u ==> position(t, s) != position(t, u),
{
    lemma_intern_one(t, s);
    lemma_position(t, 0, Seq::<char>::empty());
    if t.contains(s) && t.contains(u) && s != u {
        let i = choose|i: int| 0 <= i < t.len() && t[i] == s;
        let j = choose|j: int| 0 <= j < t.len() && t[j] == u;
        lemma_position(t, i, s);
        lemma_position(t, j, u);
    }
}

/// Adding a sample again, to the profile that the first add left, finds every
/// string, mapping, function and location in place and aggregates under the
/// same key.
pub proof fn readding_keeps_tables(first: Profile, s: api::Sample, second: Profile)
    requires
        first.wf(),
        first.adds_to(s, second),
    ensures
        second.strings_after(s) == second.string_table(),
        second.mappings_after(s) == second.mapping_table(),
        second.functions_after(s) == second.function_table(),
        second.locations_after(s) == second.location_table(),
        second.key_after(s) == first.key_after(s),
{
    lemma_intern_all(first.string_table(), sample_strings(s));
    lemma_intern_all_held(second.string_table(), sample_strings(s));
    let t = second.string_table();
    let mk = mapping_keys(t, s.locations@);
    first.lemma_tables_valid();
    lemma_intern_all(first.mapping_table(), mk);
    lemma_intern_all_held(second.mapping_table(), mk);
    let fk = function_keys(t, s.locations@);
    lemma_intern_all(first.function_table(), fk);
    lemma_intern_all_held(second.function_table(), fk);
    let lk = location_keys(t, second.mapping_table(), second.function_table(), s.locations@);
    lemma_intern_all(first.location_table(), lk);
    lemma_intern_all_held(second.location_table(), lk);
}

/// Adding the same sample twice to a profile without samples leaves one
/// sample, whose values are the element-wise sums of the sample's values with
/// themselves (twice each value, where that does not overflow), under one id.
pub proof fn adding_twice_aggregates(first: Profile, s: api::Sample, second: Profile, third: Profile)
    requires
        first.wf(),
        first.sample_table().len() == 0,
        first.adds_to(s, second),
        second.adds_to(s, third),
    ensures
        third.sample_table().len() == 1,
        third.sample_table()[0].0 == first.key_after(s),
        third.sample_table()[0].1 == summed(s.values@, s.values@),
        key_index(second.sample_table(), first.key_after(s)) == 0,
        key_index(third.sample_table(), second.key_after(s)) == 0,
        forall|i: int|
            0 <= i < s.values@.len() && i64::MIN <= 2 * s.values@[i] <= i64::MAX
                ==> #[trigger] third.sample_table()[0].1[i] == 2 * s.values@[i],
{
    readding_keeps_tables(first, s, second);
    let k = first.key_after(s);
    let e1 = second.sample_table();
    assert(!has_key(first.sample_table(), k));
    assert(e1 == seq![(k, s.values@)]);
    assert(e1[0].0 == k);
    assert(has_key(e1, k));
    assert(key_index(e1, k) == 0);
    let e2 = third.sample_table();
    assert(e2[0].0 == k);
    assert(has_key(e2, k));
    assert(key_index(e2, k) == 0);
}

/// After a reset, the sample types and the period name the same strings as
/// before, every table is empty, and the string table holds the empty string
/// first and otherwise only strings of the sample types and the period.
pub proof fn reset_keeps_schema(before: Profile, after: Profile)
    requires
        after.reset_from(before),
    ensures
        after.type_names() == before.type_names(),
        after.period_names() == before.period_names(),
        after.is_empty(),
        after.string_table()[0] == Seq::<char>::empty(),
        forall|i: int|
            0 < i < after.string_table().len() ==> crate::profile::schema_strings(
                before.type_names(),
                before.period_names(),
            ).contains(#[trigger] after.string_table()[i]),
{
    let t0 = seq![Seq::<char>::empty()];
    let xs = crate::profile::schema_strings(before.type_names(), before.period_names());
    lemma_intern_all(t0, xs);
    lemma_intern_all_members(t0, xs);
    assert forall|i: int| 0 < i < after.string_table().len() implies xs.contains(
        #[trigger] after.string_table()[i],
    ) by {
        let x = after.string_table()[i];
        if t0.contains(x) {
            assert(x == Seq::<char>::empty());
            assert(after.string_table()[0] == x);
        }
    }
}

/// Whatever interning puts in a table was in it or among the items.
pub proof fn lemma_intern_all_members<A>(t: Seq<A>, xs: Seq<A>)
    requires
        t.no_duplicates(),
    ensures
        forall|i: int|
            0 <= i < intern_all(t, xs).len() ==> t.contains(#[trigger] intern_all(t, xs)[i])
                || xs.contains(intern_all(t, xs)[i]),
    decreases xs.len(),
{
    if xs.len() > 0 {
        lemma_intern_all_members(t, xs.drop_last());
        let p = intern_all(t, xs.drop_last());
        assert forall|i: int| 0 <= i < intern_all(t, xs).len() implies t.contains(
            #[trigger] intern_all(t, xs)[i],
        ) || xs.contains(intern_all(t, xs)[i]) by {
            let x = intern_all(t, xs)[i];
            if i < p.len() {
                assert(x == p[i]);
                if xs.drop_last().contains(x) {
                    let j = choose|j: int| 0 <= j < xs.drop_last().len() && xs.drop_last()[j] == x;
                    assert(xs[j] == x);
                }
            } else {
                assert(x == xs[xs.len() - 1]);
            }
        }
    }
}

/// The endpoint of the span that the first label keyed by the local root
/// span id names, if that label and that endpoint exist.
pub open spec fn span_endpoint(p: Profile, ls: Seq<crate::collections::LabelKey>) -> Option<i64> {
    match first_value_of(ls, p.endpoints().span_label()) {
        Some(span) => if p.endpoints().span_map().contains_key(span) {
            Some(p.endpoints().span_map()[span])
        } else {
            None
        },
        None => None,
    }
}

/// A sample whose first label keyed by the local root span id names a span
/// with an endpoint is emitted with its own labels and then one more: keyed by
/// the endpoint label, with that endpoint as value; the two keys are the
/// strings "local root span id" and "trace endpoint". A sample without such a
/// label, or whose span has no endpoint, is emitted with its own labels alone.
pub proof fn endpoint_label_is_attached(p: Profile, i: int)
    requires
        p.wf(),
        0 <= i < p.sample_table().len(),
    ensures
        ({
            let ls = p.sample_table()[i].0.1;
            let own = ls.map_values(|k: crate::collections::LabelKey| label_record(k));
            let out = p.emitted_samples()[i].labels;
            let t = p.string_table();
            &&& span_endpoint(p, ls) is Some ==> {
                &&& out == own.push(
                    crate::pprof::Label {
                        key: p.endpoints().endpoint_label(),
                        str: span_endpoint(p, ls).unwrap(),
                        num: 0,
                        num_unit: 0,
                    },
                )
                &&& t[p.endpoints().span_label() as int] == span_label_name()
                &&& t[p.endpoints().endpoint_label() as int] == endpoint_label_name()
                &&& 0 <= span_endpoint(p, ls).unwrap() < t.len()
            }
            &&& span_endpoint(p, ls) is None ==> out == own
        }),
{
    let ls = p.sample_table()[i].0.1;
    let spans = p.endpoints().span_map();
    if let Some(span) = first_value_of(ls, p.endpoints().span_label()) {
        if spans.contains_key(span) {
            assert(spans.dom().contains(span));
            assert(spans.dom() != Set::<i64>::empty());
        }
    }
}

/// `e` after `n` calls for `name`.
pub open spec fn counted_times(e: Seq<(Seq<char>, i64)>, name: Seq<char>, n: nat) -> Seq<
    (Seq<char>, i64),
>
    decreases n,
{
    if n == 0 {
        e
    } else {
        counted(counted_times(e, name, (n - 1) as nat), name)
    }
}

proof fn lemma_counted_once(e: Seq<(Seq<char>, i64)>, name: Seq<char>, other: Seq<char>)
    requires
        names_unique(e),
    ensures
        names_unique(counted(e, name)),
        count_of(counted(e, name), name) == count_of(e, name).wrapping_add(1),
        other != name ==> count_of(counted(e, name), other) == count_of(e, other),
{
    let f = counted(e, name);
    if has_name(e, name) {
        let k = name_index(e, name);
        assert forall|a: int, b: int| 0 <= a < f.len() && 0 <= b < f.len() && a != b implies f[a].0
            != f[b].0 by {
            assert(f[a].0 == e[a].0 && f[b].0 == e[b].0);
        }
        assert(f[k].0 == name);
        assert(has_name(f, name));
        let j = name_index(f, name);
        assert(f[j].0 == e[j].0);
        if other != name {
            if has_name(e, other) {
                let o = name_index(e, other);
                assert(f[o].0 == other);
                let q = name_index(f, other);
                assert(f[q].0 == e[q].0);
            } else {
                assert forall|q: int| 0 <= q < f.len() implies f[q].0 != other by {
                    assert(f[q].0 == e[q].0);
                }
            }
        }
    } else {
        assert forall|a: int, b: int| 0 <= a < f.len() && 0 <= b < f.len() && a != b implies f[a].0
            != f[b].0 by {
            if a < e.len() {
                assert(f[a] == e[a]);
            }
            if b < e.len() {
                assert(f[b] == e[b]);
            }
        }
        assert(f[e.len() as int].0 == name);
        assert(has_name(f, name));
        let j = name_index(f, name);
        if j < e.len() {
            assert(f[j] == e[j]);
        }
        if other != name {
            if has_name(e, other) {
                let o = name_index(e, other);
                assert(f[o] == e[o]);
                let q = name_index(f, other);
                if q < e.len() {
                    assert(f[q] == e[q]);
                }
            } else {
                assert forall|q: int| 0 <= q < f.len() implies f[q].0 != other by {
                    if q < e.len() {
                        assert(f[q] == e[q]);
                    }
                }
            }
        }
    }
}

/// `n` reports of an endpoint raise its count by `n`, whether or not any
/// sample names it, and leave the counts of other endpoints as they were.
pub proof fn endpoint_counts_count_calls(
    e: Seq<(Seq<char>, i64)>,
    name: Seq<char>,
    other: Seq<char>,
    n: nat,
)
    requires
        names_unique(e),
        count_of(e, name) + n <= i64::MAX,
    ensures
        names_unique(counted_times(e, name, n)),
        count_of(counted_times(e, name, n), name) == count_of(e, name) + n,
        other != name ==> count_of(counted_times(e, name, n), other) == count_of(e, other),
    decreases n,
{
    if n > 0 {
        endpoint_counts_count_calls(e, name, other, (n - 1) as nat);
        let before = counted_times(e, name, (n - 1) as nat);
        lemma_counted_once(before, name, other);
        lemma_counted_once(before, name, name);
    }
}

/// Two profiles with the same contents encode to the same bytes.
pub proof fn encoding_is_deterministic(p: Profile, q: Profile, duration: i64)
    requires
        p.same_contents(q),
    ensures
        profile_bytes(p.pprof_view(duration)) == profile_bytes(q.pprof_view(duration)),
{
    assert(p.emitted_samples() =~= q.emitted_samples());
    assert(p.pprof_view(duration) == q.pprof_view(duration));
}

/// Adding the same sample to profiles with the same contents gives profiles
/// with the same contents.
pub proof fn adding_is_deterministic(
    first: Profile,
    other_first: Profile,
    s: api::Sample,
    second: Profile,
    other_second: Profile,
)
    requires
        first.same_contents(other_first),
        first.adds_to(s, second),
        other_first.adds_to(s, other_second),
    ensures
        second.same_contents(other_second),
{
}

/// The mappings, locations and functions of an encoded profile have the ids
/// 1, 2, 3, ... in the order they were added.
pub proof fn emitted_ids_are_dense(p: Profile, duration: i64)
    requires
        p.wf(),
    ensures
        forall|i: int|
            0 <= i < p.pprof_view(duration).mappings.len() ==> #[trigger] p.pprof_view(
                duration,
            ).mappings[i].id == i + 1,
        forall|i: int|
            0 <= i < p.pprof_view(duration).locations.len() ==> #[trigger] p.pprof_view(
                duration,
            ).locations[i].id == i + 1,
        forall|i: int|
            0 <= i < p.pprof_view(duration).functions.len() ==> #[trigger] p.pprof_view(
                duration,
            ).functions[i].id == i + 1,
{
    p.lemma_tables_valid();
}

/// Whatever the start, end and duration given, the emitted duration lies in
/// `[0, i64::MAX]`, and so does the emitted start.
pub proof fn times_are_clamped(start: Timespec, end: Timespec, duration: Option<u64>)
    ensures
        0 <= duration_nanos(start, end, duration) <= i64::MAX,
        0 <= time_nanos(start) <= i64::MAX,
{
}

} // verus!

verus! {

/// The key of a sample added first is the key it resolves to in the tables
/// that a second add leaves: ids stay where they were.
pub proof fn lemma_key_survives_later_add(
    first: Profile,
    s1: api::Sample,
    second: Profile,
    s2: api::Sample,
    third: Profile,
)
    requires
        first.wf(),
        second.wf(),
        first.adds_to(s1, second),
        second.adds_to(s2, third),
    ensures
        first.key_after(s1) == sample_key_of(
            third.string_table(),
            third.mapping_table(),
            third.function_table(),
            third.location_table(),
            s1,
        ),
        forall|x: Seq<char>| sample_strings(s1).contains(x) ==> #[trigger] third.string_table().contains(x),
        forall|j: int| 0 <= j < s1.locations@.len() ==> third.location_table().contains(
            #[trigger] location_key_of(
                third.string_table(),
                third.mapping_table(),
                third.function_table(),
                s1.locations@[j],
            ),
        ),
        forall|j: int|
            0 <= j < s1.locations@.len() ==> third.mapping_table().contains(
                mapping_key_of(third.string_table(), (#[trigger] s1.locations@[j]).mapping),
            ),
        forall|j: int, k: int|
            0 <= j < s1.locations@.len() && 0 <= k < s1.locations@[j].lines@.len()
                ==> third.function_table().contains(
                function_key_of(third.string_table(), (#[trigger] s1.locations@[j].lines@[k]).function),
            ),
{
    let t1 = second.string_table();
    let t2 = third.string_table();
    first.lemma_tables_valid();
    second.lemma_tables_valid();
    lemma_intern_all(first.string_table(), sample_strings(s1));
    lemma_intern_all(t1, sample_strings(s2));
    let m1 = second.mapping_table();
    let f1 = second.function_table();
    let l1 = second.location_table();
    let m2 = third.mapping_table();
    let f2 = third.function_table();
    let l2 = third.location_table();
    lemma_intern_all(first.mapping_table(), mapping_keys(t1, s1.locations@));
    lemma_intern_all(m1, mapping_keys(t2, s2.locations@));
    lemma_intern_all(first.function_table(), function_keys(t1, s1.locations@));
    lemma_intern_all(f1, function_keys(t2, s2.locations@));
    lemma_intern_all(first.location_table(), location_keys(t1, m1, f1, s1.locations@));
    lemma_intern_all(l1, location_keys(t2, m2, f2, s2.locations@));
    assert forall|x: Seq<char>| sample_strings(s1).contains(x) implies #[trigger] t1.contains(x)
        && string_id(t2, x) == string_id(t1, x) by {
        let q = choose|q: int| 0 <= q < sample_strings(s1).len() && sample_strings(s1)[q] == x;
        crate::interning::lemma_position_extends(t2, t1, x);
    }
    assert forall|j: int| 0 <= j < s1.labels@.len() implies #[trigger] label_key(
        t2,
        s1.labels@[j],
    ) == label_key(t1, s1.labels@[j]) by {
        lemma_sample_strings_labels(s1, j);
    }
    assert forall|j: int| 0 <= j < s1.locations@.len() implies #[trigger] location_key_of(
        t2,
        m2,
        f2,
        s1.locations@[j],
    ) == location_key_of(t1, m1, f1, s1.locations@[j]) && l1.contains(
        location_key_of(t1, m1, f1, s1.locations@[j]),
    ) by {
        let l = s1.locations@[j];
        lemma_sample_strings_locations(s1, j);
        assert(mapping_key_of(t2, l.mapping) == mapping_key_of(t1, l.mapping));
        assert(mapping_keys(t1, s1.locations@)[j] == mapping_key_of(t1, l.mapping));
        crate::interning::lemma_position_extends(m2, m1, mapping_key_of(t1, l.mapping));
        assert forall|k: int| 0 <= k < l.lines@.len() implies #[trigger] line_key_of(
            t2,
            f2,
            l.lines@[k],
        ) == line_key_of(t1, f1, l.lines@[k]) by {
            let f = l.lines@[k].function;
            assert(function_key_of(t2, f) == function_key_of(t1, f));
            let g = |l: api::Location| line_function_keys(t1, l);
            lemma_flat_contains(s1.locations@, g, j, k);
            let fk = function_keys(t1, s1.locations@);
            let p = choose|p: int| 0 <= p < fk.len() && fk[p] == g(l)[k];
            assert(f1.contains(function_key_of(t1, f)));
            crate::interning::lemma_position_extends(f2, f1, function_key_of(t1, f));
        }
        assert(location_key_of(t2, m2, f2, l).2 =~= location_key_of(t1, m1, f1, l).2);

        assert(location_keys(t1, m1, f1, s1.locations@)[j] == location_key_of(t1, m1, f1, l));
    }
    assert forall|j: int| 0 <= j < s1.locations@.len() implies #[trigger] entity_id(
        l2,
        location_key_of(t2, m2, f2, s1.locations@[j]),
    ) == entity_id(l1, location_key_of(t1, m1, f1, s1.locations@[j])) by {
        assert(location_key_of(t2, m2, f2, s1.locations@[j]) == location_key_of(
            t1,
            m1,
            f1,
            s1.locations@[j],
        ));
        crate::interning::lemma_position_extends(
            l2,
            l1,
            location_key_of(t1, m1, f1, s1.locations@[j]),
        );
    }
    assert forall|j: int| 0 <= j < s1.locations@.len() implies l2.contains(
        #[trigger] location_key_of(t2, m2, f2, s1.locations@[j]),
    ) by {
        assert(location_key_of(t2, m2, f2, s1.locations@[j]) == location_key_of(
            t1,
            m1,
            f1,
            s1.locations@[j],
        ));
        let x = location_key_of(t1, m1, f1, s1.locations@[j]);
        let q = choose|q: int| 0 <= q < l1.len() && l1[q] == x;
        assert(l2[q] == l1[q]);
    }
    assert forall|j: int, k: int|
        0 <= j < s1.locations@.len() && 0 <= k < s1.locations@[j].lines@.len() implies f2.contains(
        function_key_of(t2, (#[trigger] s1.locations@[j].lines@[k]).function),
    ) by {
        let l = s1.locations@[j];
        let f = l.lines@[k].function;
        lemma_sample_strings_locations(s1, j);
        assert(t1.contains(f.name@) && t1.contains(f.system_name@) && t1.contains(f.filename@));
        assert(function_key_of(t2, f) == function_key_of(t1, f));
        let g = |l: api::Location| line_function_keys(t1, l);
        lemma_flat_contains(s1.locations@, g, j, k);
        let fk = function_keys(t1, s1.locations@);
        let p = choose|p: int| 0 <= p < fk.len() && fk[p] == g(l)[k];
        assert(f1.contains(function_key_of(t1, f)));
        let q = choose|q: int| 0 <= q < f1.len() && f1[q] == function_key_of(t1, f);
        assert(f2[q] == f1[q]);
    }
    assert forall|j: int| 0 <= j < s1.locations@.len() implies m2.contains(
        mapping_key_of(t2, (#[trigger] s1.locations@[j]).mapping),
    ) by {
        let l = s1.locations@[j];
        lemma_sample_strings_locations(s1, j);
        assert(mapping_key_of(t2, l.mapping) == mapping_key_of(t1, l.mapping));
        assert(mapping_keys(t1, s1.locations@)[j] == mapping_key_of(t1, l.mapping));
        crate::interning::lemma_position_extends(m2, m1, mapping_key_of(t1, l.mapping));
    }
    assert forall|x: Seq<char>| sample_strings(s1).contains(x) implies #[trigger] t2.contains(x) by {
        assert(t1.contains(x));
        let q = choose|q: int| 0 <= q < t1.len() && t1[q] == x;
        assert(t2[q] == t1[q]);
    }
    let a = first.key_after(s1);
    let b = sample_key_of(t2, m2, f2, l2, s1);
    assert(a.0 =~= b.0);
    assert(a.1 =~= b.1);
}

} // verus!

verus! {

/// The text of an optional string; an absent one reads as empty.
pub open spec fn optional_text(o: Option<&str>) -> Seq<char> {
    match o {
        Some(s) => s@,
        None => Seq::empty(),
    }
}

/// What a label says: key, string value, number and unit.
pub open spec fn label_content(l: api::Label) -> (Seq<char>, Seq<char>, i64, Seq<char>) {
    (l.key@, optional_text(l.str), l.num, optional_text(l.num_unit))
}

/// What a line says: its function's names, file and start line, and its
/// line number.
pub open spec fn line_content(ln: api::Line) -> (Seq<char>, Seq<char>, Seq<char>, i64, i64) {
    (
        ln.function.name@,
        ln.function.system_name@,
        ln.function.filename@,
        ln.function.start_line,
        ln.line,
    )
}

/// What a location says: its mapping, address, lines and whether it is
/// folded.
pub open spec fn location_content(l: api::Location) -> (
    (u64, u64, u64, Seq<char>, Seq<char>),
    u64,
    Seq<(Seq<char>, Seq<char>, Seq<char>, i64, i64)>,
    bool,
) {
    (
        (
            l.mapping.memory_start,
            l.mapping.memory_limit,
            l.mapping.file_offset,
            l.mapping.filename@,
            l.mapping.build_id@,
        ),
        l.address,
        l.lines@.map_values(|ln: api::Line| line_content(ln)),
        l.is_folded,
    )
}

/// What a sample's locations and labels say, in order.
pub open spec fn sample_content(s: api::Sample) -> (
    Seq<
        (
            (u64, u64, u64, Seq<char>, Seq<char>),
            u64,
            Seq<(Seq<char>, Seq<char>, Seq<char>, i64, i64)>,
            bool,
        ),
    >,
    Seq<(Seq<char>, Seq<char>, i64, Seq<char>)>,
) {
    (
        s.locations@.map_values(|l: api::Location| location_content(l)),
        s.labels@.map_values(|l: api::Label| label_content(l)),
    )
}

proof fn lemma_ids_differ<A>(t: Seq<A>, x: A, y: A)
    requires
        t.no_duplicates(),
        t.len() <= crate::string_table::CONTAINER_MAX,
        t.contains(x),
        t.contains(y),
        x != y,
    ensures
        entity_id(t, x) != entity_id(t, y),
        position(t, x) as i64 != position(t, y) as i64,
{
    let i = choose|i: int| 0 <= i < t.len() && t[i] == x;
    let j = choose|j: int| 0 <= j < t.len() && t[j] == y;
    lemma_position(t, i, x);
    lemma_position(t, j, y);
}

proof fn lemma_same_string_id(t: Seq<Seq<char>>, x: Seq<char>, y: Seq<char>)
    requires
        t.no_duplicates(),
        t.len() <= crate::string_table::CONTAINER_MAX,
        t.contains(x),
        t.contains(y),
        string_id(t, x) == string_id(t, y),
    ensures
        x == y,
{
    if x != y {
        lemma_ids_differ(t, x, y);
    }
}

proof fn lemma_same_optional_id(t: Seq<Seq<char>>, a: Option<&str>, b: Option<&str>)
    requires
        valid_table(t),
        a matches Some(v) ==> t.contains(v@),
        b matches Some(v) ==> t.contains(v@),
        crate::resolve::optional_string_id(t, a) == crate::resolve::optional_string_id(t, b),
    ensures
        optional_text(a) == optional_text(b),
{
    lemma_position(t, 0, Seq::<char>::empty());
    assert(t.contains(Seq::<char>::empty()));
    match (a, b) {
        (Some(x), Some(y)) => lemma_same_string_id(t, x@, y@),
        (Some(x), None) => lemma_same_string_id(t, x@, Seq::<char>::empty()),
        (None, Some(y)) => lemma_same_string_id(t, Seq::<char>::empty(), y@),
        (None, None) => {},
    }
}

/// Two samples whose locations or labels say different things (as
/// `sample_content` reads them: an absent string reads as empty) are
/// aggregated under different keys when added one after the other: label
/// order counts, and no part of a location or label is ignored.
pub proof fn differing_samples_stay_apart(
    first: Profile,
    s1: api::Sample,
    second: Profile,
    s2: api::Sample,
    third: Profile,
)
    requires
        first.wf(),
        second.wf(),
        third.wf(),
        first.adds_to(s1, second),
        second.adds_to(s2, third),
        sample_content(s1) != sample_content(s2),
    ensures
        first.key_after(s1) != second.key_after(s2),
{
    lemma_key_survives_later_add(first, s1, second, s2, third);
    second.lemma_tables_valid();
    third.lemma_tables_valid();
    let t1 = second.string_table();
    let t2 = third.string_table();
    let m2 = third.mapping_table();
    let f2 = third.function_table();
    let l2 = third.location_table();
    lemma_intern_all(t1, sample_strings(s2));
    lemma_intern_all(second.mapping_table(), mapping_keys(t2, s2.locations@));
    lemma_intern_all(second.function_table(), function_keys(t2, s2.locations@));
    lemma_intern_all(second.location_table(), location_keys(t2, m2, f2, s2.locations@));
    let k1 = first.key_after(s1);
    let k2 = second.key_after(s2);
    assert(k2 == sample_key_of(t2, m2, f2, l2, s2));
    if k1 == k2 {
        assert forall|x: Seq<char>| sample_strings(s2).contains(x) implies #[trigger] t2.contains(
            x,
        ) by {
            let q = choose|q: int| 0 <= q < sample_strings(s2).len() && sample_strings(s2)[q] == x;
        }
        assert(k1.1.len() == k2.1.len());
        assert forall|j: int| 0 <= j < s1.labels@.len() implies #[trigger] label_content(
            s1.labels@[j],
        ) == label_content(s2.labels@[j]) by {
            let a = s1.labels@[j];
            let b = s2.labels@[j];
            lemma_sample_strings_labels(s1, j);
            lemma_sample_strings_labels(s2, j);
            assert(k1.1[j] == label_key(t2, a));
            assert(k2.1[j] == label_key(t2, b));
            lemma_same_string_id(t2, a.key@, b.key@);
            lemma_same_optional_id(t2, a.str, b.str);
            lemma_same_optional_id(t2, a.num_unit, b.num_unit);
        }
        assert(k1.0.len() == k2.0.len());
        assert forall|j: int| 0 <= j < s1.locations@.len() implies #[trigger] location_content(
            s1.locations@[j],
        ) == location_content(s2.locations@[j]) by {
            let a = s1.locations@[j];
            let b = s2.locations@[j];
            let ea = location_key_of(t2, m2, f2, a);
            let eb = location_key_of(t2, m2, f2, b);
            assert(location_keys(t2, m2, f2, s2.locations@)[j] == eb);
            assert(k1.0[j] == entity_id(l2, ea));
            assert(k2.0[j] == entity_id(l2, eb));
            if ea != eb {
                lemma_ids_differ(l2, ea, eb);
            }
            lemma_sample_strings_locations(s1, j);
            lemma_sample_strings_locations(s2, j);
            let ma = mapping_key_of(t2, a.mapping);
            let mb = mapping_key_of(t2, b.mapping);
            assert(mapping_keys(t2, s2.locations@)[j] == mb);
            if ma != mb {
                lemma_ids_differ(m2, ma, mb);
            }
            lemma_same_string_id(t2, a.mapping.filename@, b.mapping.filename@);
            lemma_same_string_id(t2, a.mapping.build_id@, b.mapping.build_id@);
            assert(ea.2.len() == eb.2.len());
            let g = |l: api::Location| line_function_keys(t2, l);
            assert forall|k: int| 0 <= k < a.lines@.len() implies #[trigger] line_content(
                a.lines@[k],
            ) == line_content(b.lines@[k]) by {
                let fa = function_key_of(t2, a.lines@[k].function);
                let fb = function_key_of(t2, b.lines@[k].function);
                assert(ea.2[k] == eb.2[k]);
                lemma_flat_contains(s2.locations@, g, j, k);
                let fk = function_keys(t2, s2.locations@);
                let p = choose|p: int| 0 <= p < fk.len() && fk[p] == g(b)[k];
                if fa != fb {
                    lemma_ids_differ(f2, fa, fb);
                }
                let x = a.lines@[k].function;
                let y = b.lines@[k].function;
                lemma_same_string_id(t2, x.name@, y.name@);
                lemma_same_string_id(t2, x.system_name@, y.system_name@);
                lemma_same_string_id(t2, x.filename@, y.filename@);
            }
            assert(location_content(a).2 =~= location_content(b).2);
        }
        assert(sample_content(s1).0 =~= sample_content(s2).0);
        assert(sample_content(s1).1 =~= sample_content(s2).1);
    }
}

} // verus!

verus! {

proof fn lemma_held_string_id(t: Seq<Seq<char>>, x: Seq<char>)
    requires
        t.contains(x),
        t.len() <= crate::string_table::CONTAINER_MAX,
    ensures
        0 <= string_id(t, x) < t.len(),
        string_id(t, x) == position(t, x),
{
}

proof fn lemma_held_entity_id<A>(t: Seq<A>, x: A)
    requires
        t.contains(x),
        t.len() <= crate::string_table::CONTAINER_MAX,
    ensures
        1 <= entity_id(t, x) <= t.len(),
{
}

/// Adding a sample keeps every id in every table naming an entry of the
/// table it refers to.
pub proof fn adding_keeps_references(before: Profile, s: api::Sample, after: Profile)
    requires
        before.wf(),
        before.references_valid(),
        before.adds_to(s, after),
        after.wf(),
    ensures
        after.references_valid(),
{
    before.lemma_tables_valid();
    after.lemma_tables_valid();
    let t0 = before.string_table();
    let t = after.string_table();
    let n = t.len();
    let locs = s.locations@;
    let m0 = before.mapping_table();
    let f0 = before.function_table();
    let l0 = before.location_table();
    let mt = after.mapping_table();
    let ft = after.function_table();
    let lt = after.location_table();
    let mk = mapping_keys(t, locs);
    let fk = function_keys(t, locs);
    let lk = location_keys(t, mt, ft, locs);
    lemma_intern_all(t0, sample_strings(s));
    lemma_intern_all(m0, mk);
    lemma_intern_all_members(m0, mk);
    lemma_intern_all(f0, fk);
    lemma_intern_all_members(f0, fk);
    lemma_intern_all(l0, lk);
    lemma_intern_all_members(l0, lk);
    assert forall|x: Seq<char>| sample_strings(s).contains(x) implies #[trigger] t.contains(x) by {
        let q = choose|q: int| 0 <= q < sample_strings(s).len() && sample_strings(s)[q] == x;
    }
    assert forall|i: int| 0 <= i < mt.len() implies 0 <= (#[trigger] mt[i]).3 < n && 0 <= mt[i].4
        < n by {
        if m0.contains(mt[i]) {
            let j = choose|j: int| 0 <= j < m0.len() && m0[j] == mt[i];
        } else {
            let j = choose|j: int| 0 <= j < mk.len() && mk[j] == mt[i];
            lemma_sample_strings_locations(s, j);
            lemma_held_string_id(t, locs[j].mapping.filename@);
            lemma_held_string_id(t, locs[j].mapping.build_id@);
        }
    }
    let g = |l: api::Location| line_function_keys(t, l);
    assert forall|i: int| 0 <= i < ft.len() implies 0 <= (#[trigger] ft[i]).0 < n && 0 <= ft[i].1
        < n && 0 <= ft[i].2 < n by {
        if f0.contains(ft[i]) {
            let j = choose|j: int| 0 <= j < f0.len() && f0[j] == ft[i];
        } else {
            let p = choose|p: int| 0 <= p < fk.len() && fk[p] == ft[i];
            lemma_flat_member(locs, g, p);
            let (j, k) = choose|j: int, k: int|
                0 <= j < locs.len() && 0 <= k < g(locs[j]).len() && fk[p] == #[trigger] g(
                    locs[j],
                )[k];
            let f = locs[j].lines@[k].function;
            lemma_sample_strings_locations(s, j);
            assert(t.contains(f.name@) && t.contains(f.system_name@) && t.contains(f.filename@));
            lemma_held_string_id(t, f.name@);
            lemma_held_string_id(t, f.system_name@);
            lemma_held_string_id(t, f.filename@);
        }
    }
    assert forall|j: int, k: int|
        0 <= j < locs.len() && 0 <= k < locs[j].lines@.len() implies ft.contains(
        function_key_of(t, (#[trigger] locs[j].lines@[k]).function),
    ) by {
        lemma_flat_contains(locs, g, j, k);
        let p = choose|p: int| 0 <= p < fk.len() && fk[p] == g(locs[j])[k];
    }
    assert forall|j: int| 0 <= j < locs.len() implies lt.contains(
        #[trigger] location_key_of(t, mt, ft, locs[j]),
    ) && 1 <= location_key_of(t, mt, ft, locs[j]).0 <= mt.len() && forall|k: int|
        0 <= k < location_key_of(t, mt, ft, locs[j]).2.len() ==> 1 <= (#[trigger] location_key_of(
            t,
            mt,
            ft,
            locs[j],
        ).2[k]).0 <= ft.len() by {
        assert(lk[j] == location_key_of(t, mt, ft, locs[j]));
        assert(mk[j] == mapping_key_of(t, locs[j].mapping));
        lemma_held_entity_id(mt, mapping_key_of(t, locs[j].mapping));
        assert forall|k: int| 0 <= k < location_key_of(t, mt, ft, locs[j]).2.len() implies 1 <= (
        #[trigger] location_key_of(t, mt, ft, locs[j]).2[k]).0 <= ft.len() by {
            lemma_held_entity_id(ft, function_key_of(t, locs[j].lines@[k].function));
        }
    }
    assert forall|i: int| 0 <= i < lt.len() implies (#[trigger] lt[i]).0 <= mt.len() && forall|
        k: int,
    | 0 <= k < lt[i].2.len() ==> 1 <= (#[trigger] lt[i].2[k]).0 <= ft.len() by {
        if l0.contains(lt[i]) {
            let j = choose|j: int| 0 <= j < l0.len() && l0[j] == lt[i];
            assert(before.location_table()[j] == lt[i]);
        } else {
            let j = choose|j: int| 0 <= j < lk.len() && lk[j] == lt[i];
            assert(lk[j] == location_key_of(t, mt, ft, locs[j]));
        }
    }
    let key = before.key_after(s);
    assert(key == crate::resolve::sample_key_of(t, mt, ft, lt, s));
    assert forall|k: int| 0 <= k < key.0.len() implies 1 <= #[trigger] key.0[k] <= lt.len() by {
        lemma_held_entity_id(lt, location_key_of(t, mt, ft, locs[k]));
    }
    assert forall|k: int| 0 <= k < key.1.len() implies label_ids_below(#[trigger] key.1[k], n) by {
        lemma_sample_strings_labels(s, k);
        let l = s.labels@[k];
        lemma_held_string_id(t, l.key@);
        if let Some(v) = l.str {
            lemma_held_string_id(t, v@);
        }
        if let Some(v) = l.num_unit {
            lemma_held_string_id(t, v@);
        }
    }
    let e0 = before.sample_table();
    let st = after.sample_table();
    assert(st == aggregated(e0, key, s.values@));
    assert forall|i: int| 0 <= i < st.len() implies (forall|k: int|
        0 <= k < (#[trigger] st[i]).0.0.len() ==> 1 <= #[trigger] st[i].0.0[k] <= lt.len()) && (
    forall|k: int| 0 <= k < st[i].0.1.len() ==> label_ids_below(#[trigger] st[i].0.1[k], n)) by {
        if i < e0.len() && st[i].0 == e0[i].0 {
            assert(e0[i] == e0[i]);
        } else {
            if has_key(e0, key) {
                assert(st[i].0 == e0[i].0 || st[i].0 == key);
            }
            assert(st[i].0 == key);
        }
    }
}

} // verus!

verus! {

/// A profile without samples, mappings, functions or locations holds no
/// dangling id; so do profiles as `new`, `build` and `reset` leave them.
pub proof fn empty_profile_has_valid_references(p: Profile)
    requires
        p.is_empty(),
    ensures
        p.references_valid(),
{
}

/// Growing only the string table, as `add_endpoint` does, keeps every id
/// naming an entry.
pub proof fn growing_strings_keeps_references(before: Profile, after: Profile)
    requires
        before.references_valid(),
        extends(after.string_table(), before.string_table()),
        after.mapping_table() == before.mapping_table(),
        after.function_table() == before.function_table(),
        after.location_table() == before.location_table(),
        after.sample_table() == before.sample_table(),
    ensures
        after.references_valid(),
{
    let n = after.string_table().len();
    let st = after.sample_table();
    assert forall|i: int| 0 <= i < st.len() implies (forall|k: int|
        0 <= k < (#[trigger] st[i]).0.0.len() ==> 1 <= #[trigger] st[i].0.0[k]
            <= after.location_table().len()) && (forall|k: int|
        0 <= k < st[i].0.1.len() ==> label_ids_below(#[trigger] st[i].0.1[k], n)) by {
        assert(before.sample_table()[i] == st[i]);
    }
}

/// In the `pprof` form of a well-formed profile whose references are valid,
/// every id names an entry: string ids are below the string table's length,
/// a location's mapping id is 0 or at most the number of mappings, and
/// function and location ids are 1 up to the number of functions and
/// locations.
pub proof fn emitted_references_are_valid(p: Profile, duration: i64)
    requires
        p.wf(),
        p.references_valid(),
    ensures
        ({
            let v = p.pprof_view(duration);
            let n = v.string_table.len();
            &&& forall|i: int|
                0 <= i < v.mappings.len() ==> 0 <= (#[trigger] v.mappings[i]).filename < n && 0
                    <= v.mappings[i].build_id < n
            &&& forall|i: int|
                0 <= i < v.functions.len() ==> 0 <= (#[trigger] v.functions[i]).name < n && 0
                    <= v.functions[i].system_name < n && 0 <= v.functions[i].filename < n
            &&& forall|i: int|
                0 <= i < v.locations.len() ==> (#[trigger] v.locations[i]).mapping_id
                    <= v.mappings.len() && forall|k: int|
                    0 <= k < v.locations[i].lines.len() ==> 1 <= (
                    #[trigger] v.locations[i].lines[k]).function_id <= v.functions.len()
            &&& forall|i: int, k: int|
                0 <= i < v.samples.len() && 0 <= k < v.samples[i].location_ids.len() ==> 1
                    <= #[trigger] v.samples[i].location_ids[k] <= v.locations.len()
            &&& forall|i: int, k: int|
                0 <= i < v.samples.len() && 0 <= k < v.samples[i].labels.len() ==> {
                    let l = #[trigger] v.samples[i].labels[k];
                    0 <= l.key < n && 0 <= l.str < n && 0 <= l.num_unit < n
                }
        }),
{
    p.lemma_tables_valid();
    let v = p.pprof_view(duration);
    let n = v.string_table.len();
    let st = p.sample_table();
    assert forall|i: int| 0 <= i < v.locations.len() implies (#[trigger] v.locations[i]).mapping_id
        <= v.mappings.len() && forall|k: int|
        0 <= k < v.locations[i].lines.len() ==> 1 <= (
        #[trigger] v.locations[i].lines[k]).function_id <= v.functions.len() by {
        let e = p.location_table()[i];
        assert forall|k: int| 0 <= k < v.locations[i].lines.len() implies 1 <= (
        #[trigger] v.locations[i].lines[k]).function_id <= v.functions.len() by {
            assert(v.locations[i].lines[k].function_id == e.2[k].0);
        }
    }
    assert forall|i: int, k: int|
        0 <= i < v.samples.len() && 0 <= k < v.samples[i].labels.len() implies {
        let l = #[trigger] v.samples[i].labels[k];
        0 <= l.key < n && 0 <= l.str < n && 0 <= l.num_unit < n
    } by {
        let ls = st[i].0.1;
        if k < ls.len() {
            assert(v.samples[i].labels[k] == label_record(ls[k]));
            assert(label_ids_below(ls[k], p.string_table().len()));
        } else {
            let spans = p.endpoints().span_map();
            let span = first_value_of(ls, p.endpoints().span_label()).unwrap();
            assert(spans.dom().contains(span));
            assert(spans.dom() != Set::<i64>::empty());
        }
    }
}

} // verus!
