//! How a sample resolves into entries of a profile's tables: which strings,
//! mappings, functions and locations it interns, in which order, and the key
//! it is aggregated under.
use vstd::prelude::*;

use crate::api;
use crate::collections::{FunctionKey, LabelKey, LineKey, LocationEntry, MappingKey, SampleKeyView};
use crate::interning::position;

verus! {

/// The pieces `f` gives for each of `xs`, one after another.
pub open spec fn flat<A, B>(xs: Seq<A>, f: spec_fn(A) -> Seq<B>) -> Seq<B>
    decreases xs.len(),
{
    if xs.len() == 0 {
        Seq::empty()
    } else {
        flat(xs.drop_last(), f) + f(xs.last())
    }
}

pub proof fn lemma_flat_step<A, B>(xs: Seq<A>, f: spec_fn(A) -> Seq<B>, i: int)
    requires
        0 <= i < xs.len(),
    ensures
        flat(xs.take(i + 1), f) == flat(xs.take(i), f) + f(xs[i]),
{
    assert(xs.take(i + 1).drop_last() =~= xs.take(i));
}

pub proof fn lemma_flat_all<A, B>(xs: Seq<A>, f: spec_fn(A) -> Seq<B>)
    ensures
        flat(xs.take(xs.len() as int), f) == flat(xs, f),
{
    assert(xs.take(xs.len() as int) =~= xs);
}

pub open spec fn optional_string(o: Option<&str>) -> Seq<Seq<char>> {
    match o {
        Some(s) => seq![s@],
        None => Seq::empty(),
    }
}

/// The strings of a label, in the order they are interned.
pub open spec fn label_strings(l: api::Label) -> Seq<Seq<char>> {
    seq![l.key@] + optional_string(l.str) + optional_string(l.num_unit)
}

pub open spec fn function_strings(f: api::Function) -> Seq<Seq<char>> {
    seq![f.name@, f.system_name@, f.filename@]
}

pub open spec fn line_strings(ln: api::Line) -> Seq<Seq<char>> {
    function_strings(ln.function)
}

/// The strings of a location: its mapping's, then each line's function's.
pub open spec fn location_strings(l: api::Location) -> Seq<Seq<char>> {
    seq![l.mapping.filename@, l.mapping.build_id@] + flat(
        l.lines@,
        |ln: api::Line| line_strings(ln),
    )
}

pub open spec fn labels_strings(ls: Seq<api::Label>) -> Seq<Seq<char>> {
    flat(ls, |l: api::Label| label_strings(l))
}

pub open spec fn locations_strings(ls: Seq<api::Location>) -> Seq<Seq<char>> {
    flat(ls, |l: api::Location| location_strings(l))
}

/// Every string of a sample, labels first, in the order they are interned.
pub open spec fn sample_strings(s: api::Sample) -> Seq<Seq<char>> {
    labels_strings(s.labels@) + locations_strings(s.locations@)
}

/// The id of string `s` in table `t`.
pub open spec fn string_id(t: Seq<Seq<char>>, s: Seq<char>) -> i64 {
    position(t, s) as i64
}

pub open spec fn optional_string_id(t: Seq<Seq<char>>, o: Option<&str>) -> i64 {
    match o {
        Some(s) => string_id(t, s@),
        None => 0,
    }
}

/// The id of `x` in an entity table: its position plus one.
pub open spec fn entity_id<A>(t: Seq<A>, x: A) -> u64 {
    (position(t, x) + 1) as u64
}

pub open spec fn label_key(t: Seq<Seq<char>>, l: api::Label) -> LabelKey {
    (string_id(t, l.key@), optional_string_id(t, l.str), l.num, optional_string_id(t, l.num_unit))
}

pub open spec fn mapping_key_of(t: Seq<Seq<char>>, m: api::Mapping) -> MappingKey {
    (
        m.memory_start,
        m.memory_limit,
        m.file_offset,
        string_id(t, m.filename@),
        string_id(t, m.build_id@),
    )
}

pub open spec fn function_key_of(t: Seq<Seq<char>>, f: api::Function) -> FunctionKey {
    (string_id(t, f.name@), string_id(t, f.system_name@), string_id(t, f.filename@), f.start_line)
}

/// The mapping of each location, in order.
pub open spec fn mapping_keys(t: Seq<Seq<char>>, ls: Seq<api::Location>) -> Seq<MappingKey> {
    ls.map_values(|l: api::Location| mapping_key_of(t, l.mapping))
}

pub open spec fn line_function_keys(t: Seq<Seq<char>>, l: api::Location) -> Seq<FunctionKey> {
    l.lines@.map_values(|ln: api::Line| function_key_of(t, ln.function))
}

/// The function of each line of each location, in order.
pub open spec fn function_keys(t: Seq<Seq<char>>, ls: Seq<api::Location>) -> Seq<FunctionKey> {
    flat(ls, |l: api::Location| line_function_keys(t, l))
}

pub open spec fn line_key_of(
    t: Seq<Seq<char>>,
    functions: Seq<FunctionKey>,
    ln: api::Line,
) -> LineKey {
    (entity_id(functions, function_key_of(t, ln.function)), ln.line)
}

pub open spec fn location_key_of(
    t: Seq<Seq<char>>,
    mappings: Seq<MappingKey>,
    functions: Seq<FunctionKey>,
    l: api::Location,
) -> LocationEntry {
    (
        entity_id(mappings, mapping_key_of(t, l.mapping)),
        l.address,
        l.lines@.map_values(|ln: api::Line| line_key_of(t, functions, ln)),
        l.is_folded,
    )
}

/// The location of each of `ls`, in order.
pub open spec fn location_keys(
    t: Seq<Seq<char>>,
    mappings: Seq<MappingKey>,
    functions: Seq<FunctionKey>,
    ls: Seq<api::Location>,
) -> Seq<LocationEntry> {
    ls.map_values(|l: api::Location| location_key_of(t, mappings, functions, l))
}

/// The key a sample is aggregated under.
pub open spec fn sample_key_of(
    t: Seq<Seq<char>>,
    mappings: Seq<MappingKey>,
    functions: Seq<FunctionKey>,
    locations: Seq<LocationEntry>,
    s: api::Sample,
) -> SampleKeyView {
    (
        s.locations@.map_values(
            |l: api::Location| entity_id(locations, location_key_of(t, mappings, functions, l)),
        ),
        s.labels@.map_values(|l: api::Label| label_key(t, l)),
    )
}

} // verus!

verus! {

/// Each piece of each item is in what `flat` gives.
pub proof fn lemma_flat_contains<A, B>(xs: Seq<A>, f: spec_fn(A) -> Seq<B>, i: int, k: int)
    requires
        0 <= i < xs.len(),
        0 <= k < f(xs[i]).len(),
    ensures
        flat(xs, f).contains(f(xs[i])[k]),
    decreases xs.len(),
{
    let d = flat(xs.drop_last(), f);
    if i == xs.len() - 1 {
        assert(flat(xs, f)[d.len() + k] == f(xs[i])[k]);
    } else {
        lemma_flat_contains(xs.drop_last(), f, i, k);
        let p = choose|p: int| 0 <= p < d.len() && d[p] == f(xs[i])[k];
        assert(flat(xs, f)[p] == d[p]);
    }
}

pub proof fn lemma_sample_strings_labels(s: api::Sample, i: int)
    requires
        0 <= i < s.labels@.len(),
    ensures
        sample_strings(s).contains(s.labels@[i].key@),
        s.labels@[i].str matches Some(v) ==> sample_strings(s).contains(v@),
        s.labels@[i].num_unit matches Some(v) ==> sample_strings(s).contains(v@),
{
    let f = |l: api::Label| label_strings(l);
    let a = labels_strings(s.labels@);
    let all = sample_strings(s);
    let l = s.labels@[i];
    assert forall|k: int| 0 <= k < f(l).len() implies all.contains(#[trigger] f(l)[k]) by {
        lemma_flat_contains(s.labels@, f, i, k);
        let p = choose|p: int| 0 <= p < a.len() && a[p] == f(l)[k];
        assert(all[p] == a[p]);
    }
    assert(f(l)[0] == l.key@);
    if let Some(v) = l.str {
        assert(f(l)[1] == v@);
    }
    if let Some(v) = l.num_unit {
        assert(f(l)[f(l).len() - 1] == v@);
    }
}

pub proof fn lemma_sample_strings_locations(s: api::Sample, j: int)
    requires
        0 <= j < s.locations@.len(),
    ensures
        sample_strings(s).contains(s.locations@[j].mapping.filename@),
        sample_strings(s).contains(s.locations@[j].mapping.build_id@),
        forall|k: int|
            0 <= k < s.locations@[j].lines@.len() ==> {
                let f = (#[trigger] s.locations@[j].lines@[k]).function;
                &&& sample_strings(s).contains(f.name@)
                &&& sample_strings(s).contains(f.system_name@)
                &&& sample_strings(s).contains(f.filename@)
            },
{
    let g = |l: api::Location| location_strings(l);
    let a = labels_strings(s.labels@);
    let b = locations_strings(s.locations@);
    let all = sample_strings(s);
    let l = s.locations@[j];
    assert forall|k: int| 0 <= k < g(l).len() implies all.contains(#[trigger] g(l)[k]) by {
        lemma_flat_contains(s.locations@, g, j, k);
        let p = choose|p: int| 0 <= p < b.len() && b[p] == g(l)[k];
        assert(all[a.len() + p] == b[p]);
    }
    assert(g(l)[0] == l.mapping.filename@);
    assert(g(l)[1] == l.mapping.build_id@);
    let h = |ln: api::Line| line_strings(ln);
    let c = flat(l.lines@, h);
    assert forall|k: int| 0 <= k < l.lines@.len() implies {
        let f = (#[trigger] l.lines@[k]).function;
        &&& all.contains(f.name@)
        &&& all.contains(f.system_name@)
        &&& all.contains(f.filename@)
    } by {
        let f = l.lines@[k].function;
        assert forall|q: int| 0 <= q < 3 implies all.contains(#[trigger] h(l.lines@[k])[q]) by {
            lemma_flat_contains(l.lines@, h, k, q);
            let p = choose|p: int| 0 <= p < c.len() && c[p] == h(l.lines@[k])[q];
            assert(g(l)[2 + p] == c[p]);
        }
        assert(h(l.lines@[k])[0] == f.name@);
        assert(h(l.lines@[k])[1] == f.system_name@);
        assert(h(l.lines@[k])[2] == f.filename@);
    }
}

} // verus!

verus! {

/// Each item of what `flat` gives comes from a piece of one of `xs`.
pub proof fn lemma_flat_member<A, B>(xs: Seq<A>, f: spec_fn(A) -> Seq<B>, p: int)
    requires
        0 <= p < flat(xs, f).len(),
    ensures
        exists|i: int, k: int|
            0 <= i < xs.len() && 0 <= k < f(xs[i]).len() && flat(xs, f)[p] == #[trigger] f(
                xs[i],
            )[k],
    decreases xs.len(),
{
    let d = flat(xs.drop_last(), f);
    if p < d.len() {
        lemma_flat_member(xs.drop_last(), f, p);
        let (i, k) = choose|i: int, k: int|
            0 <= i < xs.drop_last().len() && 0 <= k < f(xs.drop_last()[i]).len() && d[p]
                == #[trigger] f(xs.drop_last()[i])[k];
        assert(xs.drop_last()[i] == xs[i]);
        assert(flat(xs, f)[p] == d[p]);
    } else {
        let i = xs.len() - 1;
        let k = p - d.len();
        assert(flat(xs, f)[p] == f(xs[i])[k]);
    }
}

} // verus!
