//! The insertion-ordered hash collections of `indexmap` that hold the
//! profile's tables, each seen through a name for what it holds.
use vstd::prelude::*;

use indexmap::{IndexMap, IndexSet};

verus! {

#[verifier::external_type_specification]
#[verifier::external_body]
#[verifier::reject_recursive_types(T)]
#[verifier::reject_recursive_types(S)]
pub struct ExIndexSet<T, S>(IndexSet<T, S>);

#[verifier::external_type_specification]
#[verifier::external_body]
#[verifier::reject_recursive_types(K)]
#[verifier::reject_recursive_types(V)]
#[verifier::reject_recursive_types(S)]
pub struct ExIndexMap<K, V, S>(IndexMap<K, V, S>);

/// The strings of a set of strings, in insertion order.
pub uninterp spec fn string_entries(s: IndexSet<String>) -> Seq<Seq<char>>;

/// Relies on `IndexSet::new`: a new set holds nothing.
#[verifier::external_body]
pub(crate) fn string_set_new() -> (r: IndexSet<String>)
    ensures
        string_entries(r) == Seq::<Seq<char>>::empty(),
{
    IndexSet::new()
}

/// Relies on `IndexSet::len`: the number of items held.
#[verifier::external_body]
pub(crate) fn string_set_len(s: &IndexSet<String>) -> (r: usize)
    ensures
        r == string_entries(*s).len(),
{
    s.len()
}

/// Relies on `IndexSet::get_index_of`: the position of an item equal to `v`,
/// if one is held.
#[verifier::external_body]
pub(crate) fn string_set_index_of(s: &IndexSet<String>, v: &str) -> (r: Option<usize>)
    ensures
        match r {
            Some(i) => i < string_entries(*s).len() && string_entries(*s)[i as int] == v@,
            None => !string_entries(*s).contains(v@),
        },
{
    s.get_index_of(v)
}

/// Relies on `IndexSet::insert_full`: an item that is not yet held goes last
/// and its position is returned.
#[verifier::external_body]
pub(crate) fn string_set_insert(s: &mut IndexSet<String>, v: String) -> (r: usize)
    requires
        !string_entries(*old(s)).contains(v@),
    ensures
        string_entries(*final(s)) == string_entries(*old(s)).push(v@),
        r == string_entries(*old(s)).len(),
{
    s.insert_full(v).0
}

/// Relies on `IndexSet::get_index`: the item at a position.
#[verifier::external_body]
pub(crate) fn string_set_get(s: &IndexSet<String>, i: usize) -> (r: Option<&String>)
    ensures
        r is Some <==> i < string_entries(*s).len(),
        r is Some ==> r.unwrap()@ == string_entries(*s)[i as int],
{
    s.get_index(i)
}

} // verus!

verus! {

/// Mapping records as held in a set: memory start, memory limit, file offset,
/// filename and build id.
pub type MappingKey = (u64, u64, u64, i64, i64);

/// Function records as held in a set: name, system name, filename and start
/// line.
pub type FunctionKey = (i64, i64, i64, i64);

/// A line of a location: function id and line number.
pub type LineKey = (u64, i64);

/// Location records as held in a set: mapping id, address, lines and whether
/// the location is folded.
pub type LocationKey = (u64, u64, Vec<LineKey>, bool);

/// What a location record denotes.
pub type LocationEntry = (u64, u64, Seq<LineKey>, bool);

pub open spec fn location_entry(k: LocationKey) -> LocationEntry {
    (k.0, k.1, k.2@, k.3)
}

/// The mapping records of a set, in insertion order.
pub uninterp spec fn mapping_entries(s: IndexSet<MappingKey>) -> Seq<MappingKey>;

/// The function records of a set, in insertion order.
pub uninterp spec fn function_entries(s: IndexSet<FunctionKey>) -> Seq<FunctionKey>;

/// The location records of a set, in insertion order.
pub uninterp spec fn location_entries(s: IndexSet<LocationKey>) -> Seq<LocationEntry>;

/// Relies on `IndexSet::new`: a new set holds nothing.
#[verifier::external_body]
pub(crate) fn mapping_set_new() -> (r: IndexSet<MappingKey>)
    ensures
        mapping_entries(r) == Seq::<MappingKey>::empty(),
{
    IndexSet::new()
}

/// Relies on `IndexSet::len`: the number of items held.
#[verifier::external_body]
pub(crate) fn mapping_set_len(s: &IndexSet<MappingKey>) -> (r: usize)
    ensures
        r == mapping_entries(*s).len(),
{
    s.len()
}

/// Relies on `IndexSet::get_index_of`: whether an item equal to `v` is held.
#[verifier::external_body]
pub(crate) fn mapping_set_contains(s: &IndexSet<MappingKey>, v: &MappingKey) -> (r: bool)
    ensures
        r == mapping_entries(*s).contains(*v),
{
    s.get_index_of(v).is_some()
}

/// Relies on `IndexSet::insert_full`: an item equal to one held leaves the set
/// as it is and gives that item's position; any other goes last.
#[verifier::external_body]
pub(crate) fn mapping_set_insert(s: &mut IndexSet<MappingKey>, v: MappingKey) -> (r: usize)
    ensures
        mapping_entries(*old(s)).contains(v) ==> mapping_entries(*final(s)) == mapping_entries(*old(s))
            && r < mapping_entries(*old(s)).len() && mapping_entries(*old(s))[r as int] == v,
        !mapping_entries(*old(s)).contains(v) ==> mapping_entries(*final(s)) == mapping_entries(
            *old(s),
        ).push(v) && r == mapping_entries(*old(s)).len(),
{
    s.insert_full(v).0
}

/// Relies on `IndexSet::get_index`: the item at a position.
#[verifier::external_body]
pub(crate) fn mapping_set_get(s: &IndexSet<MappingKey>, i: usize) -> (r: Option<&MappingKey>)
    ensures
        r is Some <==> i < mapping_entries(*s).len(),
        r is Some ==> *r.unwrap() == mapping_entries(*s)[i as int],
{
    s.get_index(i)
}

/// Relies on `IndexSet::new`: a new set holds nothing.
#[verifier::external_body]
pub(crate) fn function_set_new() -> (r: IndexSet<FunctionKey>)
    ensures
        function_entries(r) == Seq::<FunctionKey>::empty(),
{
    IndexSet::new()
}

/// Relies on `IndexSet::len`: the number of items held.
#[verifier::external_body]
pub(crate) fn function_set_len(s: &IndexSet<FunctionKey>) -> (r: usize)
    ensures
        r == function_entries(*s).len(),
{
    s.len()
}

/// Relies on `IndexSet::get_index_of`: whether an item equal to `v` is held.
#[verifier::external_body]
pub(crate) fn function_set_contains(s: &IndexSet<FunctionKey>, v: &FunctionKey) -> (r: bool)
    ensures
        r == function_entries(*s).contains(*v),
{
    s.get_index_of(v).is_some()
}

/// Relies on `IndexSet::insert_full`: an item equal to one held leaves the set
/// as it is and gives that item's position; any other goes last.
#[verifier::external_body]
pub(crate) fn function_set_insert(s: &mut IndexSet<FunctionKey>, v: FunctionKey) -> (r: usize)
    ensures
        function_entries(*old(s)).contains(v) ==> function_entries(*final(s)) == function_entries(
            *old(s),
        ) && r < function_entries(*old(s)).len() && function_entries(*old(s))[r as int] == v,
        !function_entries(*old(s)).contains(v) ==> function_entries(*final(s)) == function_entries(
            *old(s),
        ).push(v) && r == function_entries(*old(s)).len(),
{
    s.insert_full(v).0
}

/// Relies on `IndexSet::get_index`: the item at a position.
#[verifier::external_body]
pub(crate) fn function_set_get(s: &IndexSet<FunctionKey>, i: usize) -> (r: Option<&FunctionKey>)
    ensures
        r is Some <==> i < function_entries(*s).len(),
        r is Some ==> *r.unwrap() == function_entries(*s)[i as int],
{
    s.get_index(i)
}

/// Relies on `IndexSet::new`: a new set holds nothing.
#[verifier::external_body]
pub(crate) fn location_set_new() -> (r: IndexSet<LocationKey>)
    ensures
        location_entries(r) == Seq::<LocationEntry>::empty(),
{
    IndexSet::new()
}

/// Relies on `IndexSet::len`: the number of items held.
#[verifier::external_body]
pub(crate) fn location_set_len(s: &IndexSet<LocationKey>) -> (r: usize)
    ensures
        r == location_entries(*s).len(),
{
    s.len()
}

/// Relies on `IndexSet::get_index_of`: whether an item equal to `v` is held
/// (a `Vec` is equal to another with the same elements).
#[verifier::external_body]
pub(crate) fn location_set_contains(s: &IndexSet<LocationKey>, v: &LocationKey) -> (r: bool)
    ensures
        r == location_entries(*s).contains(location_entry(*v)),
{
    s.get_index_of(v).is_some()
}

/// Relies on `IndexSet::insert_full`: an item equal to one held (a `Vec` is
/// equal to another with the same elements) leaves the set as it is and gives
/// that item's position; any other goes last.
#[verifier::external_body]
pub(crate) fn location_set_insert(s: &mut IndexSet<LocationKey>, v: LocationKey) -> (r: usize)
    ensures
        location_entries(*old(s)).contains(location_entry(v)) ==> location_entries(*final(s))
            == location_entries(*old(s)) && r < location_entries(*old(s)).len()
            && location_entries(*old(s))[r as int] == location_entry(v),
        !location_entries(*old(s)).contains(location_entry(v)) ==> location_entries(*final(s))
            == location_entries(*old(s)).push(location_entry(v)) && r == location_entries(
            *old(s),
        ).len(),
{
    s.insert_full(v).0
}

/// Relies on `IndexSet::get_index`: the item at a position.
#[verifier::external_body]
pub(crate) fn location_set_get(s: &IndexSet<LocationKey>, i: usize) -> (r: Option<&LocationKey>)
    ensures
        r is Some <==> i < location_entries(*s).len(),
        r is Some ==> location_entry(*r.unwrap()) == location_entries(*s)[i as int],
{
    s.get_index(i)
}

} // verus!

verus! {

/// A label as held in a sample's key: key, string value, number and unit.
pub type LabelKey = (i64, i64, i64, i64);

/// What identifies a sample: its location ids, leaf first, and its labels.
pub type SampleKey = (Vec<u64>, Vec<LabelKey>);

/// What a sample key denotes.
pub type SampleKeyView = (Seq<u64>, Seq<LabelKey>);

/// Samples with their summed values.
pub type SampleMap = IndexMap<SampleKey, Vec<i64>>;

/// Span ids to endpoints, both as string ids.
pub type EndpointMap = IndexMap<i64, i64>;

/// Counts by name.
pub type CountMap = IndexMap<String, i64>;

pub open spec fn sample_key_view(k: SampleKey) -> SampleKeyView {
    (k.0@, k.1@)
}

/// The samples of a table with their values, in insertion order.
pub uninterp spec fn sample_entries(m: SampleMap) -> Seq<(SampleKeyView, Seq<i64>)>;

/// Relies on `IndexMap::new`: a new map holds nothing.
#[verifier::external_body]
pub(crate) fn sample_map_new() -> (r: SampleMap)
    ensures
        sample_entries(r).len() == 0,
{
    IndexMap::new()
}

/// Relies on `IndexMap::len`: the number of entries.
#[verifier::external_body]
pub(crate) fn sample_map_len(m: &SampleMap) -> (r: usize)
    ensures
        r == sample_entries(*m).len(),
{
    m.len()
}

/// Relies on `IndexMap::get_index_of`: the position of an entry whose key is
/// equal to `k`, if there is one.
#[verifier::external_body]
pub(crate) fn sample_map_index_of(m: &SampleMap, k: &SampleKey) -> (r: Option<
    usize,
>)
    ensures
        match r {
            Some(i) => i < sample_entries(*m).len() && sample_entries(*m)[i as int].0
                == sample_key_view(*k),
            None => forall|i: int|
                0 <= i < sample_entries(*m).len() ==> #[trigger] sample_entries(*m)[i].0
                    != sample_key_view(*k),
        },
{
    m.get_index_of(k)
}

/// Relies on `IndexMap::get_index`: the entry at a position.
#[verifier::external_body]
pub(crate) fn sample_map_get(m: &SampleMap, i: usize) -> (r: Option<
    (&SampleKey, &Vec<i64>),
>)
    ensures
        r is Some <==> i < sample_entries(*m).len(),
        r is Some ==> sample_key_view(*r.unwrap().0) == sample_entries(*m)[i as int].0
            && r.unwrap().1@ == sample_entries(*m)[i as int].1,
{
    m.get_index(i)
}

/// Relies on `IndexMap::insert_full`: with a key equal to that of an entry,
/// the entry keeps its key and place and takes the new value; otherwise the
/// entry goes last.
#[verifier::external_body]
pub(crate) fn sample_map_insert(m: &mut SampleMap, k: SampleKey, v: Vec<i64>) -> (r:
    usize)
    ensures
        r <= sample_entries(*old(m)).len(),
        r < sample_entries(*final(m)).len(),
        r < sample_entries(*old(m)).len() ==> sample_entries(*old(m))[r as int].0
            == sample_key_view(k) && sample_entries(*final(m)) == sample_entries(*old(m)).update(
            r as int,
            (sample_key_view(k), v@),
        ),
        r == sample_entries(*old(m)).len() ==> (forall|i: int|
            0 <= i < sample_entries(*old(m)).len() ==> #[trigger] sample_entries(*old(m))[i].0
                != sample_key_view(k)) && sample_entries(*final(m)) == sample_entries(*old(m)).push(
            (sample_key_view(k), v@),
        ),
{
    m.insert_full(k, v).0
}

/// The span id to endpoint pairs of a map.
pub uninterp spec fn endpoint_pairs(m: EndpointMap) -> Map<i64, i64>;

/// Relies on `IndexMap::new`: a new map holds nothing.
#[verifier::external_body]
pub(crate) fn endpoint_map_new() -> (r: EndpointMap)
    ensures
        endpoint_pairs(r).dom() == Set::<i64>::empty(),
{
    IndexMap::new()
}

/// Relies on `IndexMap::is_empty`: whether the map holds nothing.
#[verifier::external_body]
pub(crate) fn endpoint_map_is_empty(m: &EndpointMap) -> (r: bool)
    ensures
        r == (endpoint_pairs(*m).dom() == Set::<i64>::empty()),
{
    m.is_empty()
}

/// Relies on `IndexMap::insert`: `k` maps to `v` afterwards, the other keys
/// as before.
#[verifier::external_body]
pub(crate) fn endpoint_map_insert(m: &mut EndpointMap, k: i64, v: i64)
    ensures
        endpoint_pairs(*final(m)) == endpoint_pairs(*old(m)).insert(k, v),
{
    m.insert(k, v);
}

/// Relies on `IndexMap::get`: the value of `k`, if it is a key.
#[verifier::external_body]
pub(crate) fn endpoint_map_get(m: &EndpointMap, k: i64) -> (r: Option<i64>)
    ensures
        r == (if endpoint_pairs(*m).contains_key(k) {
            Some(endpoint_pairs(*m)[k])
        } else {
            None
        }),
{
    m.get(&k).copied()
}

/// The names and counts of a map of counts, in insertion order.
pub uninterp spec fn count_entries(m: CountMap) -> Seq<(Seq<char>, i64)>;

/// Relies on `IndexMap::new`: a new map holds nothing.
#[verifier::external_body]
pub(crate) fn count_map_new() -> (r: CountMap)
    ensures
        count_entries(r).len() == 0,
{
    IndexMap::new()
}

/// Relies on `IndexMap::len`: the number of entries.
#[verifier::external_body]
pub(crate) fn count_map_len(m: &CountMap) -> (r: usize)
    ensures
        r == count_entries(*m).len(),
{
    m.len()
}

/// Relies on `IndexMap::get_index_of`: the position of the entry named `k`,
/// if there is one.
#[verifier::external_body]
pub(crate) fn count_map_index_of(m: &CountMap, k: &str) -> (r: Option<usize>)
    ensures
        match r {
            Some(i) => i < count_entries(*m).len() && count_entries(*m)[i as int].0 == k@,
            None => forall|i: int|
                0 <= i < count_entries(*m).len() ==> #[trigger] count_entries(*m)[i].0 != k@,
        },
{
    m.get_index_of(k)
}

/// Relies on `IndexMap::get_index`: the entry at a position.
#[verifier::external_body]
pub(crate) fn count_map_get(m: &CountMap, i: usize) -> (r: Option<(&String, &i64)>)
    ensures
        r is Some <==> i < count_entries(*m).len(),
        r is Some ==> r.unwrap().0@ == count_entries(*m)[i as int].0 && *r.unwrap().1
            == count_entries(*m)[i as int].1,
{
    m.get_index(i)
}

/// Relies on `IndexMap::insert_full`: with the name of an entry, the entry
/// keeps its place and takes the new count; otherwise the entry goes last.
#[verifier::external_body]
pub(crate) fn count_map_insert(m: &mut CountMap, k: String, v: i64) -> (r: usize)
    ensures
        r <= count_entries(*old(m)).len(),
        r < count_entries(*final(m)).len(),
        r < count_entries(*old(m)).len() ==> count_entries(*old(m))[r as int].0 == k@
            && count_entries(*final(m)) == count_entries(*old(m)).update(r as int, (k@, v)),
        r == count_entries(*old(m)).len() ==> (forall|i: int|
            0 <= i < count_entries(*old(m)).len() ==> #[trigger] count_entries(*old(m))[i].0
                != k@) && count_entries(*final(m)) == count_entries(*old(m)).push((k@, v)),
{
    m.insert_full(k, v).0
}

} // verus!
