//! Deduplicating tables of mappings, functions and locations, whose ids are
//! their positions plus one.
use vstd::prelude::*;

use crate::collections::{
    function_entries, function_set_get, function_set_insert, function_set_len, function_set_new,
    location_entries, location_entry, location_set_get, location_set_insert, location_set_len,
    location_set_new, mapping_entries, mapping_set_get, mapping_set_contains, function_set_contains,
    location_set_contains, mapping_set_insert, mapping_set_len,
    mapping_set_new, FunctionKey, LineKey, LocationEntry, LocationKey, MappingKey,
};
use crate::interning::{intern_one, lemma_intern_one, lemma_position, position};
use crate::pprof::{Function, Line, Location, LocationView, Mapping};
use crate::string_table::CONTAINER_MAX;
use indexmap::IndexSet;

verus! {

/// What makes a mapping distinct from another: all but its id.
pub open spec fn mapping_key(m: Mapping) -> MappingKey {
    (m.memory_start, m.memory_limit, m.file_offset, m.filename, m.build_id)
}

/// What makes a function distinct from another: all but its id.
pub open spec fn function_key(f: Function) -> FunctionKey {
    (f.name, f.system_name, f.filename, f.start_line)
}

pub open spec fn line_key(l: Line) -> LineKey {
    (l.function_id, l.line_number)
}

/// What makes a location distinct from another: all but its id.
pub open spec fn location_key(l: LocationView) -> LocationEntry {
    (l.mapping_id, l.address, l.lines.map_values(|ln: Line| line_key(ln)), l.is_folded)
}

/// The mapping record of `k` with id `id`.
pub open spec fn mapping_record(k: MappingKey, id: u64) -> Mapping {
    Mapping {
        id,
        memory_start: k.0,
        memory_limit: k.1,
        file_offset: k.2,
        filename: k.3,
        build_id: k.4,
        has_functions: false,
        has_filenames: false,
        has_line_numbers: false,
        has_inline_frames: false,
    }
}

/// The function record of `k` with id `id`.
pub open spec fn function_record(k: FunctionKey, id: u64) -> Function {
    Function { id, name: k.0, system_name: k.1, filename: k.2, start_line: k.3 }
}

pub open spec fn line_record(k: LineKey) -> Line {
    Line { function_id: k.0, line_number: k.1 }
}

/// The location record of `k` with id `id`.
pub open spec fn location_record(k: LocationEntry, id: u64) -> LocationView {
    LocationView {
        id,
        mapping_id: k.0,
        address: k.1,
        lines: k.2.map_values(|l: LineKey| line_record(l)),
        is_folded: k.3,
    }
}

/// A table of bounded size without repeats.
pub open spec fn valid_entity_table<A>(t: Seq<A>) -> bool {
    t.len() <= CONTAINER_MAX && t.no_duplicates()
}

/// The mappings, functions and locations of a profile.
pub struct ProfileStorage {
    functions: IndexSet<FunctionKey>,
    locations: IndexSet<LocationKey>,
    mappings: IndexSet<MappingKey>,
}

impl ProfileStorage {
    pub closed spec fn function_table(&self) -> Seq<FunctionKey> {
        function_entries(self.functions)
    }

    pub closed spec fn location_table(&self) -> Seq<LocationEntry> {
        location_entries(self.locations)
    }

    pub closed spec fn mapping_table(&self) -> Seq<MappingKey> {
        mapping_entries(self.mappings)
    }

    pub open spec fn wf(&self) -> bool {
        &&& valid_entity_table(self.function_table())
        &&& valid_entity_table(self.location_table())
        &&& valid_entity_table(self.mapping_table())
    }

    /// Empty tables.
    pub fn new() -> (r: Self)
        ensures
            r.wf(),
            r.function_table().len() == 0,
            r.location_table().len() == 0,
            r.mapping_table().len() == 0,
    {
        ProfileStorage {
            functions: function_set_new(),
            locations: location_set_new(),
            mappings: mapping_set_new(),
        }
    }

    fn index_to_id(index: usize) -> (r: u64)
        requires
            index < CONTAINER_MAX,
        ensures
            r == index + 1,
    {
        (index + 1) as u64
    }

    pub fn function_count(&self) -> (r: usize)
        ensures
            r == self.function_table().len(),
    {
        function_set_len(&self.functions)
    }

    pub fn location_count(&self) -> (r: usize)
        ensures
            r == self.location_table().len(),
    {
        location_set_len(&self.locations)
    }

    pub fn mapping_count(&self) -> (r: usize)
        ensures
            r == self.mapping_table().len(),
    {
        mapping_set_len(&self.mappings)
    }

    /// Whether a function equal to `function` (ids aside) is held.
    pub fn has_function(&self, function: &Function) -> (r: bool)
        ensures
            r == self.function_table().contains(function_key(*function)),
    {
        let key: FunctionKey = (
            function.name,
            function.system_name,
            function.filename,
            function.start_line,
        );
        function_set_contains(&self.functions, &key)
    }

    /// Whether a mapping equal to `mapping` (ids aside) is held.
    pub fn has_mapping(&self, mapping: &Mapping) -> (r: bool)
        ensures
            r == self.mapping_table().contains(mapping_key(*mapping)),
    {
        let key: MappingKey = (
            mapping.memory_start,
            mapping.memory_limit,
            mapping.file_offset,
            mapping.filename,
            mapping.build_id,
        );
        mapping_set_contains(&self.mappings, &key)
    }

    /// Whether a location equal to `location` (ids aside) is held.
    pub fn has_location(&self, location: &Location) -> (r: bool)
        ensures
            r == self.location_table().contains(location_key(location@)),
    {
        let mut lines: Vec<LineKey> = Vec::with_capacity(location.lines.len());
        let mut i: usize = 0;
        while i < location.lines.len()
            invariant
                i <= location.lines@.len(),
                lines@ == location.lines@.subrange(0, i as int).map_values(
                    |ln: Line| line_key(ln),
                ),
            decreases location.lines@.len() - i,
        {
            let ln = location.lines[i];
            lines.push((ln.function_id, ln.line_number));
            i += 1;
            assert(lines@ =~= location.lines@.subrange(0, i as int).map_values(
                |ln: Line| line_key(ln),
            ));
        }
        assert(location.lines@.subrange(0, i as int) =~= location.lines@);
        let key: LocationKey = (location.mapping_id, location.address, lines, location.is_folded);
        assert(location_entry(key) == location_key(location@));
        location_set_contains(&self.locations, &key)
    }

    /// Adds `function` unless an equal one (ids aside) is held; returns the id
    /// of the one held.
    pub fn add_function(&mut self, function: Function) -> (r: u64)
        requires
            old(self).wf(),
            old(self).function_table().len() < CONTAINER_MAX || old(self).function_table().contains(
                function_key(function),
            ),
        ensures
            final(self).wf(),
            final(self).function_table() == intern_one(
                old(self).function_table(),
                function_key(function),
            ),
            final(self).location_table() == old(self).location_table(),
            final(self).mapping_table() == old(self).mapping_table(),
            r == position(final(self).function_table(), function_key(function)) + 1,
    {
        let key: FunctionKey = (
            function.name,
            function.system_name,
            function.filename,
            function.start_line,
        );
        proof {
            lemma_intern_one(old(self).function_table(), key);
        }
        let index = function_set_insert(&mut self.functions, key);
        proof {
            lemma_position(self.function_table(), index as int, key);
        }
        Self::index_to_id(index)
    }

    /// Adds `mapping` unless an equal one (ids aside) is held; returns the id
    /// of the one held.
    pub fn add_mapping(&mut self, mapping: Mapping) -> (r: u64)
        requires
            old(self).wf(),
            old(self).mapping_table().len() < CONTAINER_MAX || old(self).mapping_table().contains(
                mapping_key(mapping),
            ),
        ensures
            final(self).wf(),
            final(self).mapping_table() == intern_one(old(self).mapping_table(), mapping_key(mapping)),
            final(self).function_table() == old(self).function_table(),
            final(self).location_table() == old(self).location_table(),
            r == position(final(self).mapping_table(), mapping_key(mapping)) + 1,
    {
        let key: MappingKey = (
            mapping.memory_start,
            mapping.memory_limit,
            mapping.file_offset,
            mapping.filename,
            mapping.build_id,
        );
        proof {
            lemma_intern_one(old(self).mapping_table(), key);
        }
        let index = mapping_set_insert(&mut self.mappings, key);
        proof {
            lemma_position(self.mapping_table(), index as int, key);
        }
        Self::index_to_id(index)
    }

    /// Adds `location` unless an equal one (ids aside) is held; returns the id
    /// of the one held.
    pub fn add_location(&mut self, location: Location) -> (r: u64)
        requires
            old(self).wf(),
            old(self).location_table().len() < CONTAINER_MAX || old(self).location_table().contains(
                location_key(location@),
            ),
        ensures
            final(self).wf(),
            final(self).location_table() == intern_one(
                old(self).location_table(),
                location_key(location@),
            ),
            final(self).function_table() == old(self).function_table(),
            final(self).mapping_table() == old(self).mapping_table(),
            r == position(final(self).location_table(), location_key(location@)) + 1,
    {
        let mut lines: Vec<LineKey> = Vec::with_capacity(location.lines.len());
        let mut i: usize = 0;
        while i < location.lines.len()
            invariant
                i <= location.lines@.len(),
                lines@ == location.lines@.subrange(0, i as int).map_values(
                    |ln: Line| line_key(ln),
                ),
            decreases location.lines@.len() - i,
        {
            let ln = location.lines[i];
            lines.push((ln.function_id, ln.line_number));
            i += 1;
            assert(lines@ =~= location.lines@.subrange(0, i as int).map_values(
                |ln: Line| line_key(ln),
            ));
        }
        assert(location.lines@.subrange(0, i as int) =~= location.lines@);
        let key: LocationKey = (location.mapping_id, location.address, lines, location.is_folded);
        assert(location_entry(key) == location_key(location@));
        proof {
            lemma_intern_one(old(self).location_table(), location_key(location@));
        }
        let index = location_set_insert(&mut self.locations, key);
        proof {
            lemma_position(self.location_table(), index as int, location_key(location@));
        }
        Self::index_to_id(index)
    }

    /// The functions, each with its id.
    pub fn functions(&self) -> (r: Vec<Function>)
        requires
            self.wf(),
        ensures
            r@.len() == self.function_table().len(),
            forall|i: int|
                0 <= i < r@.len() ==> #[trigger] r@[i] == function_record(
                    self.function_table()[i],
                    (i + 1) as u64,
                ),
    {
        let n = function_set_len(&self.functions);
        let mut out: Vec<Function> = Vec::with_capacity(n);
        let mut i: usize = 0;
        while i < n
            invariant
                n == self.function_table().len(),
                n <= CONTAINER_MAX,
                i <= n,
                out@.len() == i,
                forall|j: int|
                    0 <= j < i ==> #[trigger] out@[j] == function_record(
                        self.function_table()[j],
                        (j + 1) as u64,
                    ),
            decreases n - i,
        {
            let k = function_set_get(&self.functions, i).unwrap();
            out.push(
                Function {
                    id: Self::index_to_id(i),
                    name: k.0,
                    system_name: k.1,
                    filename: k.2,
                    start_line: k.3,
                },
            );
            i += 1;
        }
        out
    }

    /// The mappings, each with its id.
    pub fn mappings(&self) -> (r: Vec<Mapping>)
        requires
            self.wf(),
        ensures
            r@.len() == self.mapping_table().len(),
            forall|i: int|
                0 <= i < r@.len() ==> #[trigger] r@[i] == mapping_record(
                    self.mapping_table()[i],
                    (i + 1) as u64,
                ),
    {
        let n = mapping_set_len(&self.mappings);
        let mut out: Vec<Mapping> = Vec::with_capacity(n);
        let mut i: usize = 0;
        while i < n
            invariant
                n == self.mapping_table().len(),
                n <= CONTAINER_MAX,
                i <= n,
                out@.len() == i,
                forall|j: int|
                    0 <= j < i ==> #[trigger] out@[j] == mapping_record(
                        self.mapping_table()[j],
                        (j + 1) as u64,
                    ),
            decreases n - i,
        {
            let k = mapping_set_get(&self.mappings, i).unwrap();
            out.push(
                Mapping {
                    id: Self::index_to_id(i),
                    memory_start: k.0,
                    memory_limit: k.1,
                    file_offset: k.2,
                    filename: k.3,
                    build_id: k.4,
                    has_functions: false,
                    has_filenames: false,
                    has_line_numbers: false,
                    has_inline_frames: false,
                },
            );
            i += 1;
        }
        out
    }

    /// The locations, each with its id.
    pub fn locations(&self) -> (r: Vec<Location>)
        requires
            self.wf(),
        ensures
            r@.len() == self.location_table().len(),
            forall|i: int|
                0 <= i < r@.len() ==> #[trigger] r@[i]@ == location_record(
                    self.location_table()[i],
                    (i + 1) as u64,
                ),
    {
        let n = location_set_len(&self.locations);
        let mut out: Vec<Location> = Vec::with_capacity(n);
        let mut i: usize = 0;
        while i < n
            invariant
                n == self.location_table().len(),
                n <= CONTAINER_MAX,
                i <= n,
                out@.len() == i,
                forall|j: int|
                    0 <= j < i ==> #[trigger] out@[j]@ == location_record(
                        self.location_table()[j],
                        (j + 1) as u64,
                    ),
            decreases n - i,
        {
            let k = location_set_get(&self.locations, i).unwrap();
            let ghost e = self.location_table()[i as int];
            let mut lines: Vec<Line> = Vec::with_capacity(k.2.len());
            let mut j: usize = 0;
            while j < k.2.len()
                invariant
                    e == location_entry(*k),
                    j <= k.2@.len(),
                    lines@ == e.2.subrange(0, j as int).map_values(|l: LineKey| line_record(l)),
                decreases k.2@.len() - j,
            {
                let lk = k.2[j];
                lines.push(Line { function_id: lk.0, line_number: lk.1 });
                j += 1;
                assert(lines@ =~= e.2.subrange(0, j as int).map_values(
                    |l: LineKey| line_record(l),
                ));
            }
            assert(e.2.subrange(0, j as int) =~= e.2);
            out.push(
                Location {
                    id: Self::index_to_id(i),
                    mapping_id: k.0,
                    address: k.1,
                    lines,
                    is_folded: k.3,
                },
            );
            i += 1;
        }
        out
    }
}

} // verus!

verus! {

impl Default for ProfileStorage {
    fn default() -> (r: Self)
        ensures
            r.wf(),
            r.function_table().len() == 0,
            r.location_table().len() == 0,
            r.mapping_table().len() == 0,
    {
        ProfileStorage::new()
    }
}

} // verus!
