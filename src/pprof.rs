//! The `pprof` message: the records a profile is emitted as, and their
//! protocol buffer encoding.
use vstd::prelude::*;
use vstd::utf8::encode_utf8;

use crate::wire::{
    bool_field, int64_field, len_field, packed_i64_field, packed_u64_field, put_bool, put_int64,
    put_len_field, put_packed_i64, put_packed_u64, put_string, put_uint64, uint64_field,
};

verus! {

/// A sample type or a period type: two ids into the string table.
#[derive(Clone, Copy, Debug, PartialEq, Eq, Structural)]
pub struct ValueType {
    pub type_: i64,
    pub unit: i64,
}

/// A label of a sample: a key with either a string value or a number and its
/// unit, all strings given by id.
#[derive(Clone, Copy, Debug, PartialEq, Eq, Structural)]
pub struct Label {
    pub key: i64,
    pub str: i64,
    pub num: i64,
    pub num_unit: i64,
}

impl Label {
    /// A label with a string value.
    pub fn str(key: i64, str: i64) -> (r: Self)
        ensures
            r == (Label { key, str, num: 0, num_unit: 0 }),
    {
        Label { key, str, num: 0, num_unit: 0 }
    }
}

/// A loaded object.
#[derive(Clone, Copy, Debug, PartialEq, Eq, Structural)]
pub struct Mapping {
    pub id: u64,
    pub memory_start: u64,
    pub memory_limit: u64,
    pub file_offset: u64,
    pub filename: i64,
    pub build_id: i64,
    pub has_functions: bool,
    pub has_filenames: bool,
    pub has_line_numbers: bool,
    pub has_inline_frames: bool,
}

/// A line of source code within a location.
#[derive(Clone, Copy, Debug, PartialEq, Eq, Structural)]
pub struct Line {
    pub function_id: u64,
    pub line_number: i64,
}

/// A function.
#[derive(Clone, Copy, Debug, PartialEq, Eq, Structural)]
pub struct Function {
    pub id: u64,
    pub name: i64,
    pub system_name: i64,
    pub filename: i64,
    pub start_line: i64,
}

/// A code location: an address and the lines it stands for, leaf first.
#[derive(Clone, Debug)]
pub struct Location {
    pub id: u64,
    pub mapping_id: u64,
    pub address: u64,
    pub lines: Vec<Line>,
    pub is_folded: bool,
}

pub struct LocationView {
    pub id: u64,
    pub mapping_id: u64,
    pub address: u64,
    pub lines: Seq<Line>,
    pub is_folded: bool,
}

impl View for Location {
    type V = LocationView;

    open spec fn view(&self) -> LocationView {
        LocationView {
            id: self.id,
            mapping_id: self.mapping_id,
            address: self.address,
            lines: self.lines@,
            is_folded: self.is_folded,
        }
    }
}

/// A sample: its stack as location ids (leaf first), its values and labels.
#[derive(Clone, Debug)]
pub struct Sample {
    pub location_ids: Vec<u64>,
    pub values: Vec<i64>,
    pub labels: Vec<Label>,
}

pub struct SampleView {
    pub location_ids: Seq<u64>,
    pub values: Seq<i64>,
    pub labels: Seq<Label>,
}

impl View for Sample {
    type V = SampleView;

    open spec fn view(&self) -> SampleView {
        SampleView { location_ids: self.location_ids@, values: self.values@, labels: self.labels@ }
    }
}

/// A whole profile as the `pprof` format has it.
#[derive(Clone, Debug)]
pub struct Profile {
    pub sample_types: Vec<ValueType>,
    pub samples: Vec<Sample>,
    pub mappings: Vec<Mapping>,
    pub locations: Vec<Location>,
    pub functions: Vec<Function>,
    pub string_table: Vec<String>,
    pub drop_frames: i64,
    pub keep_frames: i64,
    pub time_nanos: i64,
    pub duration_nanos: i64,
    pub period_type: Option<ValueType>,
    pub period: i64,
    pub comment: Vec<i64>,
    pub default_sample_type: i64,
}

pub struct ProfileView {
    pub sample_types: Seq<ValueType>,
    pub samples: Seq<SampleView>,
    pub mappings: Seq<Mapping>,
    pub locations: Seq<LocationView>,
    pub functions: Seq<Function>,
    pub string_table: Seq<Seq<char>>,
    pub drop_frames: i64,
    pub keep_frames: i64,
    pub time_nanos: i64,
    pub duration_nanos: i64,
    pub period_type: Option<ValueType>,
    pub period: i64,
    pub comment: Seq<i64>,
    pub default_sample_type: i64,
}

impl View for Profile {
    type V = ProfileView;

    open spec fn view(&self) -> ProfileView {
        ProfileView {
            sample_types: self.sample_types@,
            samples: self.samples@.map_values(|s: Sample| s@),
            mappings: self.mappings@,
            locations: self.locations@.map_values(|l: Location| l@),
            functions: self.functions@,
            string_table: self.string_table@.map_values(|s: String| s@),
            drop_frames: self.drop_frames,
            keep_frames: self.keep_frames,
            time_nanos: self.time_nanos,
            duration_nanos: self.duration_nanos,
            period_type: self.period_type,
            period: self.period,
            comment: self.comment@,
            default_sample_type: self.default_sample_type,
        }
    }
}

// The encoding of each message, fields in the order of their numbers.
pub open spec fn value_type_bytes(v: ValueType) -> Seq<u8> {
    int64_field(1, v.type_) + int64_field(2, v.unit)
}

pub open spec fn label_bytes(l: Label) -> Seq<u8> {
    int64_field(1, l.key) + int64_field(2, l.str) + int64_field(3, l.num) + int64_field(
        4,
        l.num_unit,
    )
}

pub open spec fn mapping_range_bytes(m: Mapping) -> Seq<u8> {
    uint64_field(1, m.id) + uint64_field(2, m.memory_start) + uint64_field(3, m.memory_limit)
        + uint64_field(4, m.file_offset) + int64_field(5, m.filename) + int64_field(6, m.build_id)
}

pub open spec fn mapping_flag_bytes(m: Mapping) -> Seq<u8> {
    bool_field(7, m.has_functions) + bool_field(8, m.has_filenames) + bool_field(
        9,
        m.has_line_numbers,
    ) + bool_field(10, m.has_inline_frames)
}

pub open spec fn mapping_bytes(m: Mapping) -> Seq<u8> {
    mapping_range_bytes(m) + mapping_flag_bytes(m)
}

pub open spec fn line_bytes(l: Line) -> Seq<u8> {
    uint64_field(1, l.function_id) + int64_field(2, l.line_number)
}

pub open spec fn function_bytes(f: Function) -> Seq<u8> {
    uint64_field(1, f.id) + int64_field(2, f.name) + int64_field(3, f.system_name) + int64_field(
        4,
        f.filename,
    ) + int64_field(5, f.start_line)
}

/// Each of `ls` as an embedded message of field `tag`.
pub open spec fn label_fields(tag: nat, ls: Seq<Label>) -> Seq<u8>
    decreases ls.len(),
{
    if ls.len() == 0 {
        Seq::empty()
    } else {
        label_fields(tag, ls.drop_last()) + len_field(tag, label_bytes(ls.last()))
    }
}

pub open spec fn line_fields(tag: nat, ls: Seq<Line>) -> Seq<u8>
    decreases ls.len(),
{
    if ls.len() == 0 {
        Seq::empty()
    } else {
        line_fields(tag, ls.drop_last()) + len_field(tag, line_bytes(ls.last()))
    }
}

pub open spec fn location_bytes(l: LocationView) -> Seq<u8> {
    uint64_field(1, l.id) + uint64_field(2, l.mapping_id) + uint64_field(3, l.address)
        + line_fields(4, l.lines) + bool_field(5, l.is_folded)
}

pub open spec fn sample_bytes(s: SampleView) -> Seq<u8> {
    packed_u64_field(1, s.location_ids) + packed_i64_field(2, s.values) + label_fields(
        3,
        s.labels,
    )
}

pub open spec fn value_type_fields(tag: nat, vs: Seq<ValueType>) -> Seq<u8>
    decreases vs.len(),
{
    if vs.len() == 0 {
        Seq::empty()
    } else {
        value_type_fields(tag, vs.drop_last()) + len_field(tag, value_type_bytes(vs.last()))
    }
}

pub open spec fn sample_fields(tag: nat, ss: Seq<SampleView>) -> Seq<u8>
    decreases ss.len(),
{
    if ss.len() == 0 {
        Seq::empty()
    } else {
        sample_fields(tag, ss.drop_last()) + len_field(tag, sample_bytes(ss.last()))
    }
}

pub open spec fn mapping_fields(tag: nat, ms: Seq<Mapping>) -> Seq<u8>
    decreases ms.len(),
{
    if ms.len() == 0 {
        Seq::empty()
    } else {
        mapping_fields(tag, ms.drop_last()) + len_field(tag, mapping_bytes(ms.last()))
    }
}

pub open spec fn location_fields(tag: nat, ls: Seq<LocationView>) -> Seq<u8>
    decreases ls.len(),
{
    if ls.len() == 0 {
        Seq::empty()
    } else {
        location_fields(tag, ls.drop_last()) + len_field(tag, location_bytes(ls.last()))
    }
}

pub open spec fn function_fields(tag: nat, fs: Seq<Function>) -> Seq<u8>
    decreases fs.len(),
{
    if fs.len() == 0 {
        Seq::empty()
    } else {
        function_fields(tag, fs.drop_last()) + len_field(tag, function_bytes(fs.last()))
    }
}

pub open spec fn string_fields(tag: nat, ss: Seq<Seq<char>>) -> Seq<u8>
    decreases ss.len(),
{
    if ss.len() == 0 {
        Seq::empty()
    } else {
        string_fields(tag, ss.drop_last()) + len_field(tag, encode_utf8(ss.last()))
    }
}

pub open spec fn optional_value_type_field(tag: nat, v: Option<ValueType>) -> Seq<u8> {
    match v {
        Some(v) => len_field(tag, value_type_bytes(v)),
        None => Seq::empty(),
    }
}

/// The repeated fields of a profile message, numbers one to six.
pub open spec fn tables_bytes(p: ProfileView) -> Seq<u8> {
    value_type_fields(1, p.sample_types) + sample_fields(2, p.samples) + mapping_fields(
        3,
        p.mappings,
    ) + location_fields(4, p.locations) + function_fields(5, p.functions) + string_fields(
        6,
        p.string_table,
    )
}

/// The remaining fields of a profile message, numbers seven to fourteen.
pub open spec fn scalars_bytes(p: ProfileView) -> Seq<u8> {
    int64_field(7, p.drop_frames) + int64_field(8, p.keep_frames) + int64_field(9, p.time_nanos)
        + int64_field(10, p.duration_nanos) + optional_value_type_field(11, p.period_type)
        + int64_field(12, p.period) + packed_i64_field(13, p.comment) + int64_field(
        14,
        p.default_sample_type,
    )
}

/// The bytes of a whole profile message.
pub open spec fn profile_bytes(p: ProfileView) -> Seq<u8> {
    tables_bytes(p) + scalars_bytes(p)
}

impl ValueType {
    pub fn encode_raw(&self, buf: &mut Vec<u8>)
        ensures
            final(buf)@ == old(buf)@ + value_type_bytes(*self),
    {
        put_int64(1, self.type_, buf);
        put_int64(2, self.unit, buf);
        assert(final(buf)@ =~= old(buf)@ + value_type_bytes(*self));
    }
}

impl Label {
    pub fn encode_raw(&self, buf: &mut Vec<u8>)
        ensures
            final(buf)@ == old(buf)@ + label_bytes(*self),
    {
        put_int64(1, self.key, buf);
        put_int64(2, self.str, buf);
        put_int64(3, self.num, buf);
        put_int64(4, self.num_unit, buf);
        assert(final(buf)@ =~= old(buf)@ + label_bytes(*self));
    }
}

impl Mapping {
    fn put_range(&self, buf: &mut Vec<u8>)
        ensures
            final(buf)@ == old(buf)@ + mapping_range_bytes(*self),
    {
        let ghost b0 = buf@;
        put_uint64(1, self.id, buf);
        put_uint64(2, self.memory_start, buf);
        let ghost a2 = uint64_field(1, self.id) + uint64_field(2, self.memory_start);
        assert(buf@ =~= b0 + a2);
        put_uint64(3, self.memory_limit, buf);
        let ghost a3 = a2 + uint64_field(3, self.memory_limit);
        assert(buf@ =~= b0 + a3);
        put_uint64(4, self.file_offset, buf);
        let ghost a4 = a3 + uint64_field(4, self.file_offset);
        assert(buf@ =~= b0 + a4);
        put_int64(5, self.filename, buf);
        let ghost a5 = a4 + int64_field(5, self.filename);
        assert(buf@ =~= b0 + a5);
        put_int64(6, self.build_id, buf);
        let ghost a6 = a5 + int64_field(6, self.build_id);
        assert(buf@ =~= b0 + a6);
    }

    fn put_flags(&self, buf: &mut Vec<u8>)
        ensures
            final(buf)@ == old(buf)@ + mapping_flag_bytes(*self),
    {
        put_bool(7, self.has_functions, buf);
        put_bool(8, self.has_filenames, buf);
        put_bool(9, self.has_line_numbers, buf);
        put_bool(10, self.has_inline_frames, buf);
        assert(final(buf)@ =~= old(buf)@ + mapping_flag_bytes(*self));
    }

    pub fn encode_raw(&self, buf: &mut Vec<u8>)
        ensures
            final(buf)@ == old(buf)@ + mapping_bytes(*self),
    {
        self.put_range(buf);
        self.put_flags(buf);
        assert(final(buf)@ =~= old(buf)@ + mapping_bytes(*self));
    }
}

impl Line {
    pub fn encode_raw(&self, buf: &mut Vec<u8>)
        ensures
            final(buf)@ == old(buf)@ + line_bytes(*self),
    {
        put_uint64(1, self.function_id, buf);
        put_int64(2, self.line_number, buf);
        assert(final(buf)@ =~= old(buf)@ + line_bytes(*self));
    }
}

impl Function {
    pub fn encode_raw(&self, buf: &mut Vec<u8>)
        ensures
            final(buf)@ == old(buf)@ + function_bytes(*self),
    {
        put_uint64(1, self.id, buf);
        put_int64(2, self.name, buf);
        put_int64(3, self.system_name, buf);
        put_int64(4, self.filename, buf);
        put_int64(5, self.start_line, buf);
        assert(final(buf)@ =~= old(buf)@ + function_bytes(*self));
    }
}

fn put_labels(tag: u64, ls: &Vec<Label>, buf: &mut Vec<u8>)
    requires
        1 <= tag <= 1000,
    ensures
        final(buf)@ == old(buf)@ + label_fields(tag as nat, ls@),
{
    let mut i: usize = 0;
    while i < ls.len()
        invariant
            1 <= tag <= 1000,
            i <= ls@.len(),
            buf@ == old(buf)@ + label_fields(tag as nat, ls@.subrange(0, i as int)),
        decreases ls@.len() - i,
    {
        let mut body: Vec<u8> = Vec::new();
        ls[i].encode_raw(&mut body);
        put_len_field(tag, &mut body, buf);
        assert(ls@.subrange(0, i + 1).drop_last() =~= ls@.subrange(0, i as int));
        i += 1;
        assert(buf@ =~= old(buf)@ + label_fields(tag as nat, ls@.subrange(0, i as int)));
    }
    assert(ls@.subrange(0, ls@.len() as int) =~= ls@);
}

fn put_lines(tag: u64, ls: &Vec<Line>, buf: &mut Vec<u8>)
    requires
        1 <= tag <= 1000,
    ensures
        final(buf)@ == old(buf)@ + line_fields(tag as nat, ls@),
{
    let mut i: usize = 0;
    while i < ls.len()
        invariant
            1 <= tag <= 1000,
            i <= ls@.len(),
            buf@ == old(buf)@ + line_fields(tag as nat, ls@.subrange(0, i as int)),
        decreases ls@.len() - i,
    {
        let mut body: Vec<u8> = Vec::new();
        ls[i].encode_raw(&mut body);
        put_len_field(tag, &mut body, buf);
        assert(ls@.subrange(0, i + 1).drop_last() =~= ls@.subrange(0, i as int));
        i += 1;
        assert(buf@ =~= old(buf)@ + line_fields(tag as nat, ls@.subrange(0, i as int)));
    }
    assert(ls@.subrange(0, ls@.len() as int) =~= ls@);
}

impl Location {
    pub fn encode_raw(&self, buf: &mut Vec<u8>)
        ensures
            final(buf)@ == old(buf)@ + location_bytes(self@),
    {
        put_uint64(1, self.id, buf);
        put_uint64(2, self.mapping_id, buf);
        put_uint64(3, self.address, buf);
        put_lines(4, &self.lines, buf);
        put_bool(5, self.is_folded, buf);
        assert(final(buf)@ =~= old(buf)@ + location_bytes(self@));
    }
}

impl Sample {
    pub fn encode_raw(&self, buf: &mut Vec<u8>)
        ensures
            final(buf)@ == old(buf)@ + sample_bytes(self@),
    {
        put_packed_u64(1, &self.location_ids, buf);
        put_packed_i64(2, &self.values, buf);
        put_labels(3, &self.labels, buf);
        assert(final(buf)@ =~= old(buf)@ + sample_bytes(self@));
    }
}

fn put_value_types(tag: u64, vs: &Vec<ValueType>, buf: &mut Vec<u8>)
    requires
        1 <= tag <= 1000,
    ensures
        final(buf)@ == old(buf)@ + value_type_fields(tag as nat, vs@),
{
    let mut i: usize = 0;
    while i < vs.len()
        invariant
            1 <= tag <= 1000,
            i <= vs@.len(),
            buf@ == old(buf)@ + value_type_fields(tag as nat, vs@.subrange(0, i as int)),
        decreases vs@.len() - i,
    {
        let mut body: Vec<u8> = Vec::new();
        vs[i].encode_raw(&mut body);
        put_len_field(tag, &mut body, buf);
        assert(vs@.subrange(0, i + 1).drop_last() =~= vs@.subrange(0, i as int));
        i += 1;
        assert(buf@ =~= old(buf)@ + value_type_fields(tag as nat, vs@.subrange(0, i as int)));
    }
    assert(vs@.subrange(0, vs@.len() as int) =~= vs@);
}

fn put_samples(tag: u64, ss: &Vec<Sample>, buf: &mut Vec<u8>)
    requires
        1 <= tag <= 1000,
    ensures
        final(buf)@ == old(buf)@ + sample_fields(tag as nat, ss@.map_values(|s: Sample| s@)),
{
    let ghost views = ss@.map_values(|s: Sample| s@);
    let mut i: usize = 0;
    while i < ss.len()
        invariant
            1 <= tag <= 1000,
            i <= ss@.len(),
            views == ss@.map_values(|s: Sample| s@),
            buf@ == old(buf)@ + sample_fields(tag as nat, views.subrange(0, i as int)),
        decreases ss@.len() - i,
    {
        let mut body: Vec<u8> = Vec::new();
        ss[i].encode_raw(&mut body);
        put_len_field(tag, &mut body, buf);
        assert(views.subrange(0, i + 1).drop_last() =~= views.subrange(0, i as int));
        i += 1;
        assert(buf@ =~= old(buf)@ + sample_fields(tag as nat, views.subrange(0, i as int)));
    }
    assert(views.subrange(0, ss@.len() as int) =~= views);
}

fn put_mappings(tag: u64, ms: &Vec<Mapping>, buf: &mut Vec<u8>)
    requires
        1 <= tag <= 1000,
    ensures
        final(buf)@ == old(buf)@ + mapping_fields(tag as nat, ms@),
{
    let mut i: usize = 0;
    while i < ms.len()
        invariant
            1 <= tag <= 1000,
            i <= ms@.len(),
            buf@ == old(buf)@ + mapping_fields(tag as nat, ms@.subrange(0, i as int)),
        decreases ms@.len() - i,
    {
        let mut body: Vec<u8> = Vec::new();
        ms[i].encode_raw(&mut body);
        put_len_field(tag, &mut body, buf);
        assert(ms@.subrange(0, i + 1).drop_last() =~= ms@.subrange(0, i as int));
        i += 1;
        assert(buf@ =~= old(buf)@ + mapping_fields(tag as nat, ms@.subrange(0, i as int)));
    }
    assert(ms@.subrange(0, ms@.len() as int) =~= ms@);
}

fn put_locations(tag: u64, ls: &Vec<Location>, buf: &mut Vec<u8>)
    requires
        1 <= tag <= 1000,
    ensures
        final(buf)@ == old(buf)@ + location_fields(tag as nat, ls@.map_values(|l: Location| l@)),
{
    let ghost views = ls@.map_values(|l: Location| l@);
    let mut i: usize = 0;
    while i < ls.len()
        invariant
            1 <= tag <= 1000,
            i <= ls@.len(),
            views == ls@.map_values(|l: Location| l@),
            buf@ == old(buf)@ + location_fields(tag as nat, views.subrange(0, i as int)),
        decreases ls@.len() - i,
    {
        let mut body: Vec<u8> = Vec::new();
        ls[i].encode_raw(&mut body);
        put_len_field(tag, &mut body, buf);
        assert(views.subrange(0, i + 1).drop_last() =~= views.subrange(0, i as int));
        i += 1;
        assert(buf@ =~= old(buf)@ + location_fields(tag as nat, views.subrange(0, i as int)));
    }
    assert(views.subrange(0, ls@.len() as int) =~= views);
}

fn put_functions(tag: u64, fs: &Vec<Function>, buf: &mut Vec<u8>)
    requires
        1 <= tag <= 1000,
    ensures
        final(buf)@ == old(buf)@ + function_fields(tag as nat, fs@),
{
    let mut i: usize = 0;
    while i < fs.len()
        invariant
            1 <= tag <= 1000,
            i <= fs@.len(),
            buf@ == old(buf)@ + function_fields(tag as nat, fs@.subrange(0, i as int)),
        decreases fs@.len() - i,
    {
        let mut body: Vec<u8> = Vec::new();
        fs[i].encode_raw(&mut body);
        put_len_field(tag, &mut body, buf);
        assert(fs@.subrange(0, i + 1).drop_last() =~= fs@.subrange(0, i as int));
        i += 1;
        assert(buf@ =~= old(buf)@ + function_fields(tag as nat, fs@.subrange(0, i as int)));
    }
    assert(fs@.subrange(0, fs@.len() as int) =~= fs@);
}

fn put_strings(tag: u64, ss: &Vec<String>, buf: &mut Vec<u8>)
    requires
        1 <= tag <= 1000,
    ensures
        final(buf)@ == old(buf)@ + string_fields(tag as nat, ss@.map_values(|s: String| s@)),
{
    let ghost views = ss@.map_values(|s: String| s@);
    let mut i: usize = 0;
    while i < ss.len()
        invariant
            1 <= tag <= 1000,
            i <= ss@.len(),
            views == ss@.map_values(|s: String| s@),
            buf@ == old(buf)@ + string_fields(tag as nat, views.subrange(0, i as int)),
        decreases ss@.len() - i,
    {
        put_string(tag, &ss[i], buf);
        assert(views.subrange(0, i + 1).drop_last() =~= views.subrange(0, i as int));
        i += 1;
        assert(buf@ =~= old(buf)@ + string_fields(tag as nat, views.subrange(0, i as int)));
    }
    assert(views.subrange(0, ss@.len() as int) =~= views);
}

impl Profile {
    fn put_tables(&self, buffer: &mut Vec<u8>)
        ensures
            final(buffer)@ == old(buffer)@ + tables_bytes(self@),
    {
        let ghost b0 = buffer@;
        let ghost p = self@;
        put_value_types(1, &self.sample_types, buffer);
        put_samples(2, &self.samples, buffer);
        let ghost a2 = value_type_fields(1, p.sample_types) + sample_fields(2, p.samples);
        assert(buffer@ =~= b0 + a2);
        put_mappings(3, &self.mappings, buffer);
        let ghost a3 = a2 + mapping_fields(3, p.mappings);
        assert(buffer@ =~= b0 + a3);
        put_locations(4, &self.locations, buffer);
        let ghost a4 = a3 + location_fields(4, p.locations);
        assert(buffer@ =~= b0 + a4);
        put_functions(5, &self.functions, buffer);
        let ghost a5 = a4 + function_fields(5, p.functions);
        assert(buffer@ =~= b0 + a5);
        put_strings(6, &self.string_table, buffer);
        let ghost a6 = a5 + string_fields(6, p.string_table);
        assert(buffer@ =~= b0 + a6);
    }

    fn put_scalars(&self, buffer: &mut Vec<u8>)
        ensures
            final(buffer)@ == old(buffer)@ + scalars_bytes(self@),
    {
        let ghost b0 = buffer@;
        let ghost p = self@;
        put_int64(7, self.drop_frames, buffer);
        put_int64(8, self.keep_frames, buffer);
        let ghost a8 = int64_field(7, p.drop_frames) + int64_field(8, p.keep_frames);
        assert(buffer@ =~= b0 + a8);
        put_int64(9, self.time_nanos, buffer);
        let ghost a9 = a8 + int64_field(9, p.time_nanos);
        assert(buffer@ =~= b0 + a9);
        put_int64(10, self.duration_nanos, buffer);
        let ghost a10 = a9 + int64_field(10, p.duration_nanos);
        assert(buffer@ =~= b0 + a10);
        match &self.period_type {
            Some(v) => {
                let mut body: Vec<u8> = Vec::new();
                v.encode_raw(&mut body);
                put_len_field(11, &mut body, buffer);
            },
            None => {},
        }
        let ghost a11 = a10 + optional_value_type_field(11, p.period_type);
        assert(buffer@ =~= b0 + a11);
        put_int64(12, self.period, buffer);
        let ghost a12 = a11 + int64_field(12, p.period);
        assert(buffer@ =~= b0 + a12);
        put_packed_i64(13, &self.comment, buffer);
        let ghost a13 = a12 + packed_i64_field(13, p.comment);
        assert(buffer@ =~= b0 + a13);
        put_int64(14, self.default_sample_type, buffer);
        let ghost a14 = a13 + int64_field(14, p.default_sample_type);
        assert(buffer@ =~= b0 + a14);
    }

    /// Appends the encoded message to `buffer`.
    pub fn write_to_vec(&self, buffer: &mut Vec<u8>)
        ensures
            final(buffer)@ == old(buffer)@ + profile_bytes(self@),
    {
        self.put_tables(buffer);
        self.put_scalars(buffer);
        assert(final(buffer)@ =~= old(buffer)@ + profile_bytes(self@));
    }
}

} // verus!
