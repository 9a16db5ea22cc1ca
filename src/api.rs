//! The records a host hands to a profile: strings are borrowed for the
//! duration of a call.
use vstd::prelude::*;

verus! {

/// A sample type or period type by its strings.
#[derive(Clone, Copy, Debug)]
pub struct ValueType<'a> {
    pub type_: &'a str,
    pub unit: &'a str,
}

impl<'a> ValueType<'a> {
    pub fn new(type_: &'a str, unit: &'a str) -> (r: Self)
        ensures
            r.type_@ == type_@,
            r.unit@ == unit@,
    {
        ValueType { type_, unit }
    }
}

/// The period of a profile: how often samples are taken, in a given type.
#[derive(Clone, Copy, Debug)]
pub struct Period<'a> {
    pub type_: ValueType<'a>,
    pub value: i64,
}

/// A label: a key with either a string value or a number with its unit.
#[derive(Clone, Copy, Debug, Default)]
pub struct Label<'a> {
    pub key: &'a str,
    pub str: Option<&'a str>,
    pub num: i64,
    pub num_unit: Option<&'a str>,
}

/// A function by its names and file.
#[derive(Clone, Copy, Debug, Default)]
pub struct Function<'a> {
    pub name: &'a str,
    pub system_name: &'a str,
    pub filename: &'a str,
    pub start_line: i64,
}

/// A line of source code: its function and line number.
#[derive(Clone, Copy, Debug, Default)]
pub struct Line<'a> {
    pub function: Function<'a>,
    pub line: i64,
}

/// A loaded object.
#[derive(Clone, Copy, Debug, Default)]
pub struct Mapping<'a> {
    pub memory_start: u64,
    pub memory_limit: u64,
    pub file_offset: u64,
    pub filename: &'a str,
    pub build_id: &'a str,
}

/// A code location: its mapping, address and lines (inlined callee first).
#[derive(Clone, Debug, Default)]
pub struct Location<'a> {
    pub mapping: Mapping<'a>,
    pub address: u64,
    pub lines: Vec<Line<'a>>,
    pub is_folded: bool,
}

/// A sample: its stack (leaf first), one value per sample type, and labels.
#[derive(Clone, Debug, Default)]
pub struct Sample<'a> {
    pub locations: Vec<Location<'a>>,
    pub values: Vec<i64>,
    pub labels: Vec<Label<'a>>,
}

} // verus!
