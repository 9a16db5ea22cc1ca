use ddprof_profiles::api;
use ddprof_profiles::pprof;
use ddprof_profiles::profile::{PProfId, Profile};
use ddprof_profiles::profiled_endpoints::ProfiledEndpointsStats;
use ddprof_profiles::storage::ProfileStorage;
use ddprof_profiles::string_table::StringTable;
use ddprof_profiles::time::{from_clock_reading, ClockReading, Timespec};

fn php_sample(function_name: &'static str, values: Vec<i64>) -> api::Sample<'static> {
    api::Sample {
        locations: vec![api::Location {
            mapping: api::Mapping {
                filename: "php",
                ..Default::default()
            },
            lines: vec![api::Line {
                function: api::Function {
                    name: function_name,
                    filename: "index.php",
                    ..Default::default()
                },
                line: 0,
            }],
            ..Default::default()
        }],
        values,
        labels: vec![],
    }
}

fn count_profile() -> Profile {
    Profile::builder()
        .sample_types(vec![api::ValueType::new("samples", "count")])
        .start_time(Some(Timespec {
            seconds: 1,
            nanoseconds: 5,
        }))
        .build()
}

#[test]
fn single_sample() {
    let mut profile = count_profile();
    let id = profile.add(php_sample("{main}", vec![1])).expect("room");
    assert_eq!(id, PProfId(1));
    let p = profile.to_pprof();
    assert_eq!(p.samples.len(), 1);
    assert_eq!(p.mappings.len(), 1);
    assert_eq!(p.locations.len(), 1);
    assert_eq!(p.functions.len(), 1);
    let strings: Vec<&str> = p.string_table.iter().map(|s| s.as_str()).collect();
    assert_eq!(strings, vec!["", "samples", "count", "php", "{main}", "index.php"]);
    assert_eq!(p.samples[0].location_ids, vec![1]);
    assert_eq!(p.samples[0].values, vec![1]);
    assert_eq!(p.locations[0].lines[0].function_id, 1);
    assert_eq!(p.locations[0].mapping_id, 1);
}

#[test]
fn same_sample_twice_aggregates() {
    let mut profile = count_profile();
    let a = profile.add(php_sample("{main}", vec![3])).expect("room");
    let b = profile.add(php_sample("{main}", vec![3])).expect("room");
    assert_eq!(a, b);
    let p = profile.to_pprof();
    assert_eq!(p.samples.len(), 1);
    assert_eq!(p.samples[0].values, vec![6]);
}

#[test]
fn aggregation_wraps_on_overflow() {
    let mut profile = count_profile();
    profile.add(php_sample("{main}", vec![i64::MAX])).expect("room");
    profile.add(php_sample("{main}", vec![1])).expect("room");
    assert_eq!(profile.to_pprof().samples[0].values, vec![i64::MIN]);
}

#[test]
fn distinct_functions_give_distinct_samples() {
    let mut profile = count_profile();
    let a = profile.add(php_sample("{main}", vec![1])).expect("room");
    let b = profile.add(php_sample("test", vec![1])).expect("room");
    assert_eq!(a, PProfId(1));
    assert_eq!(b, PProfId(2));
    let p = profile.to_pprof();
    assert_eq!(p.samples.len(), 2);
    assert_eq!(p.locations.len(), 2);
    assert_eq!(p.mappings.len(), 1);
}

#[test]
fn distinct_labels_give_distinct_samples() {
    let mut profile = count_profile();
    let mut s1 = php_sample("{main}", vec![1]);
    s1.labels = vec![api::Label {
        key: "thread",
        str: Some("a"),
        ..Default::default()
    }];
    let mut s2 = php_sample("{main}", vec![1]);
    s2.labels = vec![api::Label {
        key: "thread",
        str: Some("b"),
        ..Default::default()
    }];
    assert_eq!(profile.add(s1).expect("room"), PProfId(1));
    assert_eq!(profile.add(s2).expect("room"), PProfId(2));
    assert_eq!(profile.to_pprof().samples.len(), 2);
}

#[test]
fn wrong_number_of_values_is_ignored() {
    let mut profile = count_profile();
    let id = profile.add(php_sample("{main}", vec![1, 2])).expect("no fault");
    assert_eq!(id, PProfId(0));
    let p = profile.to_pprof();
    assert!(p.samples.is_empty());
    assert_eq!(p.string_table.len(), 3);
}

#[test]
fn endpoint_counts_without_samples() {
    let mut profile = count_profile();
    profile.add_endpoint("1", "A").expect("room");
    profile.add_endpoint("1", "B").expect("room");
    profile.add_endpoint("2", "A").expect("room");
    let encoded = profile.serialize(None, None).expect("encodes");
    assert_eq!(encoded.endpoints_stats.get("A"), 2);
    assert_eq!(encoded.endpoints_stats.get("B"), 1);
    assert_eq!(encoded.endpoints_stats.get("C"), 0);
    assert_eq!(encoded.endpoints_stats.len(), 2);
    assert!(profile.to_pprof().samples.is_empty());
}

#[test]
fn later_endpoint_for_a_span_wins() {
    let mut profile = count_profile();
    let mut s = php_sample("{main}", vec![1]);
    s.labels = vec![api::Label {
        key: "local root span id",
        str: Some("7"),
        ..Default::default()
    }];
    profile.add(s).expect("room");
    profile.add_endpoint("7", "first").expect("room");
    profile.add_endpoint("7", "second").expect("room");
    let p = profile.to_pprof();
    let labels = &p.samples[0].labels;
    assert_eq!(labels.len(), 2);
    assert_eq!(p.string_table[labels[1].key as usize], "trace endpoint");
    assert_eq!(p.string_table[labels[1].str as usize], "second");
}

#[test]
fn reset_keeps_sample_types() {
    let mut profile = count_profile();
    profile.add(php_sample("{main}", vec![1])).expect("room");
    profile.add_endpoint("1", "A").expect("room");
    let prev = profile
        .reset(Some(Timespec {
            seconds: 9,
            nanoseconds: 0,
        }))
        .expect("reset");
    let old = prev.to_pprof();
    assert_eq!(old.samples.len(), 1);
    let new = profile.to_pprof();
    assert!(new.samples.is_empty());
    assert!(new.mappings.is_empty());
    assert_eq!(new.string_table, vec!["", "samples", "count"]);
    let t = new.sample_types[0];
    assert_eq!(new.string_table[t.type_ as usize], "samples");
    assert_eq!(new.string_table[t.unit as usize], "count");
    assert_eq!(new.time_nanos, 9_000_000_000);
    let encoded = profile.serialize(None, None).expect("encodes");
    assert!(encoded.endpoints_stats.is_empty());
}

#[test]
fn encoding_is_exact() {
    let profile = count_profile();
    let encoded = profile.serialize_at(
        Timespec {
            seconds: 3,
            nanoseconds: 5,
        },
        None,
    );
    let expected: Vec<u8> = vec![
        0x0a, 0x04, 0x08, 0x01, 0x10, 0x02, 0x32, 0x00, 0x32, 0x07, 0x73, 0x61, 0x6d, 0x70, 0x6c,
        0x65, 0x73, 0x32, 0x05, 0x63, 0x6f, 0x75, 0x6e, 0x74, 0x48, 0x85, 0x94, 0xeb, 0xdc, 0x03,
        0x50, 0x80, 0xa8, 0xd6, 0xb9, 0x07,
    ];
    assert_eq!(encoded.buffer, expected);
    assert_eq!(encoded.start.seconds, 1);
    assert_eq!(encoded.end.seconds, 3);
}

#[test]
fn encoding_is_deterministic() {
    let build = || {
        let mut p = count_profile();
        p.add(php_sample("{main}", vec![1])).expect("room");
        p.add(php_sample("test", vec![2])).expect("room");
        p.add_endpoint("1", "A").expect("room");
        p
    };
    let end = Timespec {
        seconds: 10,
        nanoseconds: 0,
    };
    let a = build().serialize_at(end, None);
    let b = build().serialize_at(end, None);
    assert_eq!(a.buffer, b.buffer);
}

#[test]
fn durations_are_clamped() {
    let profile = count_profile();
    let early = Timespec {
        seconds: 0,
        nanoseconds: 0,
    };
    let backwards = profile.serialize_at(early, None);
    let forwards = profile.serialize_at(
        Timespec {
            seconds: 1,
            nanoseconds: 6,
        },
        None,
    );
    // A duration of zero is left out; one nanosecond takes two bytes.
    assert_eq!(forwards.buffer.len(), backwards.buffer.len() + 2);
    let huge = profile.serialize_at(early, Some(u64::MAX));
    let mut tail = vec![0x50];
    tail.extend_from_slice(&[0xff, 0xff, 0xff, 0xff, 0xff, 0xff, 0xff, 0xff, 0x7f]);
    assert!(huge.buffer.ends_with(&tail));
}

#[test]
fn start_before_epoch_is_zero() {
    let profile = Profile::builder()
        .start_time(Some(Timespec {
            seconds: -5,
            nanoseconds: 0,
        }))
        .build();
    assert_eq!(profile.to_pprof().time_nanos, 0);
}

#[test]
fn clock_reads_valid_time() {
    let now = Timespec::now();
    assert!(now.nanoseconds < 1_000_000_000);
    assert!(now.seconds > 0);
}

#[test]
fn string_table_interns() {
    let mut t = StringTable::new();
    assert_eq!(t.len(), 1);
    assert_eq!(t.intern("x"), 1);
    assert_eq!(t.intern("y"), 2);
    assert_eq!(t.intern("x"), 1);
    assert_eq!(t.intern(""), 0);
    assert_eq!(t.get(2).map(|s| s.as_str()), Some("y"));
    assert_eq!(t.get(3), None);
    assert_eq!(t.strings(), vec!["", "x", "y"]);
}

#[test]
fn storage_deduplicates() {
    let mut storage = ProfileStorage::new();
    let f = pprof::Function {
        id: 0,
        name: 1,
        system_name: 1,
        filename: 2,
        start_line: 0,
    };
    assert_eq!(storage.add_function(f), 1);
    assert_eq!(storage.add_function(pprof::Function { id: 9, ..f }), 1);
    assert_eq!(storage.add_function(pprof::Function { name: 3, ..f }), 2);
    let m = pprof::Mapping {
        id: 0,
        memory_start: 1,
        memory_limit: 2,
        file_offset: 0,
        filename: 1,
        build_id: 0,
        has_functions: false,
        has_filenames: false,
        has_line_numbers: false,
        has_inline_frames: false,
    };
    assert_eq!(storage.add_mapping(m), 1);
    assert_eq!(storage.add_mapping(m), 1);
    let l = pprof::Location {
        id: 0,
        mapping_id: 1,
        address: 0,
        lines: vec![pprof::Line {
            function_id: 2,
            line_number: 4,
        }],
        is_folded: false,
    };
    assert_eq!(storage.add_location(l.clone()), 1);
    assert_eq!(storage.add_location(l), 1);
    let functions = storage.functions();
    assert_eq!(functions.len(), 2);
    assert_eq!(functions[1].id, 2);
    assert_eq!(functions[1].name, 3);
    assert_eq!(storage.mappings()[0].id, 1);
    assert_eq!(storage.locations()[0].lines[0].line_number, 4);
}

#[test]
fn endpoint_stats_copy_and_list() {
    let mut stats = ProfiledEndpointsStats::new();
    assert!(stats.is_empty());
    stats.add_endpoint("a".to_string());
    stats.add_endpoint("b".to_string());
    stats.add_endpoint("a".to_string());
    let copy = stats.copy();
    let listed = copy.to_vec();
    assert_eq!(listed.len(), 2);
    assert_eq!(listed[0].name, "a");
    assert_eq!(listed[0].count, 2);
    assert_eq!(listed[1].name, "b");
    assert_eq!(listed[1].count, 1);
}

#[test]
fn label_with_string_value() {
    let l = pprof::Label::str(4, 5);
    assert_eq!(
        l,
        pprof::Label {
            key: 4,
            str: 5,
            num: 0,
            num_unit: 0
        }
    );
}

#[test]
fn endpoint_stats_from_list() {
    let stats = ProfiledEndpointsStats::from_vec(vec![
        ddprof_profiles::profiled_endpoints::ProfiledEndpointStats {
            name: "x".to_string(),
            count: 4,
        },
        ddprof_profiles::profiled_endpoints::ProfiledEndpointStats {
            name: "y".to_string(),
            count: 1,
        },
        ddprof_profiles::profiled_endpoints::ProfiledEndpointStats {
            name: "x".to_string(),
            count: 7,
        },
    ]);
    let listed = stats.to_vec();
    assert_eq!(listed.len(), 2);
    assert_eq!(listed[0].name, "x");
    assert_eq!(listed[0].count, 7);
    assert_eq!(listed[1].name, "y");
    assert_eq!(stats.get("y"), 1);
}

#[test]
fn endpoint_reported_many_times() {
    let mut profile = count_profile();
    for _ in 0..5 {
        profile.add_endpoint("1", "E").expect("room");
    }
    let encoded = profile.serialize(None, None).expect("encodes");
    assert_eq!(encoded.endpoints_stats.get("E"), 5);
}

#[test]
fn sample_ids_convert_to_integers() {
    assert_eq!(u64::from(PProfId(3)), 3);
    assert_eq!(i64::from(PProfId(3)), 3);
    assert_eq!(i64::from(PProfId(usize::MAX)), 0);
}

#[test]
fn numeric_labels_intern_their_unit() {
    let mut profile = count_profile();
    let mut s = php_sample("{main}", vec![1]);
    s.labels = vec![api::Label {
        key: "allocation size",
        str: None,
        num: 512,
        num_unit: Some("bytes"),
    }];
    profile.add(s).expect("room");
    let p = profile.to_pprof();
    let label = p.samples[0].labels[0];
    assert_eq!(p.string_table[label.key as usize], "allocation size");
    assert_eq!(label.str, 0);
    assert_eq!(label.num, 512);
    assert_eq!(p.string_table[label.num_unit as usize], "bytes");
}

#[test]
fn defaults_are_empty() {
    let stats = ProfiledEndpointsStats::default();
    assert!(stats.is_empty());
    let table = StringTable::default();
    assert_eq!(table.strings(), vec![""]);
    let storage = ProfileStorage::default();
    assert!(storage.functions().is_empty());
    let profile = ddprof_profiles::profile::ProfileBuilder::default().build();
    assert!(profile.to_pprof().sample_types.is_empty());
}

#[test]
fn span_label_only_first_counts() {
    let mut profile = count_profile();
    let mut s = php_sample("{main}", vec![1]);
    s.labels = vec![
        api::Label {
            key: "local root span id",
            str: Some("1"),
            ..Default::default()
        },
        api::Label {
            key: "local root span id",
            str: Some("2"),
            ..Default::default()
        },
    ];
    profile.add(s).expect("room");
    profile.add_endpoint("2", "second span").expect("room");
    let p = profile.to_pprof();
    assert_eq!(p.samples[0].labels.len(), 2);
}

#[test]
fn clock_readings_become_timespecs() {
    let t = |seconds: i64, nanoseconds: u32| Timespec {
        seconds,
        nanoseconds,
    };
    assert_eq!(
        from_clock_reading(ClockReading::AfterEpoch {
            seconds: 5,
            nanoseconds: 7
        }),
        t(5, 7)
    );
    assert_eq!(
        from_clock_reading(ClockReading::AfterEpoch {
            seconds: u64::MAX,
            nanoseconds: 3
        }),
        t(i64::MAX, 999_999_999)
    );
    assert_eq!(
        from_clock_reading(ClockReading::BeforeEpoch {
            seconds: 5,
            nanoseconds: 0
        }),
        t(-5, 0)
    );
    assert_eq!(
        from_clock_reading(ClockReading::BeforeEpoch {
            seconds: 5,
            nanoseconds: 250_000_000
        }),
        t(-6, 750_000_000)
    );
    assert_eq!(
        from_clock_reading(ClockReading::BeforeEpoch {
            seconds: u64::MAX,
            nanoseconds: 1
        }),
        t(i64::MIN, 0)
    );
}

#[test]
fn try_intern_holds_or_adds() {
    let mut table = StringTable::new();
    assert_eq!(table.try_intern("a"), Some(1));
    assert_eq!(table.try_intern("a"), Some(1));
    assert_eq!(table.try_intern(""), Some(0));
    assert_eq!(table.len(), 2);
}
