use ddprof_profiles::api;
use ddprof_profiles::pprof;
use ddprof_profiles::profile::{PProfId, Profile};
use ddprof_profiles::profiled_endpoints::ProfiledEndpointStats;
use ddprof_profiles::time::Timespec;

fn string_at(profile: &pprof::Profile, id: i64) -> &str {
    profile.string_table.get(id as usize).expect("index to exist").as_str()
}

#[test]
fn interning() {
    let sample_types = vec![api::ValueType {
        type_: "samples",
        unit: "count",
    }];
    let mut profiles = Profile::builder().sample_types(sample_types).build();

    /* There have been 3 strings: "", "samples", and "count". Since the interning index starts at
     * zero, this means the next string will be 3.
     */
    const EXPECTED_ID: i64 = 3;

    let string = "a";
    let id1 = profiles.intern(string);
    let id2 = profiles.intern(string);

    assert_eq!(id1, id2);
    assert_eq!(id1, EXPECTED_ID);
}

#[test]
fn api() {
    let sample_types = vec![
        api::ValueType {
            type_: "samples",
            unit: "count",
        },
        api::ValueType {
            type_: "wall-time",
            unit: "nanoseconds",
        },
    ];

    let mapping = api::Mapping {
        filename: "php",
        ..Default::default()
    };

    let index = api::Function {
        filename: "index.php",
        ..Default::default()
    };

    let locations = vec![
        api::Location {
            mapping,
            lines: vec![api::Line {
                function: api::Function {
                    name: "phpinfo",
                    system_name: "phpinfo",
                    filename: "index.php",
                    start_line: 0,
                },
                line: 0,
            }],
            ..Default::default()
        },
        api::Location {
            mapping,
            lines: vec![api::Line {
                function: index,
                line: 3,
            }],
            ..Default::default()
        },
    ];

    let mut profile = Profile::builder().sample_types(sample_types).build();
    let sample_id = profile
        .add(api::Sample {
            locations,
            values: vec![1, 10000],
            labels: vec![],
        })
        .expect("add to succeed");

    assert_eq!(sample_id, PProfId(1));
}

fn provide_distinct_locations() -> Profile {
    provide_distinct_locations_with_period(None)
}

fn provide_distinct_locations_with_period(period: Option<api::Period<'static>>) -> Profile {
    let sample_types = vec![api::ValueType {
        type_: "samples",
        unit: "count",
    }];

    let main_lines = vec![api::Line {
        function: api::Function {
            name: "{main}",
            system_name: "{main}",
            filename: "index.php",
            start_line: 0,
        },
        line: 0,
    }];

    let test_lines = vec![api::Line {
        function: api::Function {
            name: "test",
            system_name: "test",
            filename: "index.php",
            start_line: 3,
        },
        line: 0,
    }];

    let mapping = api::Mapping {
        filename: "php",
        ..Default::default()
    };

    let main_locations = vec![api::Location {
        mapping,
        lines: main_lines,
        ..Default::default()
    }];
    let test_locations = vec![api::Location {
        mapping,
        lines: test_lines,
        ..Default::default()
    }];
    let values: Vec<i64> = vec![1];
    let labels = vec![api::Label {
        key: "pid",
        num: 101,
        ..Default::default()
    }];

    let main_sample = api::Sample {
        locations: main_locations,
        values: values.clone(),
        labels: labels.clone(),
    };

    let test_sample = api::Sample {
        locations: test_locations,
        values,
        labels,
    };

    let mut profile = Profile::builder()
        .sample_types(sample_types)
        .period(period)
        .build();

    let sample_id1 = profile.add(main_sample).expect("profile to not be full");
    assert_eq!(sample_id1, PProfId(1));

    let sample_id2 = profile.add(test_sample).expect("profile to not be full");
    assert_eq!(sample_id2, PProfId(2));

    profile
}

#[test]
fn impl_from_profile_for_pprof_profile() {
    let locations = provide_distinct_locations();
    let profile = locations.to_pprof();

    assert_eq!(profile.samples.len(), 2);
    assert_eq!(profile.mappings.len(), 1);
    assert_eq!(profile.locations.len(), 2);
    assert_eq!(profile.functions.len(), 2);

    for (index, mapping) in profile.mappings.iter().enumerate() {
        assert_eq!((index + 1) as u64, mapping.id);
    }

    for (index, location) in profile.locations.iter().enumerate() {
        assert_eq!((index + 1) as u64, location.id);
    }

    for (index, function) in profile.functions.iter().enumerate() {
        assert_eq!((index + 1) as u64, function.id);
    }

    let sample = profile.samples.get(0).expect("index 0 to exist");
    assert_eq!(sample.labels.len(), 1);
    let label = sample.labels.get(0).expect("index 0 to exist");
    let key = profile
        .string_table
        .get(label.key as usize)
        .expect("index to exist");
    let str = profile
        .string_table
        .get(label.str as usize)
        .expect("index to exist");
    let num_unit = profile
        .string_table
        .get(label.num_unit as usize)
        .expect("index to exist");
    assert_eq!(key, "pid");
    assert_eq!(label.num, 101);
    assert_eq!(str, "");
    assert_eq!(num_unit, "");
}

#[test]
fn reset() {
    let mut profile = provide_distinct_locations();
    /* This set of asserts is to make sure it's a non-empty profile that we
     * are working with so that we can test that reset works.
     */
    let before = profile.to_pprof();
    assert!(!before.functions.is_empty());
    assert!(!before.locations.is_empty());
    assert!(!before.mappings.is_empty());
    assert!(!before.samples.is_empty());
    assert!(!before.sample_types.is_empty());
    assert!(before.period_type.is_none());
    let stats = profile.serialize(None, None).expect("serialize").endpoints_stats;
    assert!(stats.is_empty());

    let prev = profile.reset(None).expect("reset to succeed");

    // These should all be empty now
    let after = profile.to_pprof();
    assert!(after.functions.is_empty());
    assert!(after.locations.is_empty());
    assert!(after.mappings.is_empty());
    assert!(after.samples.is_empty());
    let stats = profile.serialize(None, None).expect("serialize").endpoints_stats;
    assert!(stats.is_empty());

    let prev = prev.to_pprof();
    assert_eq!(after.period_type, prev.period_type);
    assert_eq!(after.period, prev.period);
    assert_eq!(after.sample_types, prev.sample_types);

    // The string table should have at least the empty string:
    assert!(!after.string_table.is_empty());
    // The empty string should be at position 0
    assert_eq!(profile.get_string(0).expect("index 0 to be found"), "");
}

#[test]
fn reset_period() {
    /* The previous test (reset) checked quite a few properties already, so
     * this one will focus only on the period.
     */
    let period = api::Period {
        type_: api::ValueType::new("wall-time", "nanoseconds"),
        value: 10_000_000,
    };
    let mut profile = provide_distinct_locations_with_period(Some(period));
    let period_ids = profile.to_pprof().period_type;

    let prev = profile.reset(None).expect("reset to succeed");
    let prev = prev.to_pprof();
    assert_eq!(period_ids, prev.period_type);
    assert_eq!(10_000_000, prev.period);

    // Resolve the string values to check that they match (their string
    // table offsets may not match).
    let now = profile.to_pprof();
    let period_type = now.period_type.expect("profile to have a period");
    assert_eq!(now.period, 10_000_000);
    assert_eq!(
        profile
            .get_string(period_type.type_)
            .expect("string to be found"),
        "wall-time"
    );
    assert_eq!(
        profile
            .get_string(period_type.unit)
            .expect("string to be found"),
        "nanoseconds"
    );
}

#[test]
fn lazy_endpoints() {
    let sample_types = vec![
        api::ValueType {
            type_: "samples",
            unit: "count",
        },
        api::ValueType {
            type_: "wall-time",
            unit: "nanoseconds",
        },
    ];

    let mut profile: Profile = Profile::builder().sample_types(sample_types).build();

    let id_label = api::Label {
        key: "local root span id",
        str: Some("10"),
        num: 0,
        num_unit: None,
    };

    let id2_label = api::Label {
        key: "local root span id",
        str: Some("11"),
        num: 0,
        num_unit: None,
    };

    let other_label = api::Label {
        key: "other",
        str: Some("test"),
        num: 0,
        num_unit: None,
    };

    let sample1 = api::Sample {
        locations: vec![],
        values: vec![1, 10000],
        labels: vec![id_label, other_label],
    };

    let sample2 = api::Sample {
        locations: vec![],
        values: vec![1, 10000],
        labels: vec![id2_label, other_label],
    };

    profile.add(sample1).expect("add to success");

    profile.add(sample2).expect("add to success");

    profile
        .add_endpoint("10", "my endpoint")
        .expect("room for the endpoint");

    let serialized_profile: pprof::Profile = profile.to_pprof();

    assert_eq!(serialized_profile.samples.len(), 2);

    let s1 = serialized_profile.samples.get(0).expect("sample");

    // The trace endpoint label should be added to the first sample
    assert_eq!(s1.labels.len(), 3);

    let l1 = s1.labels.get(0).expect("label");
    assert_eq!(string_at(&serialized_profile, l1.key), "local root span id");
    assert_eq!(string_at(&serialized_profile, l1.str), "10");

    let l2 = s1.labels.get(1).expect("label");
    assert_eq!(string_at(&serialized_profile, l2.key), "other");
    assert_eq!(string_at(&serialized_profile, l2.str), "test");

    let l3 = s1.labels.get(2).expect("label");
    assert_eq!(string_at(&serialized_profile, l3.key), "trace endpoint");
    assert_eq!(string_at(&serialized_profile, l3.str), "my endpoint");

    let s2 = serialized_profile.samples.get(1).expect("sample");

    // The trace endpoint label shouldn't be added to second sample because the span id doesn't match
    assert_eq!(s2.labels.len(), 2);
}

#[test]
fn endpoints_count_empty_test() {
    let sample_types = vec![
        api::ValueType {
            type_: "samples",
            unit: "count",
        },
        api::ValueType {
            type_: "wall-time",
            unit: "nanoseconds",
        },
    ];

    let profile: Profile = Profile::builder().sample_types(sample_types).build();

    let encoded_profile = profile
        .serialize(None, None)
        .expect("Unable to encode/serialize the profile");

    let endpoints_stats = &encoded_profile.endpoints_stats;
    assert!(endpoints_stats.is_empty());
}

#[test]
fn endpoints_count_test() {
    let sample_types = vec![
        api::ValueType {
            type_: "samples",
            unit: "count",
        },
        api::ValueType {
            type_: "wall-time",
            unit: "nanoseconds",
        },
    ];

    let mut profile: Profile = Profile::builder().sample_types(sample_types).build();

    let first_local_root_span_id = "1";
    let one_endpoint = "my endpoint";

    profile
        .add_endpoint(first_local_root_span_id, one_endpoint)
        .expect("room for the endpoint");

    let second_endpoint = "other endpoint";
    profile
        .add_endpoint(first_local_root_span_id, second_endpoint)
        .expect("room for the endpoint");

    let second_local_root_span_id = "2";
    profile
        .add_endpoint(second_local_root_span_id, one_endpoint)
        .expect("room for the endpoint");

    let encoded_profile = profile
        .serialize(None, None)
        .expect("Unable to encode/serialize the profile");

    let endpoints_stats = encoded_profile.endpoints_stats.to_vec();

    let expected_endpoints_stats = vec![
        ProfiledEndpointStats {
            name: one_endpoint.to_string(),
            count: 2,
        },
        ProfiledEndpointStats {
            name: second_endpoint.to_string(),
            count: 1,
        },
    ];

    assert_eq!(endpoints_stats, expected_endpoints_stats);
}

#[test]
fn ctor_and_dtor() {
    let sample_type = api::ValueType::new("samples", "count");
    let profile = Profile::builder().sample_types(vec![sample_type]).build();
    drop(profile);
}

#[test]
fn aggregate_samples() {
    let sample_type = api::ValueType::new("samples", "count");
    let mut profile = Profile::builder().sample_types(vec![sample_type]).build();

    let lines = vec![api::Line {
        function: api::Function {
            name: "{main}",
            system_name: "{main}",
            filename: "index.php",
            start_line: 0,
        },
        line: 0,
    }];

    let mapping = api::Mapping {
        filename: "php",
        ..Default::default()
    };

    let locations = vec![api::Location {
        mapping,
        lines,
        ..Default::default()
    }];
    let values: Vec<i64> = vec![1];
    let labels = vec![api::Label {
        key: "pid",
        num: 101,
        ..Default::default()
    }];

    let sample = api::Sample {
        locations,
        values,
        labels,
    };

    let sample_id1 = profile.add(sample.clone()).expect("add to succeed");
    assert_eq!(sample_id1, PProfId(1));

    let sample_id2 = profile.add(sample).expect("add to succeed");
    assert_eq!(sample_id1, sample_id2);
}

#[test]
fn distinct_locations_ffi() {
    provide_distinct_locations();
}
