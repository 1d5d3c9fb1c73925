use round_profile::{
    ingest, prepare, Aggregator, DecodePolicy, MetricSeries, NormalizedPoint, Point, RawSample,
    ReferenceTable, RoundFile, RunError, TimestampFormatError,
};

fn sample(name: &str, value_ref: usize, calls: i64) -> RawSample {
    RawSample { name: name.to_string(), value_ref, calls }
}

fn file(name: &str, samples: Option<Vec<RawSample>>) -> RoundFile {
    RoundFile { name: name.as_bytes().to_vec(), samples }
}

const T1: i64 = 1614610800;
const T2: i64 = 1614611100;

/// Two rounds; values are kept in a table indexed by `value_ref`.
fn two_rounds() -> (Vec<RoundFile>, Vec<f64>) {
    let values = vec![120.0, 40.0, 130.0, 45.0];
    let files = vec![
        file(
            "2021-03-01 10-00-00-ingame.json",
            Some(vec![sample("SendMaps", 0, 1800), sample("Move", 1, 1800)]),
        ),
        file(
            "2021-03-01 10-05-00-ingame.json",
            Some(vec![sample("SendMaps", 2, 1500), sample("Move", 3, 1500)]),
        ),
    ];
    (files, values)
}

fn names(a: &Aggregator) -> Vec<String> {
    a.series().iter().map(|m: &MetricSeries| m.name.clone()).collect()
}

#[test]
fn two_round_scenario() {
    let (files, values) = two_rounds();
    let (agg, table) = prepare(&files, DecodePolicy::FailFast, &"SendMaps".to_string()).unwrap();
    assert_eq!(names(&agg), vec!["SendMaps".to_string(), "Move".to_string()]);
    assert_eq!(agg.points_of(&"SendMaps".to_string()).len(), 2);
    let moves = agg.points_of(&"Move".to_string());
    assert_eq!(moves.len(), 2);
    assert_eq!(table.minimum_reference_calls(), 1500);
    let norm = table.normalize(&moves);
    assert_eq!(
        norm,
        vec![
            NormalizedPoint { time: T1, value_ref: 1, divisor: 1800 },
            NormalizedPoint { time: T2, value_ref: 3, divisor: 1500 },
        ]
    );
    let adjusted: Vec<f64> = norm.iter().map(|p| values[p.value_ref] / p.divisor as f64).collect();
    assert_eq!(adjusted, vec![40.0 / 1800.0, 45.0 / 1500.0]);
}

#[test]
fn reference_series_normalizes_to_one() {
    let (files, values) = two_rounds();
    let (agg, table) = prepare(&files, DecodePolicy::FailFast, &"SendMaps".to_string()).unwrap();
    let norm = table.normalize(&agg.points_of(&"SendMaps".to_string()));
    assert_eq!(norm[0].divisor, 1800);
    assert_eq!(norm[1].divisor, 1500);
    for (p, raw) in norm.iter().zip([120.0, 130.0]) {
        assert_eq!(values[p.value_ref] * p.divisor as f64 / p.divisor as f64, raw);
    }
}

#[test]
fn missing_reference_metric_is_fatal() {
    let files = vec![file("2021-03-01 10-00-00-ingame.json", Some(vec![sample("Move", 0, 10)]))];
    assert_eq!(
        prepare(&files, DecodePolicy::FailFast, &"SendMaps".to_string()).err(),
        Some(RunError::MissingReferenceMetric)
    );
}

#[test]
fn empty_dataset_has_no_reference() {
    assert_eq!(
        prepare(&Vec::new(), DecodePolicy::SkipInvalid, &"SendMaps".to_string()).err(),
        Some(RunError::MissingReferenceMetric)
    );
}

#[test]
fn undecodable_file_fails_fast() {
    let files = vec![
        file("2021-03-01 10-00-00-ingame.json", None),
        file("2021-03-01 10-05-00-ingame.json", Some(vec![sample("SendMaps", 0, 1500)])),
    ];
    assert_eq!(
        prepare(&files, DecodePolicy::FailFast, &"SendMaps".to_string()).err(),
        Some(RunError::Decode { file: 0 })
    );
}

#[test]
fn undecodable_file_is_skipped() {
    let files = vec![
        file("2021-03-01 10-00-00-ingame.json", None),
        file(
            "2021-03-01 10-05-00-ingame.json",
            Some(vec![sample("SendMaps", 0, 1500), sample("Move", 1, 30)]),
        ),
    ];
    let (agg, table) = prepare(&files, DecodePolicy::SkipInvalid, &"SendMaps".to_string()).unwrap();
    assert_eq!(names(&agg), vec!["SendMaps".to_string(), "Move".to_string()]);
    assert_eq!(
        agg.points_of(&"Move".to_string()),
        vec![Point { time: T2, calls: 30, value_ref: 1 }]
    );
    assert_eq!(table.minimum_reference_calls(), 1500);
}

#[test]
fn bad_file_name_is_fatal() {
    let files = vec![
        file("2021-03-01 10-00-00-ingame.json", Some(vec![sample("SendMaps", 0, 1500)])),
        file("Round 10-05-00-ingame.json", Some(vec![sample("SendMaps", 1, 1500)])),
    ];
    assert_eq!(
        ingest(&files, DecodePolicy::SkipInvalid).err(),
        Some(RunError::Timestamp { file: 1, error: TimestampFormatError::MissingToken })
    );
}

#[test]
fn repeated_metric_in_one_file_keeps_both_points() {
    let files = vec![file(
        "2021-03-01 10-00-00-ingame.json",
        Some(vec![sample("Move", 0, 1), sample("Move", 1, 2)]),
    )];
    let agg = ingest(&files, DecodePolicy::FailFast).unwrap();
    assert_eq!(
        agg.points_of(&"Move".to_string()),
        vec![
            Point { time: T1, calls: 1, value_ref: 0 },
            Point { time: T1, calls: 2, value_ref: 1 },
        ]
    );
}

#[test]
fn series_length_counts_files_with_metric() {
    let files = vec![
        file("2021-03-01 10-00-00-ingame.json", Some(vec![sample("A", 0, 1), sample("B", 1, 1)])),
        file("2021-03-01 10-05-00-ingame.json", Some(vec![sample("B", 2, 1)])),
        file("2021-03-01 10-10-00-ingame.json", Some(vec![sample("C", 3, 1), sample("B", 4, 1)])),
    ];
    let agg = ingest(&files, DecodePolicy::FailFast).unwrap();
    assert_eq!(names(&agg), vec!["A".to_string(), "B".to_string(), "C".to_string()]);
    assert_eq!(agg.points_of(&"A".to_string()).len(), 1);
    assert_eq!(agg.points_of(&"B".to_string()).len(), 3);
    assert_eq!(agg.points_of(&"C".to_string()).len(), 1);
    assert_eq!(agg.points_of(&"D".to_string()).len(), 0);
}

#[test]
fn missing_round_in_reference_divides_by_one() {
    let mut agg = Aggregator::new();
    agg.add(&"SendMaps".to_string(), Point { time: T1, calls: 1800, value_ref: 0 });
    agg.add(&"Move".to_string(), Point { time: T2, calls: 5, value_ref: 1 });
    let table = ReferenceTable::build(&agg, &"SendMaps".to_string()).unwrap();
    assert_eq!(table.divisor_at(T2), 1);
    assert_eq!(table.divisor_at(T1), 1800);
    assert_eq!(table.calls_at(T2), None);
    let norm = table.normalize(&agg.points_of(&"Move".to_string()));
    assert_eq!(norm, vec![NormalizedPoint { time: T2, value_ref: 1, divisor: 1 }]);
}

#[test]
fn later_reference_point_overrides_same_round() {
    let mut agg = Aggregator::new();
    agg.add(&"SendMaps".to_string(), Point { time: T1, calls: 1800, value_ref: 0 });
    agg.add(&"SendMaps".to_string(), Point { time: T1, calls: 900, value_ref: 1 });
    let table = ReferenceTable::build(&agg, &"SendMaps".to_string()).unwrap();
    assert_eq!(table.calls_at(T1), Some(900));
    assert_eq!(table.minimum_reference_calls(), 900);
}

#[test]
fn rounds_are_added_earliest_first() {
    let files = vec![
        file("2021-03-01 10-10-00-ingame.json", Some(vec![sample("A", 0, 3)])),
        file("2021-03-01 10-00-00-ingame.json", Some(vec![sample("B", 1, 1), sample("A", 2, 1)])),
        file("2021-03-01 10-05-00-ingame.json", Some(vec![sample("A", 3, 2)])),
    ];
    let agg = ingest(&files, DecodePolicy::FailFast).unwrap();
    assert_eq!(names(&agg), vec!["B".to_string(), "A".to_string()]);
    let calls: Vec<i64> = agg.points_of(&"A".to_string()).iter().map(|p| p.calls).collect();
    assert_eq!(calls, vec![1, 2, 3]);
}
