use round_profile::{artifact_stem, artifact_stems, caption_font_size, time_bounds, NormalizedPoint, TimeBounds};

fn np(time: i64) -> NormalizedPoint {
    NormalizedPoint { time, value_ref: 0, divisor: 1 }
}

#[test]
fn caption_size_is_clamped() {
    assert_eq!(caption_font_size(&"SendMaps".to_string()), 50);
    assert_eq!(caption_font_size(&"x".repeat(40)), 45);
    assert_eq!(caption_font_size(&"x".repeat(35)), 50);
    assert_eq!(caption_font_size(&"x".repeat(60)), 25);
    assert_eq!(caption_font_size(&"x".repeat(5000)), 25);
    assert_eq!(caption_font_size(&String::new()), 50);
}

#[test]
fn time_bounds_pad_one_hour() {
    let pts = vec![np(1614611100), np(1614610800), np(1614700000)];
    assert_eq!(
        time_bounds(&pts),
        Some(TimeBounds { min_time: 1614610800 - 3600, max_time: 1614700000 + 3600 })
    );
}

#[test]
fn time_bounds_of_one_point() {
    assert_eq!(time_bounds(&vec![np(100)]), Some(TimeBounds { min_time: -3500, max_time: 3700 }));
}

#[test]
fn time_bounds_of_empty_series() {
    assert_eq!(time_bounds(&Vec::new()), None);
}

#[test]
fn artifact_stem_removes_unsafe_characters() {
    assert_eq!(artifact_stem(&"SendMaps".to_string()), "SendMaps");
    assert_eq!(artifact_stem(&"a/b:c*d?".to_string()), "abcd");
    assert_eq!(artifact_stem(&"/datum/proc<x>".to_string()), "datumprocx");
}

#[test]
fn artifact_stems_collide_when_only_unsafe_characters_differ() {
    let a = artifact_stem(&"a/b".to_string());
    let b = artifact_stem(&"a:b".to_string());
    let c = artifact_stem(&"ab".to_string());
    assert_eq!(a, b);
    assert_eq!(a, c);
}

#[test]
fn artifact_stems_never_collide() {
    let names: Vec<String> =
        vec!["a/b", "a:b", "ab", "ab_", "Move"].into_iter().map(String::from).collect();
    assert_eq!(artifact_stems(&names), vec!["ab", "ab_", "ab__", "ab___", "Move"]);
}

#[test]
fn artifact_stems_of_distinct_safe_names_are_unchanged() {
    let names: Vec<String> = vec!["SendMaps", "Move", "Life"].into_iter().map(String::from).collect();
    assert_eq!(artifact_stems(&names), names);
    assert_eq!(artifact_stems(&Vec::new()), Vec::<String>::new());
}
