//! Runs the real detection engine over a short sample and feeds its
//! candidates through the library, end to end.

use lingua::LanguageDetectorBuilder;
use rs_detect_language::codec::render_report;
use rs_detect_language::pipeline::{from_candidates, truncate_records};

#[test]
fn hello_world_yields_a_valid_line() {
    let detector = LanguageDetectorBuilder::from_all_languages().build();
    let values = detector.compute_language_confidence_values("Hello world");
    assert!(!values.is_empty());

    let mut cands: Vec<(String, String, String, u64)> = Vec::new();
    for (lang, conf) in values {
        let name = format!("{lang:?}");
        let iso1 = lang.iso_code_639_1().to_string();
        let iso3 = lang.iso_code_639_3().to_string();
        let micro = ((conf * 1_000_000.0).round() as u64).min(1_000_000);
        cands.push((name, iso1, iso3, micro));
    }
    let recs = from_candidates(&cands).expect("engine candidates are well-formed");
    let recs = truncate_records(recs, None);
    let report = render_report(&recs);

    let first = report.lines().next().expect("at least one output line");
    let v: serde_json::Value = serde_json::from_str(first).unwrap();
    let iso1 = v["iso_639_1"].as_str().unwrap();
    assert_eq!(iso1.len(), 2);
    assert!(iso1.chars().all(|c| c.is_ascii_lowercase()));
    assert_eq!(iso1, "en");
    let conf = v["confidence"].as_f64().unwrap();
    assert!((0.0..=1.0).contains(&conf));
}

#[test]
fn output_limited_to_one_line() {
    let detector = LanguageDetectorBuilder::from_all_languages().build();
    let values = detector.compute_language_confidence_values("Hello world");
    let mut cands: Vec<(String, String, String, u64)> = Vec::new();
    for (lang, conf) in values {
        cands.push((
            format!("{lang:?}"),
            lang.iso_code_639_1().to_string(),
            lang.iso_code_639_3().to_string(),
            ((conf * 1_000_000.0).round() as u64).min(1_000_000),
        ));
    }
    let recs = from_candidates(&cands).unwrap();
    let recs = truncate_records(recs, Some(1));
    let report = render_report(&recs);
    assert_eq!(report.lines().count(), 1);
}
