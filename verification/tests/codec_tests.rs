use rs_detect_language::codec::{render_line, render_report};
use rs_detect_language::pipeline::{from_candidates, truncate_records, truncate_sample};
use rs_detect_language::record::DetectedLanguage;

fn record(lang: &str, i1: &str, i3: &str, micro: u64) -> DetectedLanguage {
    DetectedLanguage::new(lang.to_string(), i1.to_string(), i3.to_string(), micro).unwrap()
}

#[test]
fn render_line_exact() {
    let rec = record("English", "en", "eng", 931_234);
    assert_eq!(
        render_line(&rec),
        "{\"lang\":\"English\",\"iso_639_1\":\"en\",\"iso_639_3\":\"eng\",\"confidence\":0.931234}"
    );
}

#[test]
fn render_line_certainty_and_zero() {
    let rec = record("German", "de", "deu", 1_000_000);
    assert_eq!(
        render_line(&rec),
        "{\"lang\":\"German\",\"iso_639_1\":\"de\",\"iso_639_3\":\"deu\",\"confidence\":1.000000}"
    );
    let rec = record("French", "fr", "fra", 0);
    assert_eq!(
        render_line(&rec),
        "{\"lang\":\"French\",\"iso_639_1\":\"fr\",\"iso_639_3\":\"fra\",\"confidence\":0.000000}"
    );
}

#[test]
fn emitted_line_round_trips_through_json() {
    let rec = record("Spanish", "es", "spa", 40_000);
    let line = render_line(&rec);
    let v: serde_json::Value = serde_json::from_str(&line).unwrap();
    assert_eq!(v["lang"], "Spanish");
    assert_eq!(v["iso_639_1"], "es");
    assert_eq!(v["iso_639_3"], "spa");
    let conf = v["confidence"].as_f64().unwrap();
    assert!((conf - 0.04).abs() < 1e-9);
}

#[test]
fn report_is_one_line_per_record() {
    let recs = vec![record("English", "en", "eng", 930_000), record("German", "de", "deu", 20_000)];
    let report = render_report(&recs);
    let lines: Vec<&str> = report.lines().collect();
    assert_eq!(lines.len(), 2);
    assert_eq!(lines[0], render_line(&recs[0]));
    assert_eq!(lines[1], render_line(&recs[1]));
    assert!(report.ends_with('\n'));
    for line in lines {
        let v: serde_json::Value = serde_json::from_str(line).unwrap();
        assert!(v.is_object());
    }
}

#[test]
fn empty_input_yields_empty_report() {
    let cands: Vec<(String, String, String, u64)> = Vec::new();
    let recs = from_candidates(&cands).unwrap();
    assert!(recs.is_empty());
    let report = render_report(&recs);
    assert_eq!(report, "");
}

#[test]
fn output_count_is_min_of_candidates_and_limit() {
    let recs = vec![
        record("English", "en", "eng", 900_000),
        record("German", "de", "deu", 60_000),
        record("French", "fr", "fra", 40_000),
    ];
    assert_eq!(truncate_records(recs.clone(), None).len(), 3);
    assert_eq!(truncate_records(recs.clone(), Some(10)).len(), 3);
    assert_eq!(truncate_records(recs.clone(), Some(2)).len(), 2);
    assert_eq!(truncate_records(recs.clone(), Some(0)).len(), 0);
    let one = truncate_records(recs.clone(), Some(1));
    assert_eq!(one.len(), 1);
    assert_eq!(one[0], recs[0]);
    let report = render_report(&one);
    assert_eq!(report.lines().count(), 1);
}

#[test]
fn sample_is_cut_at_the_byte_limit() {
    let sample: Vec<u8> = (0u8..100).collect();
    let cut = truncate_sample(sample.clone(), 5);
    assert_eq!(cut, vec![0, 1, 2, 3, 4]);
    let all = truncate_sample(sample.clone(), 1000);
    assert_eq!(all, sample);
    let none = truncate_sample(sample, 0);
    assert!(none.is_empty());
}

#[test]
fn record_invariant_is_enforced() {
    assert!(DetectedLanguage::new("English".into(), "en".into(), "eng".into(), 500_000).is_some());
    // A two-letter code of the wrong length.
    assert!(DetectedLanguage::new("English".into(), "enx".into(), "eng".into(), 0).is_none());
    // A three-letter code of the wrong length.
    assert!(DetectedLanguage::new("English".into(), "en".into(), "en".into(), 0).is_none());
    // A confidence beyond certainty.
    assert!(DetectedLanguage::new("English".into(), "en".into(), "eng".into(), 1_000_001).is_none());
    // A quote would break the emitted line.
    assert!(DetectedLanguage::new("Eng\"lish".into(), "en".into(), "eng".into(), 0).is_none());
    // A control character is not json-safe.
    assert!(DetectedLanguage::new("Eng\nlish".into(), "en".into(), "eng".into(), 0).is_none());
}

#[test]
fn candidates_keep_engine_order() {
    let cands = vec![
        ("German".to_string(), "de".to_string(), "deu".to_string(), 800_000u64),
        ("English".to_string(), "en".to_string(), "eng".to_string(), 150_000u64),
    ];
    let recs = from_candidates(&cands).unwrap();
    assert_eq!(recs.len(), 2);
    assert_eq!(recs[0].lang, "German");
    assert_eq!(recs[0].confidence_micro, 800_000);
    assert_eq!(recs[1].lang, "English");
    assert_eq!(recs[1].confidence_micro, 150_000);
}

#[test]
fn one_bad_candidate_fails_the_batch() {
    let cands = vec![
        ("German".to_string(), "de".to_string(), "deu".to_string(), 800_000u64),
        ("English".to_string(), "e".to_string(), "eng".to_string(), 150_000u64),
    ];
    assert!(from_candidates(&cands).is_none());
}
