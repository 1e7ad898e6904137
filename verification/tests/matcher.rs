use sancus::license_detector::{LicenseDetector, LicenseFileText, LicenseHash};
use sancus::words::{compare_tables, score_lt_exec, table_total, word_table};

const MIT_TEXT: &str = "Permission is hereby granted, free of charge, to any person obtaining a copy \
of this software and associated documentation files (the \"Software\"), to deal in the Software \
without restriction, including without limitation the rights to use, copy, modify, merge, publish, \
distribute, sublicense, and/or sell copies of the Software.";

const APACHE_TEXT: &str = "Licensed under the Apache License, Version 2.0; you may not use this file \
except in compliance with the License. Unless required by applicable law or agreed to in writing, \
software distributed under the License is distributed on an AS IS BASIS, WITHOUT WARRANTIES OR \
CONDITIONS OF ANY KIND, either express or implied. See the License for the specific language \
governing permissions and limitations under the License.";

fn small_detector() -> LicenseDetector {
    LicenseDetector {
        templates: vec![
            LicenseHash::new(Some("MIT".to_string()), MIT_TEXT),
            LicenseHash::new(Some("Apache-2.0".to_string()), APACHE_TEXT),
        ],
    }
}

#[test]
fn word_table_counts_lowercased_runs() {
    let t = word_table("Hello, hello WORLD_x; world_X!");
    let mut hello = 0u64;
    let mut world = 0u64;
    for wc in &t {
        if wc.word == "hello" {
            hello = wc.count;
        }
        if wc.word == "world_x" {
            world = wc.count;
        }
    }
    assert_eq!(hello, 2);
    assert_eq!(world, 2);
    assert_eq!(t.len(), 2);
}

#[test]
fn word_table_case_insensitive() {
    let a = word_table("Alpha BETA gamma");
    let b = word_table("alpha beta GAMMA");
    assert_eq!(compare_tables(&a, &b), 0);
    assert_eq!(table_total(&a), 3);
}

#[test]
fn self_score_is_zero() {
    let t = word_table(MIT_TEXT);
    assert_eq!(compare_tables(&t, &t), 0);
}

#[test]
fn error_measure_counts_differences() {
    let a = word_table("one two two");
    let b = word_table("one two three");
    // "two" differs by one, "three" is missing from the text: two errors.
    assert_eq!(compare_tables(&a, &b), 2);
}

#[test]
fn mit_text_matches_mit_template() {
    let det = small_detector();
    let out = det
        .detect_license(&Vec::new(), MIT_TEXT)
        .expect("detection must succeed");
    assert_eq!(out.best.id, "MIT");
    assert_eq!(out.best.text, MIT_TEXT);
    assert!(out.mismatch.is_none());

    // The MIT template scores strictly better than the Apache one.
    let text_tbl = word_table(MIT_TEXT);
    let mit_tbl = word_table(MIT_TEXT);
    let apache_tbl = word_table(APACHE_TEXT);
    let e_mit = compare_tables(&text_tbl, &mit_tbl);
    let t_mit = table_total(&mit_tbl);
    let e_ap = compare_tables(&text_tbl, &apache_tbl);
    let t_ap = table_total(&apache_tbl);
    assert!(score_lt_exec(e_mit, t_mit, e_ap, t_ap));
    assert!(!score_lt_exec(e_ap, t_ap, e_mit, t_mit));
}

#[test]
fn empty_template_is_worst() {
    let det = LicenseDetector {
        templates: vec![
            LicenseHash::new(Some("Empty".to_string()), "...!!..."),
            LicenseHash::new(Some("Real".to_string()), "some actual words here"),
        ],
    };
    let out = det
        .detect_license(&Vec::new(), "some actual words here")
        .expect("detection must succeed");
    assert_eq!(out.best.id, "Real");
}

#[test]
fn no_templates_is_an_error() {
    let det = LicenseDetector { templates: Vec::new() };
    let r = det.detect_license(&Vec::new(), "anything");
    assert!(matches!(r, Err(sancus::ResolveError::NoCandidates)));
}

#[test]
fn detect_licenses_copies_tagged_files_verbatim() {
    let det = small_detector();
    let files = vec![
        LicenseFileText {
            id: Some("MIT".to_string()),
            file: "f1".to_string(),
            text: "verbatim text".to_string(),
        },
        LicenseFileText { id: None, file: "f2".to_string(), text: APACHE_TEXT.to_string() },
    ];
    let (texts, dumps) = det.detect_licenses(&Vec::new(), &files).expect("must succeed");
    assert_eq!(texts.len(), 2);
    assert_eq!(texts[0].id, "MIT");
    assert_eq!(texts[0].text, "verbatim text");
    assert_eq!(texts[1].id, "Apache-2.0");
    assert_eq!(texts[1].text, APACHE_TEXT);
    assert!(dumps.is_empty());
}

#[test]
fn detect_licenses_with_no_corpus_fails_on_untagged_file() {
    let det = LicenseDetector { templates: Vec::new() };
    let files = vec![LicenseFileText {
        id: None,
        file: "f".to_string(),
        text: "text".to_string(),
    }];
    let r = det.detect_licenses(&Vec::new(), &files);
    assert!(matches!(r, Err(sancus::ResolveError::NoCandidates)));
}

#[test]
fn corpus_detects_canonical_mit_text() {
    let det = LicenseDetector::build();
    assert!(det.templates.len() > 500);
    let mit = sancus::spdx_data::license_text_for_id("MIT").expect("MIT is in the table");
    let out = det
        .detect_license(&Vec::new(), mit.as_str())
        .expect("detection must succeed");
    assert_eq!(out.best.id, "MIT");
}

#[test]
fn candidate_detection_restricts_the_search() {
    let det = LicenseDetector { templates: Vec::new() };
    // Candidates are looked up in the canonical table, so even an empty
    // corpus can match against them.
    let mit = sancus::spdx_data::license_text_for_id("MIT").expect("MIT is in the table");
    let candidates = vec!["MIT".to_string(), "Apache-2.0".to_string()];
    let out = det
        .detect_license(&candidates, mit.as_str())
        .expect("detection must succeed");
    assert_eq!(out.best.id, "MIT");
}
