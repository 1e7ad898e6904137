use sancus::file_info::FileInfo;
use sancus::license_info::LicenseInfo;
use sancus::license_text::LicenseText;
use sancus::settings::{LicenseFileOverride, Override};
use sancus::third_party_licenses::{License, ThirdPartyLibrary, ThirdPartyLicenses};

fn sample_manifest() -> ThirdPartyLicenses {
    ThirdPartyLicenses {
        root_name: "product".to_string(),
        third_party_libraries: vec![
            ThirdPartyLibrary {
                package_name: "libfoo".to_string(),
                package_version: "1.2".to_string(),
                license: "MIT".to_string(),
                licenses: vec![
                    License { license: "MIT".to_string(), text: "mit text".to_string() },
                    License { license: "ISC".to_string(), text: "isc text".to_string() },
                ],
            },
            ThirdPartyLibrary {
                package_name: "libbar".to_string(),
                package_version: String::new(),
                license: "Apache-2.0".to_string(),
                licenses: vec![
                    License { license: "Apache-2.0".to_string(), text: "apache text".to_string() },
                ],
            },
        ],
    }
}

fn cascade_override() -> Override {
    Override {
        package: "libfoo".to_string(),
        comment: "forced by review".to_string(),
        license_id: Some("BSD-3-Clause".to_string()),
        overwrite_all_license_ids: true,
        license_files: Vec::new(),
    }
}

#[test]
fn override_cascades_to_all_license_texts() {
    let mut m = sample_manifest();
    let overrides = vec![cascade_override()];
    m.apply_overrides(&overrides).unwrap();
    assert_eq!(m.third_party_libraries[0].license, "BSD-3-Clause");
    assert_eq!(m.third_party_libraries[0].licenses[0].license, "BSD-3-Clause");
    assert_eq!(m.third_party_libraries[0].licenses[1].license, "BSD-3-Clause");
    // Texts stay untouched, and unmatched libraries as well.
    assert_eq!(m.third_party_libraries[0].licenses[0].text, "mit text");
    assert_eq!(m.third_party_libraries[1].license, "Apache-2.0");
    assert_eq!(m.third_party_libraries[1].licenses[0].license, "Apache-2.0");
}

#[test]
fn override_without_cascade_keeps_nested_ids() {
    let mut m = sample_manifest();
    let mut ov = cascade_override();
    ov.overwrite_all_license_ids = false;
    let overrides = vec![ov];
    m.apply_overrides(&overrides).unwrap();
    assert_eq!(m.third_party_libraries[0].license, "BSD-3-Clause");
    assert_eq!(m.third_party_libraries[0].licenses[0].license, "MIT");
}

#[test]
fn apply_overrides_is_idempotent() {
    let mut once = sample_manifest();
    let overrides = vec![cascade_override()];
    once.apply_overrides(&overrides).unwrap();
    let mut twice = once.clone();
    twice.apply_overrides(&overrides).unwrap();
    assert_eq!(once, twice);
}

#[test]
fn save_load_round_trip() {
    let m = sample_manifest();
    let doc = m.to_json();
    let back = ThirdPartyLicenses::from_json(doc.as_str()).expect("own output must load");
    assert_eq!(m, back);
}

#[test]
fn round_trip_keeps_special_characters() {
    let m = ThirdPartyLicenses {
        root_name: "we\"ird\\root".to_string(),
        third_party_libraries: vec![ThirdPartyLibrary {
            package_name: "p".to_string(),
            package_version: "0".to_string(),
            license: "L".to_string(),
            licenses: vec![License {
                license: "L".to_string(),
                text: "line one\nline\ttwo\r\u{1}\u{1F600}".to_string(),
            }],
        }],
    };
    let doc = m.to_json();
    let back = ThirdPartyLicenses::from_json(doc.as_str()).expect("own output must load");
    assert_eq!(m, back);
}

#[test]
fn load_accepts_whitespace_and_escapes() {
    let doc = " {\n  \"root_name\" : \"r\\u0041\" ,\n  \"third_party_libraries\" : [ ] \n} \n";
    let m = ThirdPartyLicenses::from_json(doc).expect("document must load");
    assert_eq!(m.root_name, "rA");
    assert!(m.third_party_libraries.is_empty());
}

#[test]
fn load_rejects_malformed_documents() {
    assert!(matches!(
        ThirdPartyLicenses::from_json("not json"),
        Err(sancus::ResolveError::ParseError)
    ));
    assert!(matches!(
        ThirdPartyLicenses::from_json("{\"root_name\":\"r\"}"),
        Err(sancus::ResolveError::ParseError)
    ));
    assert!(matches!(
        ThirdPartyLicenses::from_json(
            "{\"root_name\":\"r\",\"third_party_libraries\":[]} trailing"
        ),
        Err(sancus::ResolveError::ParseError)
    ));
}

#[test]
fn export_plan_writes_readme_and_license_files() {
    let m = ThirdPartyLicenses {
        root_name: "root".to_string(),
        third_party_libraries: vec![ThirdPartyLibrary {
            package_name: "pkgA".to_string(),
            package_version: "1.0".to_string(),
            license: "MIT".to_string(),
            licenses: vec![License {
                license: "MIT".to_string(),
                text: "<text>".to_string(),
            }],
        }],
    };
    let plan = m.export_plan();
    assert_eq!(plan.len(), 2);
    assert_eq!(plan[0].0, "root/pkgA/README.txt");
    assert_eq!(plan[0].1, "Package: pkgA\nVersion: 1.0\nLicense: MIT\n");
    assert_eq!(plan[1].0, "root/pkgA/MIT.txt");
    assert_eq!(plan[1].1, "<text>");
}

#[test]
fn export_plan_sanitizes_identifiers() {
    let m = ThirdPartyLicenses {
        root_name: "r".to_string(),
        third_party_libraries: vec![ThirdPartyLibrary {
            package_name: "p".to_string(),
            package_version: "1".to_string(),
            license: "x".to_string(),
            licenses: vec![License {
                license: "License specified in file ($HOME/src/LICENSE)".to_string(),
                text: "t".to_string(),
            }],
        }],
    };
    let plan = m.export_plan();
    assert_eq!(plan[1].0, "r/p/License specified in file (-HOME-src-LICENSE).txt");
}

#[test]
fn manifest_from_infos_keeps_order_and_defaults_version() {
    let infos = vec![
        LicenseInfo {
            lib_info: FileInfo::new("libx.so".to_string(), "/usr/lib/libx.so"),
            package_name: "x".to_string(),
            license: "MIT".to_string(),
            license_expression: None,
            license_texts: vec![LicenseText { id: "MIT".to_string(), text: "t".to_string() }],
            version: None,
            url: None,
        },
    ];
    let m = ThirdPartyLicenses::new("root", &infos);
    assert_eq!(m.root_name, "root");
    assert_eq!(m.third_party_libraries.len(), 1);
    assert_eq!(m.third_party_libraries[0].package_name, "x");
    assert_eq!(m.third_party_libraries[0].package_version, "");
    assert_eq!(m.third_party_libraries[0].licenses[0].license, "MIT");
}

#[test]
fn find_override_picks_first_exact_match() {
    let ovs = vec![
        Override {
            package: "a".to_string(),
            comment: "one".to_string(),
            license_id: Some("X".to_string()),
            overwrite_all_license_ids: false,
            license_files: Vec::new(),
        },
        Override {
            package: "a".to_string(),
            comment: "two".to_string(),
            license_id: Some("Y".to_string()),
            overwrite_all_license_ids: false,
            license_files: Vec::new(),
        },
    ];
    let found = Override::find_override("a", &ovs).expect("must match");
    assert_eq!(found.comment, "one");
    assert!(Override::find_override("ab", &ovs).is_none());
}

#[test]
fn override_with_files_lists_them() {
    let ov = Override {
        package: "p".to_string(),
        comment: String::new(),
        license_id: None,
        overwrite_all_license_ids: false,
        license_files: vec![LicenseFileOverride {
            id: Some("MIT".to_string()),
            file: "/etc/lic".to_string(),
        }],
    };
    assert_eq!(ov.license_files.len(), 1);
}
