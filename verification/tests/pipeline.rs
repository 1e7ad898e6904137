use sancus::ResolveError;
use sancus::file_info::{FileInfo, find_package_system_libs};
use sancus::license_detector::{LicenseDetector, LicenseFile, LicenseFileText, LicenseHash};
use sancus::resolution::{
    contains_substring, dedup_by_package, filter_license_file_candidates, parse_declared_license,
    plan_package, resolve_package_licenses,
};
use sancus::settings::{LibIgnore, Override, Settings, VcpkgIgnore};
use sancus::vcpkg_spdx::{SpdxPackage, find_license, find_package_license, plan_vcpkg_package};

fn pkg(id: &str, name: &str, declared: Option<&str>, concluded: Option<&str>) -> SpdxPackage {
    SpdxPackage {
        spdx_id: id.to_string(),
        name: name.to_string(),
        version: Some("3.1".to_string()),
        declared_license: declared.map(|s| s.to_string()),
        concluded_license: concluded.map(|s| s.to_string()),
        download_location: "https://example.invalid/src.tar.gz".to_string(),
        home_page: None,
    }
}

#[test]
fn substring_search_is_exact() {
    assert!(contains_substring("path/LICENSE.txt", "LICENSE"));
    assert!(contains_substring("abc", ""));
    assert!(!contains_substring("licence", "LICENSE"));
    assert!(!contains_substring("ab", "abc"));
    assert!(contains_substring("aab", "ab"));
}

#[test]
fn license_file_filter_is_case_sensitive_per_pattern() {
    let paths = vec![
        "/usr/share/doc/p/COPYING".to_string(),
        "/usr/share/doc/p/readme".to_string(),
        "/usr/share/licenses/p/LICENSE".to_string(),
        "/usr/share/doc/p/License.md".to_string(),
        "/usr/share/doc/p/license".to_string(),
    ];
    let kept = filter_license_file_candidates(&paths);
    assert_eq!(
        kept,
        vec![
            "/usr/share/doc/p/COPYING".to_string(),
            "/usr/share/licenses/p/LICENSE".to_string(),
            "/usr/share/doc/p/License.md".to_string(),
        ]
    );
}

#[test]
fn declared_license_parses_to_atoms() {
    let e = parse_declared_license("MIT OR Apache-2.0", true).expect("must parse");
    assert_eq!(e.atoms, vec!["MIT".to_string(), "Apache-2.0".to_string()]);
    assert!(parse_declared_license("", true).is_none());
    // The lax grammar accepts a nonstandard separator the strict one refuses.
    assert!(parse_declared_license("MIT/Apache-2.0", true).is_some());
    assert!(parse_declared_license("MIT/Apache-2.0", false).is_none());
}

#[test]
fn plan_package_without_any_license_is_fatal() {
    let r = plan_package("p", &Vec::new(), None, Vec::new(), true);
    assert!(matches!(r, Err(ResolveError::MissingLicense)));
}

#[test]
fn plan_package_prefers_override_license_and_files() {
    let overrides = vec![Override {
        package: "p".to_string(),
        comment: String::new(),
        license_id: Some("BSD-3-Clause".to_string()),
        overwrite_all_license_ids: false,
        license_files: vec![sancus::settings::LicenseFileOverride {
            id: Some("BSD-3-Clause".to_string()),
            file: "/cfg/lic.txt".to_string(),
        }],
    }];
    let discovered = vec![LicenseFile { id: None, file: "/usr/doc/COPYING".to_string() }];
    let plan = plan_package("p", &overrides, Some("MIT".to_string()), discovered, true).unwrap();
    assert_eq!(plan.license, "BSD-3-Clause");
    assert_eq!(plan.files.len(), 1);
    assert_eq!(plan.files[0].file, "/cfg/lic.txt");
    assert_eq!(plan.files[0].id.as_deref(), Some("BSD-3-Clause"));
    assert_eq!(plan.candidates, vec!["BSD-3-Clause".to_string()]);
}

#[test]
fn plan_package_uses_queried_license_and_discovered_files() {
    let discovered = vec![LicenseFile { id: None, file: "/usr/doc/COPYING".to_string() }];
    let plan =
        plan_package("p", &Vec::new(), Some("MIT AND ISC".to_string()), discovered, true).unwrap();
    assert_eq!(plan.license, "MIT AND ISC");
    assert_eq!(plan.files.len(), 1);
    assert_eq!(plan.files[0].file, "/usr/doc/COPYING");
    assert_eq!(plan.candidates, vec!["MIT".to_string(), "ISC".to_string()]);
}

#[test]
fn tagged_file_bypasses_the_matcher() {
    // A package declaring "MIT OR Apache-2.0" with one file tagged MIT:
    // the file's text is copied verbatim under MIT.
    let plan = plan_package(
        "p",
        &Vec::new(),
        Some("MIT OR Apache-2.0".to_string()),
        vec![LicenseFile { id: Some("MIT".to_string()), file: "f".to_string() }],
        true,
    )
    .unwrap();
    let det = LicenseDetector { templates: Vec::new() };
    let files = vec![LicenseFileText {
        id: Some("MIT".to_string()),
        file: "f".to_string(),
        text: "the exact file text".to_string(),
    }];
    let (info, dumps) = resolve_package_licenses(
        &det,
        FileInfo::new("libp.so".to_string(), "/usr/lib/libp.so"),
        "p",
        plan,
        files,
        Some("2.0".to_string()),
        None,
    )
    .unwrap();
    assert_eq!(info.license_texts.len(), 1);
    assert_eq!(info.license_texts[0].id, "MIT");
    assert_eq!(info.license_texts[0].text, "the exact file text");
    assert_eq!(info.package_name, "p");
    assert_eq!(info.license, "MIT OR Apache-2.0");
    assert_eq!(info.version.as_deref(), Some("2.0"));
    assert!(dumps.is_empty());
}

#[test]
fn dedup_keeps_first_library_per_package() {
    let pairs = vec![
        (FileInfo::new("liba.so".to_string(), "/a/liba.so"), "pkg".to_string()),
        (FileInfo::new("libb.so".to_string(), "/b/libb.so"), "pkg".to_string()),
        (FileInfo::new("libc.so".to_string(), "/c/libc.so"), "other".to_string()),
    ];
    let d = dedup_by_package(&pairs);
    assert_eq!(d.len(), 2);
    assert_eq!(d[0].0.name, "liba.so");
    assert_eq!(d[0].1, "pkg");
    assert_eq!(d[1].1, "other");
}

#[test]
fn system_libs_are_those_not_in_vcpkg() {
    let package_libs = vec![
        FileInfo::new("libx.so".to_string(), "/pkg/libx.so"),
        FileInfo::new("liby.so".to_string(), "/pkg/liby.so"),
    ];
    let vcpkg_libs = vec![FileInfo::new("libx.so".to_string(), "/vcpkg/libx.so")];
    let sys = find_package_system_libs(&package_libs, &vcpkg_libs);
    assert_eq!(sys.len(), 1);
    assert_eq!(sys[0].name, "liby.so");
}

#[test]
fn file_info_extension_follows_path_rules() {
    assert_eq!(
        FileInfo::new("a".to_string(), "/x/archive.tar.gz").extension.as_deref(),
        Some("gz")
    );
    assert_eq!(FileInfo::new("a".to_string(), "/x/plain").extension, None);
    assert_eq!(FileInfo::new("a".to_string(), "/x/.hidden").extension, None);
    assert_eq!(FileInfo::new("a".to_string(), "/x/odd.").extension.as_deref(), Some(""));
}

#[test]
fn package_license_prefers_real_assertions() {
    let p = pkg("SPDXRef-port", "zlib", Some("NOASSERTION"), Some("Zlib"));
    assert_eq!(find_package_license(&p).as_deref(), Some("Zlib"));
    let q = pkg("SPDXRef-port", "zlib", Some("Zlib"), Some("MIT"));
    assert_eq!(find_package_license(&q).as_deref(), Some("Zlib"));
    let n = pkg("SPDXRef-port", "zlib", Some("NOASSERTION"), None);
    assert_eq!(find_package_license(&n), None);
}

#[test]
fn document_license_prefers_the_binary_record() {
    let pkgs = vec![
        pkg("SPDXRef-port", "zlib", Some("Zlib"), None),
        pkg("SPDXRef-binary", "zlib:bin", Some("MIT"), None),
    ];
    assert_eq!(find_license(&pkgs).as_deref(), Some("MIT"));
    let only_port = vec![pkg("SPDXRef-port", "zlib", Some("Zlib"), None)];
    assert_eq!(find_license(&only_port).as_deref(), Some("Zlib"));
}

#[test]
fn vcpkg_plan_carries_port_fields() {
    let pkgs = vec![
        pkg("SPDXRef-port", "zlib", Some("Zlib"), None),
        pkg("SPDXRef-resource-1", "src", None, None),
    ];
    let plan = plan_vcpkg_package(&pkgs, &Vec::new(), Some("/ports/zlib/copyright".to_string()))
        .unwrap()
        .expect("port present");
    assert_eq!(plan.package_name, "zlib");
    assert_eq!(plan.version.as_deref(), Some("3.1"));
    assert_eq!(plan.url.as_deref(), Some("https://example.invalid/src.tar.gz"));
    assert_eq!(plan.plan.license, "Zlib");
    assert_eq!(plan.plan.files.len(), 1);
    assert_eq!(plan.plan.files[0].file, "/ports/zlib/copyright");
}

#[test]
fn vcpkg_plan_without_port_gives_nothing() {
    let pkgs = vec![pkg("SPDXRef-binary", "b", Some("MIT"), None)];
    assert!(plan_vcpkg_package(&pkgs, &Vec::new(), None).unwrap().is_none());
}

#[test]
fn vcpkg_plan_without_license_is_fatal() {
    let pkgs = vec![pkg("SPDXRef-port", "zlib", Some("NOASSERTION"), None)];
    let r = plan_vcpkg_package(&pkgs, &Vec::new(), None);
    assert!(matches!(r, Err(ResolveError::MissingLicense)));
}

#[test]
fn ignore_lists_follow_settings() {
    let s = Settings {
        overrides: Vec::new(),
        use_vcpkg_default_ignores: true,
        vcpkg_ignores: vec![
            VcpkgIgnore {
                directory: "arm64-osx".to_string(),
                comment: String::new(),
                os: Some("macos".to_string()),
            },
            VcpkgIgnore { directory: "tools".to_string(), comment: String::new(), os: None },
        ],
        lib_ignores: vec![LibIgnore { lib: "libskip.so".to_string(), comment: String::new() }],
    };
    assert_eq!(
        s.vcpkg_ignore_dirs("linux"),
        vec!["debug".to_string(), "x64-linux".to_string(), "tools".to_string()]
    );
    assert_eq!(
        s.vcpkg_ignore_dirs("macos"),
        vec!["debug".to_string(), "arm64-osx".to_string(), "tools".to_string()]
    );
    assert_eq!(
        s.package_ignore_libs(),
        vec!["debug".to_string(), "libskip.so".to_string()]
    );
}

#[test]
fn default_settings_are_empty_with_default_ignores_on() {
    let s = Settings::default();
    assert!(s.overrides.is_empty());
    assert!(s.use_vcpkg_default_ignores);
    assert!(s.vcpkg_ignores.is_empty());
    assert!(s.lib_ignores.is_empty());
    assert_eq!(Settings::default_settings_file(), "mithra.yaml");
}

#[test]
fn error_conditions_are_distinct() {
    assert_ne!(ResolveError::MissingLicense, ResolveError::NoCandidates);
    assert_ne!(ResolveError::MissingLicense, ResolveError::ParseError);
    assert_ne!(ResolveError::MissingInstalledFile, ResolveError::ParseError);
    assert_eq!(ResolveError::MissingLicense.clone(), ResolveError::MissingLicense);
}

#[test]
fn template_of_canonical_text_is_nonempty() {
    let h = LicenseHash::new(Some("MIT".to_string()), "Permission is hereby granted");
    assert_eq!(h.id.as_deref(), Some("MIT"));
    assert!(!h.word_hash.is_empty());
}
