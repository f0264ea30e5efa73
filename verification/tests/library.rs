use rust_pm::decompose::extract_name_version;
use rust_pm::download::{exec, search_packages, DownloadTarget};
use rust_pm::parser::{fallback_packages, parse_package_from_link, parse_packages};
use rust_pm::paths::create_paths;
use rust_pm::registry::{merge, recompute_total, Package, PackageRegistry, Repository};

fn pkg(name: &str, version: &str, filename: &str) -> Package {
    Package {
        name: name.to_string(),
        version: version.to_string(),
        size: "unknown".to_string(),
        date: "unknown".to_string(),
        filename: filename.to_string(),
    }
}

fn repo(url: &str, packages: Vec<Package>) -> Repository {
    Repository {
        url: url.to_string(),
        architecture: "x86_64".to_string(),
        package_count: packages.len(),
        packages,
    }
}

#[test]
fn decompose_versioned_with_revision() {
    let (name, version) = extract_name_version("curl-7.88.1-r0.apk");
    assert_eq!(name, "curl");
    assert_eq!(version, "7.88.1-r0");
}

#[test]
fn decompose_versioned_without_revision() {
    let (name, version) = extract_name_version("zlib-1.2.13.apk");
    assert_eq!(name, "zlib");
    assert_eq!(version, "1.2.13");
}

#[test]
fn decompose_name_with_digit_segment_keeps_revision_anchor() {
    let (name, version) = extract_name_version("libssl3-3.1.4-r5.apk");
    assert_eq!(name, "libssl3");
    assert_eq!(version, "3.1.4-r5");
}

#[test]
fn decompose_ambiguous_digit_led_name_segment() {
    // The last digit-led group wins: part of a digit-led name segment stays
    // with the name.
    let (name, version) = extract_name_version("name-1.0-2.0.apk");
    assert_eq!(name, "name-1.0");
    assert_eq!(version, "2.0");
}

#[test]
fn decompose_without_version_yields_unknown() {
    let (name, version) = extract_name_version("parent.apk");
    assert_eq!(name, "parent");
    assert_eq!(version, "unknown");
}

#[test]
fn decompose_without_extension_or_version() {
    let (name, version) = extract_name_version("README");
    assert_eq!(name, "README");
    assert_eq!(version, "unknown");
}

#[test]
fn decompose_empty_filename() {
    let (name, version) = extract_name_version("");
    assert_eq!(name, "");
    assert_eq!(version, "unknown");
}

#[test]
fn link_becomes_package_record() {
    let p = parse_package_from_link("curl", "curl-7.88.1-r0.apk");
    assert_eq!(p.name, "curl");
    assert_eq!(p.version, "7.88.1-r0");
    assert_eq!(p.size, "unknown");
    assert_eq!(p.date, "unknown");
    assert_eq!(p.filename, "curl-7.88.1-r0.apk");
}

#[test]
fn extractor_end_to_end_skips_parent_link() {
    let html = "<html><body><a href=\"curl-7.88.1-r0.apk\">curl</a><a href=\"../\">../</a></body></html>";
    let packages = parse_packages(html);
    assert_eq!(packages.len(), 1);
    assert_eq!(packages[0].name, "curl");
    assert_eq!(packages[0].version, "7.88.1-r0");
    assert_eq!(packages[0].filename, "curl-7.88.1-r0.apk");
}

#[test]
fn extractor_first_strategy_wins() {
    // Both the preformatted-block strategy and the table strategy would find
    // packages; only the first contributes.
    let html = "<html><body><pre><a href=\"alpha-1.0.apk\">alpha</a></pre>\
                <table><tr><td><a href=\"beta-2.0.apk\">beta</a></td></tr></table></body></html>";
    let packages = parse_packages(html);
    assert_eq!(packages.len(), 1);
    assert_eq!(packages[0].name, "alpha");
}

#[test]
fn extractor_falls_back_to_text_scan_and_deduplicates() {
    let html = "<html><body><p>curl-7.88.1-r0.apk curl-7.88.1-r0.apk openssl-3.1.0-r2.apk</p></body></html>";
    let packages = parse_packages(html);
    assert_eq!(packages.len(), 2);
    assert_eq!(packages[0].name, "curl");
    assert_eq!(packages[0].version, "7.88.1-r0");
    assert_eq!(packages[1].name, "openssl");
    assert_eq!(packages[1].version, "3.1.0-r2");
}

#[test]
fn text_scan_alone_finds_tokens_in_order() {
    let packages = fallback_packages("x zlib-1.2.13.apk y busybox-1.36.1-r2.apk");
    assert_eq!(packages.len(), 2);
    assert_eq!(packages[0].filename, "zlib-1.2.13.apk");
    assert_eq!(packages[1].filename, "busybox-1.36.1-r2.apk");
}

#[test]
fn extractor_empty_document_yields_nothing() {
    let packages = parse_packages("");
    assert_eq!(packages.len(), 0);
}

#[test]
fn merge_same_pair_twice_is_idempotent() {
    let mut registry = PackageRegistry { repositories: Vec::new(), total_packages: 0 };
    let packages = vec![pkg("a", "1.0", "a-1.0.apk"), pkg("b", "2.0", "b-2.0.apk")];
    merge(&mut registry, "https://mirror.example/main/", packages.clone());
    assert_eq!(registry.repositories.len(), 1);
    assert_eq!(registry.repositories[0].package_count, 2);
    merge(&mut registry, "https://mirror.example/main/", packages);
    assert_eq!(registry.repositories.len(), 1);
    assert_eq!(registry.repositories[0].package_count, 2);
    assert_eq!(registry.repositories[0].packages.len(), 2);
    assert_eq!(registry.repositories[0].packages[0].name, "a");
}

#[test]
fn merge_replaces_existing_url_wholesale() {
    let mut registry = PackageRegistry {
        repositories: vec![repo("https://one/", vec![pkg("old", "0.1", "old-0.1.apk")])],
        total_packages: 1,
    };
    merge(
        &mut registry,
        "https://one/",
        vec![
            pkg("a", "1.0", "a-1.0.apk"),
            pkg("b", "2.0", "b-2.0.apk"),
            pkg("c", "3.0", "c-3.0.apk"),
        ],
    );
    assert_eq!(registry.repositories.len(), 1);
    assert_eq!(registry.repositories[0].package_count, 3);
    assert_eq!(registry.repositories[0].packages[0].name, "a");
}

#[test]
fn merge_appends_new_url_and_total_is_recomputed() {
    let mut registry = PackageRegistry { repositories: Vec::new(), total_packages: 0 };
    merge(&mut registry, "https://one/", vec![pkg("a", "1.0", "a-1.0.apk")]);
    merge(&mut registry, "https://two/", vec![
        pkg("b", "2.0", "b-2.0.apk"),
        pkg("c", "3.0", "c-3.0.apk"),
    ]);
    assert_eq!(registry.repositories.len(), 2);
    let ok = recompute_total(&mut registry);
    assert!(ok);
    assert_eq!(registry.total_packages, 3);
}

#[test]
fn recompute_total_reports_overflow_and_leaves_registry_alone() {
    let mut registry = PackageRegistry {
        repositories: vec![
            Repository {
                url: "https://one/".to_string(),
                architecture: "x86_64".to_string(),
                package_count: usize::MAX,
                packages: Vec::new(),
            },
            Repository {
                url: "https://two/".to_string(),
                architecture: "x86_64".to_string(),
                package_count: 1,
                packages: Vec::new(),
            },
        ],
        total_packages: 7,
    };
    let ok = recompute_total(&mut registry);
    assert!(!ok);
    assert_eq!(registry.total_packages, 7);
    assert_eq!(registry.repositories.len(), 2);
}

#[test]
fn resolver_exact_match_precedes_partial() {
    let registry = PackageRegistry {
        repositories: vec![repo("https://one/", vec![
            pkg("foo", "1.0", "foo-1.0.apk"),
            pkg("foobar", "2.0", "foobar-2.0.apk"),
        ])],
        total_packages: 2,
    };
    let results = search_packages(&registry, "foo");
    assert_eq!(results.len(), 2);
    assert_eq!(results[0].1.name, "foo");
    assert_eq!(results[1].1.name, "foobar");
}

#[test]
fn resolver_exact_match_precedes_partial_with_reversed_discovery() {
    let registry = PackageRegistry {
        repositories: vec![repo("https://one/", vec![
            pkg("foobar", "2.0", "foobar-2.0.apk"),
            pkg("foo", "1.0", "foo-1.0.apk"),
        ])],
        total_packages: 2,
    };
    let results = search_packages(&registry, "foo");
    assert_eq!(results.len(), 2);
    assert_eq!(results[0].1.name, "foo");
    assert_eq!(results[1].1.name, "foobar");
}

#[test]
fn resolver_exact_matches_come_in_reverse_discovery_order() {
    let registry = PackageRegistry {
        repositories: vec![
            repo("https://one/", vec![pkg("foo", "1.0", "foo-1.0.apk")]),
            repo("https://two/", vec![pkg("foo", "2.0", "foo-2.0.apk")]),
        ],
        total_packages: 2,
    };
    let results = search_packages(&registry, "foo");
    assert_eq!(results.len(), 2);
    assert_eq!(results[0].1.version, "2.0");
    assert_eq!(results[1].1.version, "1.0");
}

#[test]
fn resolver_is_case_insensitive() {
    let registry = PackageRegistry {
        repositories: vec![repo("https://one/", vec![pkg("Curl", "8.0.0", "curl-8.0.0.apk")])],
        total_packages: 1,
    };
    let results = search_packages(&registry, "CURL");
    assert_eq!(results.len(), 1);
    assert_eq!(results[0].1.name, "Curl");
}

#[test]
fn resolver_finds_nothing_for_unknown_name() {
    let registry = PackageRegistry {
        repositories: vec![repo("https://one/", vec![pkg("foo", "1.0", "foo-1.0.apk")])],
        total_packages: 1,
    };
    let results = search_packages(&registry, "nothere");
    assert_eq!(results.len(), 0);
}

#[test]
fn download_direct_url_passes_through() {
    let registry = PackageRegistry { repositories: Vec::new(), total_packages: 0 };
    let plan = exec(
        &registry,
        DownloadTarget::DirectUrl {
            url: "https://host/x-1.0.apk".to_string(),
            filename: "x-1.0.apk".to_string(),
        },
    )
    .unwrap();
    assert_eq!(plan.url, "https://host/x-1.0.apk");
    assert_eq!(plan.filename, "x-1.0.apk");
}

#[test]
fn download_by_name_builds_url_from_first_candidate() {
    let registry = PackageRegistry {
        repositories: vec![repo("https://mirror/main/", vec![pkg(
            "curl",
            "7.88.1-r0",
            "curl-7.88.1-r0.apk",
        )])],
        total_packages: 1,
    };
    let plan = exec(&registry, DownloadTarget::PackageName("curl".to_string())).unwrap();
    assert_eq!(plan.url, "https://mirror/main/curl-7.88.1-r0.apk");
    assert_eq!(plan.filename, "curl-7.88.1-r0.apk");
}

#[test]
fn download_unknown_name_is_an_error() {
    let registry = PackageRegistry { repositories: Vec::new(), total_packages: 0 };
    let err = exec(&registry, DownloadTarget::PackageName("nope".to_string())).unwrap_err();
    assert_eq!(
        err,
        "Package 'nope' not found. Try running 'rust-pm parse' to refresh the package index."
    );
}

#[test]
fn paths_are_laid_out_under_home() {
    let config = create_paths("/home/user");
    assert_eq!(config.path_dir, "/home/user/.path");
    assert_eq!(config.path_usr_dir, "/home/user/.path/usr");
    assert_eq!(config.path_bin_dir, "/home/user/.path/usr/bin");
    assert_eq!(config.path_lib_dir, "/home/user/.path/usr/lib");
    assert_eq!(config.path_share_dir, "/home/user/.path/usr/share");
}
