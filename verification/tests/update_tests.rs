use moly::update::{
    is_newer, parse_version, update_banner_text, update_for_release, update_status_text,
    version_label, GitHubAsset, GitHubRelease, UpdateInfo,
};

fn asset(name: &str, url: &str) -> GitHubAsset {
    GitHubAsset { name: name.to_string(), browser_download_url: url.to_string() }
}

#[test]
fn newer_patch_version_is_newer() {
    assert!(is_newer("0.2.1", "0.2.0"));
    assert!(!is_newer("0.2.0", "0.2.1"));
}

#[test]
fn equal_versions_are_not_newer() {
    assert!(!is_newer("1.0.0", "1.0.0"));
    assert!(!is_newer("", ""));
}

#[test]
fn missing_components_count_as_zero() {
    assert!(!is_newer("1.0", "1.0.0"));
    assert!(!is_newer("1.0.0", "1.0"));
    assert!(is_newer("1.0.1", "1.0"));
    assert!(!is_newer("1", "1.0.1"));
}

#[test]
fn components_compare_numerically() {
    assert!(is_newer("0.10.0", "0.9.9"));
    assert!(!is_newer("0.9.9", "0.10.0"));
    assert!(is_newer("2.0.0", "1.99.99"));
}

#[test]
fn non_numeric_components_are_dropped() {
    assert_eq!(parse_version("1.2.3"), vec![1, 2, 3]);
    assert_eq!(parse_version("1.x.3"), vec![1, 3]);
    assert_eq!(parse_version("1.2.3-beta"), vec![1, 2]);
    assert_eq!(parse_version(""), Vec::<u64>::new());
    assert_eq!(parse_version("+4.05"), vec![4, 5]);
    // "1.x.3" reads as 1.3, which is newer than 1.2
    assert!(is_newer("1.x.3", "1.2"));
}

#[test]
fn newer_is_irreflexive_and_asymmetric_on_examples() {
    let vs = ["0.1.0", "0.1.1", "0.2", "1.0.0", "1.0", "10.0.1"];
    for a in vs.iter() {
        assert!(!is_newer(a, a));
        for b in vs.iter() {
            assert!(!(is_newer(a, b) && is_newer(b, a)));
            for c in vs.iter() {
                if is_newer(a, b) && is_newer(b, c) {
                    assert!(is_newer(a, c));
                }
            }
        }
    }
}

#[test]
fn release_with_dmg_offers_that_download() {
    let release = GitHubRelease {
        tag_name: "v0.3.0".to_string(),
        html_url: "https://example.org/rel".to_string(),
        assets: vec![
            asset("notes.txt", "https://example.org/notes"),
            asset("Moxin.dmg", "https://example.org/first.dmg"),
            asset("Other.dmg", "https://example.org/second.dmg"),
        ],
    };
    let u = update_for_release("0.2.9", &release).expect("an update");
    assert_eq!(u.version, "0.3.0");
    assert_eq!(u.download_url, "https://example.org/first.dmg");
    assert_eq!(u.html_url, "https://example.org/rel");
}

#[test]
fn release_without_dmg_offers_the_page() {
    let release = GitHubRelease {
        tag_name: "vv1.0".to_string(),
        html_url: "https://example.org/page".to_string(),
        assets: vec![asset("source.zip", "https://example.org/src")],
    };
    let u = update_for_release("0.9", &release).expect("an update");
    assert_eq!(u.version, "1.0");
    assert_eq!(u.download_url, "https://example.org/page");
}

#[test]
fn release_not_newer_offers_nothing() {
    let release = GitHubRelease {
        tag_name: "v0.2.0".to_string(),
        html_url: "https://example.org/page".to_string(),
        assets: vec![],
    };
    assert!(update_for_release("0.2.0", &release).is_none());
    assert!(update_for_release("0.3.0", &release).is_none());
}

#[test]
fn update_texts() {
    assert_eq!(
        update_banner_text("0.3.0", "0.2.0"),
        "Moxin Studio 0.3.0 is available — you have 0.2.0"
    );
    let info = Some(UpdateInfo {
        version: "0.3.0".to_string(),
        download_url: String::new(),
        html_url: String::new(),
    });
    assert_eq!(update_status_text(&info), "v0.3.0 available — click Download");
    assert_eq!(update_status_text(&None), "You're up to date!");
    assert_eq!(version_label("0.1.0"), "Moxin Studio v0.1.0");
}
