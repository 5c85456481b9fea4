use twitter_client::version::{check_for_new_version, Release};

fn release(tag: &str, draft: bool, prerelease: bool) -> Release {
    Release {
        tag_name: String::from(tag),
        draft,
        prerelease,
        html_url: format!("https://example.org/{}", tag),
    }
}

#[test]
fn no_releases_no_news() {
    assert_eq!(check_for_new_version(&vec![], "0.1.0"), None);
}

#[test]
fn running_the_latest_release_is_no_news() {
    let releases = vec![release("v0.2.0", false, false), release("v0.1.0", false, false)];
    assert_eq!(check_for_new_version(&releases, "0.2.0"), None);
}

#[test]
fn a_different_latest_release_is_news() {
    let releases = vec![release("v0.2.0", false, false), release("v0.1.0", false, false)];
    assert_eq!(
        check_for_new_version(&releases, "0.1.0"),
        Some(String::from("https://example.org/v0.2.0"))
    );
}

#[test]
fn drafts_and_prereleases_are_passed_over() {
    let releases = vec![
        release("v0.4.0", true, false),
        release("v0.3.0", false, true),
        release("v0.2.5", true, true),
        release("v0.2.0", false, false),
        release("v0.1.0", false, false),
    ];
    assert_eq!(check_for_new_version(&releases, "0.2.0"), None);
    assert_eq!(
        check_for_new_version(&releases, "0.1.0"),
        Some(String::from("https://example.org/v0.2.0"))
    );
}

#[test]
fn only_drafts_is_no_news() {
    let releases = vec![release("v0.4.0", true, false), release("v0.3.0", false, true)];
    assert_eq!(check_for_new_version(&releases, "0.1.0"), None);
}

#[test]
fn the_tag_has_a_v_before_the_version() {
    let releases = vec![release("0.2.0", false, false)];
    assert_eq!(
        check_for_new_version(&releases, "0.2.0"),
        Some(String::from("https://example.org/0.2.0"))
    );
}
