use spark_api::git::{advertised_commit, info_refs_url};

fn pkt(payload: &str) -> String {
    format!("{:04x}{}", payload.len() + 4, payload)
}

const HEAD_SHA: &str = "1111111111111111111111111111111111111111";
const MAIN_SHA: &str = "2222222222222222222222222222222222222222";
const FEATURE_SHA: &str = "abcdef0123456789abcdef0123456789abcdef01";

fn advertisement() -> String {
    let mut s = pkt("# service=git-upload-pack\n");
    s.push_str("0000");
    s.push_str(&pkt(&format!("{HEAD_SHA} HEAD\0multi_ack side-band-64k symref=HEAD:refs/heads/main\n")));
    s.push_str(&pkt(&format!("{MAIN_SHA} refs/heads/main\n")));
    s.push_str(&pkt(&format!("{FEATURE_SHA} refs/heads/feature/x\n")));
    s.push_str(&pkt(&format!("{HEAD_SHA} refs/tags/main\n")));
    s.push_str("0000");
    s
}

#[test]
fn a_branch_resolves_to_the_commit_it_advertises() {
    let adv = advertisement();
    assert_eq!(advertised_commit(adv.as_bytes(), "main").as_deref(), Some(MAIN_SHA));
    assert_eq!(advertised_commit(adv.as_bytes(), "feature/x").as_deref(), Some(FEATURE_SHA));
}

#[test]
fn only_a_whole_branch_name_matches() {
    let adv = advertisement();
    assert_eq!(advertised_commit(adv.as_bytes(), "mai"), None);
    assert_eq!(advertised_commit(adv.as_bytes(), "feature"), None);
    assert_eq!(advertised_commit(adv.as_bytes(), "missing"), None);
    // A tag of the same name is not the branch.
    assert_eq!(advertised_commit(adv.as_bytes(), "HEAD"), None);
}

#[test]
fn the_first_ref_line_carries_capabilities_after_a_nul() {
    let mut adv = pkt("# service=git-upload-pack\n");
    adv.push_str("0000");
    adv.push_str(&pkt(&format!("{MAIN_SHA} refs/heads/main\0report-status agent=git/2\n")));
    adv.push_str("0000");
    assert_eq!(advertised_commit(adv.as_bytes(), "main").as_deref(), Some(MAIN_SHA));
    // No trailing newline is needed either.
    let bare = pkt(&format!("{FEATURE_SHA} refs/heads/dev"));
    assert_eq!(advertised_commit(bare.as_bytes(), "dev").as_deref(), Some(FEATURE_SHA));
}

#[test]
fn a_broken_advertisement_resolves_nothing() {
    assert_eq!(advertised_commit(b"", "main"), None);
    assert_eq!(advertised_commit(b"zzzz", "main"), None);
    // A length longer than what follows.
    let line = pkt(&format!("{MAIN_SHA} refs/heads/main\n"));
    assert_eq!(advertised_commit(&line.as_bytes()[..line.len() - 1], "main"), None);
    // A length below the header's own four bytes.
    assert_eq!(advertised_commit(b"0003", "main"), None);
    // An object id that is not lower-case hex.
    let upper = pkt(&format!("{} refs/heads/main\n", MAIN_SHA.replace('2', "G")));
    assert_eq!(advertised_commit(upper.as_bytes(), "main"), None);
    // A match before the stream breaks off still counts.
    let mut early = line.clone();
    early.push_str("zz");
    assert_eq!(advertised_commit(early.as_bytes(), "main").as_deref(), Some(MAIN_SHA));
}

#[test]
fn refs_are_fetched_only_over_http() {
    assert_eq!(
        info_refs_url("https://github.com/o/r.git").as_deref(),
        Some("https://github.com/o/r.git/info/refs?service=git-upload-pack")
    );
    assert_eq!(
        info_refs_url("http://git.local/r").as_deref(),
        Some("http://git.local/r/info/refs?service=git-upload-pack")
    );
    assert_eq!(info_refs_url("git@github.com:o/r.git"), None);
}
