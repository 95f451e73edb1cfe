use xonaix_library_tools::enforce;
use xonaix_library_tools::manifest;

#[test]
fn excluded_paths() {
    assert!(enforce::should_exclude("specs/_deprecated/old.md"));
    assert!(enforce::should_exclude("specs/_reference/r.md"));
    assert!(enforce::should_exclude(".git/config"));
    assert!(enforce::should_exclude("tools/target/debug/x"));
    assert!(enforce::should_exclude("specs/_governance/manifests/m.json"));
    assert!(!enforce::should_exclude("specs/standards/unit-a/UNIT.json"));
    // `target` must be its own path component for enforcement
    assert!(!enforce::should_exclude("specs/targeting.md"));
}

#[test]
fn governance_paths() {
    assert!(enforce::is_governance_file("specs/_governance/AUDIT_CONTRACT.md"));
    assert!(!enforce::is_governance_file("specs/standards/a.md"));
}

#[test]
fn forbidden_tokens_found_in_order() {
    let content = "intro\nTBD item\nsomething PLACEHOLDER here\nTODO later";
    let found = enforce::forbidden_tokens_in(content);
    assert_eq!(
        found,
        vec!["TODO".to_string(), "TBD".to_string(), "PLACEHOLDER".to_string()]
    );
    assert!(enforce::forbidden_tokens_in("all clean").is_empty());
}

#[test]
fn crlf_detection() {
    assert!(enforce::has_crlf("line one\r\nline two"));
    assert!(!enforce::has_crlf("line one\nline two"));
    assert!(!enforce::has_crlf("carriage only\r then text"));
}

#[test]
fn emoji_detection() {
    assert!(enforce::contains_emoji("done \u{1F600}"));
    assert!(enforce::contains_emoji("warning sign \u{26A0}"));
    assert!(!enforce::contains_emoji("plain ascii text"));
    assert!(!enforce::contains_emoji("accented caf\u{e9}"));
}

#[test]
fn standalone_ellipsis_lines() {
    assert!(enforce::line_is_standalone_ellipsis("..."));
    assert!(enforce::line_is_standalone_ellipsis("   ...  "));
    assert!(enforce::line_is_standalone_ellipsis("\t..."));
    assert!(!enforce::line_is_standalone_ellipsis("...."));
    assert!(!enforce::line_is_standalone_ellipsis("wait ..."));
    assert!(!enforce::line_is_standalone_ellipsis("... done"));
    assert!(!enforce::line_is_standalone_ellipsis(".."));
    assert!(!enforce::line_is_standalone_ellipsis(""));
}

#[test]
fn sha256_of_empty_input() {
    let hex = manifest::compute_sha256_hex(b"");
    assert_eq!(
        hex,
        "e3b0c44298fc1c149afbf4c8996fb92427ae41e4649b934ca495991b7852b855"
    );
}

#[test]
fn sha256_of_known_input() {
    let hex = manifest::compute_sha256_hex(b"abc");
    assert_eq!(
        hex,
        "ba7816bf8f01cfea414140de5dae2223b00361a396177a9cb410ff61f20015ad"
    );
}

#[test]
fn hex_rendering() {
    let bytes: Vec<u8> = vec![0x00, 0x0f, 0xa5, 0xff];
    assert_eq!(manifest::to_hex(&bytes), "000fa5ff");
}

#[test]
fn file_names() {
    assert_eq!(manifest::file_name("specs/_governance/UNIT_REGISTRY.json"), "UNIT_REGISTRY.json");
    assert_eq!(manifest::file_name("a\\b\\c.md"), "c.md");
    assert_eq!(manifest::file_name("plain.md"), "plain.md");
    assert_eq!(manifest::file_name("dir/"), "");
}

#[test]
fn manifest_exclusions() {
    assert!(manifest::should_exclude("specs/.gitignore", false));
    assert!(manifest::should_exclude("specs/x/CODEOWNERS", false));
    assert!(manifest::should_exclude("specs/.git/HEAD", false));
    assert!(manifest::should_exclude("specs/_reference/r.md", false));
    assert!(manifest::should_exclude("specs/_governance/manifests/m.json", true));
    assert!(!manifest::should_exclude("specs/_governance/manifests/m.json", false));
    assert!(!manifest::should_exclude("specs/_governance/AUDIT_CONTRACT.md", true));
}

#[test]
fn ellipsis_with_unicode_whitespace() {
    assert!(enforce::line_is_standalone_ellipsis("\u{00A0}...\u{2003}"));
    assert!(!enforce::line_is_standalone_ellipsis("\u{00A0}..x\u{2003}"));
}

#[test]
fn hex_of_empty() {
    let bytes: Vec<u8> = Vec::new();
    assert_eq!(manifest::to_hex(&bytes), "");
}
