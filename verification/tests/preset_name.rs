use runflow::preset_name::check;

#[test]
fn a_matching_stem_and_name_pass() {
    assert!(check("bugfix", "bugfix").is_ok());
}

#[test]
fn a_mismatch_names_both_the_stem_and_the_declared_name() {
    let reason = check("bugfix", "hotfix").unwrap_err();
    assert!(reason.contains("bugfix"), "reason omits the stem: {reason}");
    assert!(reason.contains("hotfix"), "reason omits the name: {reason}");
}

#[test]
fn a_missing_name_says_what_it_should_have_been() {
    let reason = check("bugfix", "").unwrap_err();
    assert!(reason.contains("bugfix"), "reason omits the stem: {reason}");
}

#[test]
fn the_comparison_is_exact() {
    assert!(check("bugfix", "Bugfix").is_err());
    assert!(check("bugfix", " bugfix").is_err());
}
