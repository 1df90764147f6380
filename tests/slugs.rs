use pman::{project_slug, slug_matches_dir, slugify, ProjectError};

fn is_well_formed(s: &str) -> bool {
    !s.is_empty()
        && s.chars().all(|c| c.is_ascii_lowercase() || c.is_ascii_digit() || c == '-')
        && !s.starts_with('-')
        && !s.ends_with('-')
        && !s.contains("--")
}

#[test]
fn slugify_rejects_empty() {
    let err = slugify("!!!").unwrap_err().message();
    assert!(err.contains("empty slug"));
}

#[test]
fn slugify_compacts_dashes() {
    let slug = slugify("Hello, World!!!").unwrap();
    assert_eq!(slug, "hello-world");
}

#[test]
fn slugify_empty_input_is_refused() {
    assert_eq!(slugify(""), Err(ProjectError::EmptySlug));
    assert_eq!(slugify("  \t "), Err(ProjectError::EmptySlug));
}

#[test]
fn slugify_treats_non_ascii_as_separator() {
    assert_eq!(slugify("Café Über").unwrap(), "caf-ber");
    assert_eq!(slugify("ÀÉ").unwrap_err(), ProjectError::EmptySlug);
}

#[test]
fn slugify_results_are_well_formed() {
    for name in ["  Leading and trailing  ", "a--b", "X_Y_Z 42", "--9--", "Runes Notes", "ünï"] {
        let s = slugify(name).unwrap();
        assert!(is_well_formed(&s), "{name:?} gave {s:?}");
    }
}

#[test]
fn slugify_keeps_a_valid_slug() {
    for s in ["hello-world", "a", "proj-12-x", "9"] {
        assert_eq!(slugify(s).unwrap(), s);
    }
}

#[test]
fn project_slug_prefixes_area() {
    assert_eq!(project_slug("Runes Notes", Some("religion")).unwrap(), "religion-runes-notes");
    assert_eq!(project_slug("Runes Notes", Some("")).unwrap(), "runes-notes");
    assert_eq!(project_slug("Runes Notes", None).unwrap(), "runes-notes");
    assert_eq!(project_slug("Runes Notes", Some("!!!")), Err(ProjectError::EmptySlug));
    assert_eq!(project_slug("???", Some("religion")), Err(ProjectError::EmptySlug));
}

#[test]
fn slug_matches_dir_needs_exact_tail() {
    assert!(slug_matches_dir("proj-12-foo", "foo"));
    assert!(slug_matches_dir("proj-0001-area-foo", "area-foo"));
    assert!(!slug_matches_dir("proj-12-foo-bar", "foo"));
    assert!(!slug_matches_dir("proj-12-foo", "fo"));
    assert!(!slug_matches_dir("proj-x-foo", "foo"));
    assert!(!slug_matches_dir("proj--foo", "foo"));
    assert!(!slug_matches_dir("proj-12foo", "foo"));
    assert!(!slug_matches_dir("project-12-foo", "foo"));
    assert!(!slug_matches_dir("proj-12-", "foo"));
}
