use pman::{
    next_id_from_captures, next_project_id, parse_u32, update_registry_entry, ProjectError,
    REGISTRY_HEADER,
};

#[test]
fn next_project_id_increments() {
    let registry = "| PROJ-0002 | Example |\n| PROJ-2 | Example |";
    assert_eq!(next_project_id(registry), 3);
}

#[test]
fn next_project_id_starts_at_one() {
    assert_eq!(next_project_id(""), 1);
    assert_eq!(next_project_id(REGISTRY_HEADER), 1);
}

#[test]
fn next_project_id_scans_the_whole_text() {
    let registry = format!("{REGISTRY_HEADER}| PROJ-4 | About PROJ-17 | active | 2025-01-01 | x |\n");
    assert_eq!(next_project_id(&registry), 18);
}

#[test]
fn next_project_id_skips_numbers_beyond_u32() {
    assert_eq!(next_project_id("PROJ-99999999999 PROJ-5"), 6);
    assert_eq!(next_project_id("PROJ-4294967295"), 4294967296);
}

#[test]
fn next_project_id_reads_unicode_digits_as_part_of_the_marker() {
    // `\d` takes the Arabic-Indic three, so the capture does not parse.
    assert_eq!(next_project_id("PROJ-12\u{663}"), 1);
    assert_eq!(next_project_id("PROJ-12\u{663} PROJ-3"), 4);
}

#[test]
fn next_id_from_captures_takes_the_largest() {
    let texts = vec!["0002".to_string(), "10".to_string(), "x".to_string(), "7".to_string()];
    assert_eq!(next_id_from_captures(&texts), 11);
    assert_eq!(next_id_from_captures(&Vec::new()), 1);
}

#[test]
fn parse_u32_follows_std() {
    assert_eq!(parse_u32("0002"), Some(2));
    assert_eq!(parse_u32("+5"), Some(5));
    assert_eq!(parse_u32("4294967295"), Some(u32::MAX));
    assert_eq!(parse_u32("4294967296"), None);
    assert_eq!(parse_u32(""), None);
    assert_eq!(parse_u32("+"), None);
    assert_eq!(parse_u32("-1"), None);
    assert_eq!(parse_u32("1 "), None);
}

#[test]
fn update_rewrites_status_and_note() {
    let registry = format!(
        "{REGISTRY_HEADER}| PROJ-3 | Sample | active | 2025-01-01 | [proj-3-sample/README.md](proj-3-sample/README.md) |\n"
    );
    let out = update_registry_entry(&registry, "PROJ-3", "../Archives/Projects/proj-3-sample/README.md").unwrap();
    let expected = format!(
        "{REGISTRY_HEADER}| PROJ-3 | Sample | archived | 2025-01-01 | [../Archives/Projects/proj-3-sample/README.md](../Archives/Projects/proj-3-sample/README.md) |\n"
    );
    assert_eq!(out, expected);
}

#[test]
fn update_keeps_extra_columns_and_other_rows() {
    let registry = "| PROJ-1 | A | active | d | n |\n|PROJ-2|B|active|d|n|extra|\n";
    let out = update_registry_entry(registry, "PROJ-2", "t/").unwrap();
    assert_eq!(out, "| PROJ-1 | A | active | d | n |\n| PROJ-2 | B | archived | d | [t/](t/) | extra |\n");
}

#[test]
fn update_rewrites_only_the_first_row() {
    let registry = "| PROJ-1 | A | active | d | n |\n| PROJ-1 | B | active | d | n |";
    let out = update_registry_entry(registry, "PROJ-1", "t").unwrap();
    assert_eq!(out, "| PROJ-1 | A | archived | d | [t](t) |\n| PROJ-1 | B | active | d | n |\n");
}

#[test]
fn update_normalises_line_endings() {
    let registry = "head\r\n| PROJ-1 | A | active | d | n |\r\nlast";
    let out = update_registry_entry(registry, "PROJ-1", "t").unwrap();
    assert_eq!(out, "head\n| PROJ-1 | A | archived | d | [t](t) |\nlast\n");
}

#[test]
fn update_reports_missing_row() {
    let registry = format!("{REGISTRY_HEADER}| PROJ-3 | Sample | active | d | n |\n");
    assert_eq!(
        update_registry_entry(&registry, "PROJ-30", "t"),
        Err(ProjectError::RowNotFound { id: "PROJ-30".to_string() })
    );
}

#[test]
fn update_reports_malformed_row() {
    let registry = "| PROJ-3 | Sample | active |\n";
    assert_eq!(
        update_registry_entry(registry, "PROJ-3", "t"),
        Err(ProjectError::MalformedRow { id: "PROJ-3".to_string() })
    );
}
