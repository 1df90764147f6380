use pman::{
    archived_note_target, find_project_dir, next_project_id, plan_create, project_id_from_dir,
    update_registry_entry, CalendarDate, NotesPaths, ProjectError, REGISTRY_HEADER,
};

fn day() -> CalendarDate {
    CalendarDate { year: 2025, month: 3, day: 7 }
}

fn names(list: &[&str]) -> Vec<String> {
    list.iter().map(|s| s.to_string()).collect()
}

#[test]
fn create_project_blocks_archived_slug() {
    let archived = names(&["proj-1-test-slug"]);
    let err = plan_create(REGISTRY_HEADER, &Vec::new(), &archived, "Test Slug", "active", None, &day())
        .unwrap_err()
        .message();
    assert!(err.contains("Slug already exists"));
}

#[test]
fn create_blocks_active_slug() {
    let active = names(&["proj-4-test-slug"]);
    let r = plan_create(REGISTRY_HEADER, &active, &Vec::new(), "Test Slug", "active", None, &day());
    assert_eq!(r.unwrap_err(), ProjectError::DuplicateSlug { slug: "test-slug".to_string() });
}

#[test]
fn create_allows_longer_slug_beside_existing() {
    let active = names(&["proj-4-test-slug", "notes.txt"]);
    let plan = plan_create(REGISTRY_HEADER, &active, &Vec::new(), "Test Slug 2", "active", None, &day()).unwrap();
    assert_eq!(plan.dir_name, "proj-1-test-slug-2");
}

#[test]
fn create_first_project_with_area() {
    let plan = plan_create(REGISTRY_HEADER, &Vec::new(), &Vec::new(), "Runes Notes", "active", Some("religion"), &day())
        .unwrap();
    assert_eq!(plan.id, 1);
    assert_eq!(plan.slug, "religion-runes-notes");
    assert_eq!(plan.dir_name, "proj-1-religion-runes-notes");
    assert_eq!(plan.note_path, "proj-1-religion-runes-notes/README.md");
    assert_eq!(
        plan.registry_line,
        "| PROJ-1 | Runes Notes | active | 2025-03-07 | [proj-1-religion-runes-notes/README.md](proj-1-religion-runes-notes/README.md) |"
    );
    assert_eq!(
        plan.note_content,
        "# PROJ-1: Runes Notes\n\nCreated: 2025-03-07\n\n## Summary\n- \n\n## Status\n- active\n\n## Area\n- religion\n\n## Notes\n- \n\n## Next\n- \n"
    );
}

#[test]
fn create_without_area_has_no_area_section() {
    let registry = format!("{REGISTRY_HEADER}| PROJ-9 | Old | active | 2024-01-01 | x |\n");
    let plan = plan_create(&registry, &Vec::new(), &Vec::new(), "New Thing", "paused", Some(""), &day()).unwrap();
    assert_eq!(plan.id, 10);
    assert_eq!(plan.dir_name, "proj-10-new-thing");
    assert_eq!(
        plan.note_content,
        "# PROJ-10: New Thing\n\nCreated: 2025-03-07\n\n## Summary\n- \n\n## Status\n- paused\n\n## Notes\n- \n\n## Next\n- \n"
    );
}

#[test]
fn create_refuses_empty_slug() {
    let r = plan_create(REGISTRY_HEADER, &Vec::new(), &Vec::new(), "!!!", "active", None, &day());
    assert_eq!(r.unwrap_err(), ProjectError::EmptySlug);
}

#[test]
fn dates_are_written_like_chrono() {
    assert_eq!(CalendarDate { year: 2025, month: 1, day: 5 }.text(), "2025-01-05");
    assert_eq!(CalendarDate { year: 33, month: 12, day: 31 }.text(), "0033-12-31");
    assert_eq!(CalendarDate { year: 10000, month: 1, day: 1 }.text(), "+10000-01-01");
    assert_eq!(CalendarDate { year: -1, month: 1, day: 1 }.text(), "-0001-01-01");
}

#[test]
fn archive_project_updates_registry() {
    let registry = format!(
        "{header}| PROJ-3 | Sample | active | 2025-01-01 | [proj-3-sample/README.md](proj-3-sample/README.md) |\n",
        header = REGISTRY_HEADER
    );
    let dir = find_project_dir("proj-3", false, &names(&["proj-3-sample"])).unwrap();
    assert_eq!(dir, "proj-3-sample");
    let id = project_id_from_dir(&dir).unwrap();
    assert_eq!(id, "PROJ-3");
    let target = archived_note_target(&dir, true);
    let updated = update_registry_entry(&registry, &id, &target).unwrap();
    assert!(updated.contains("| PROJ-3 | Sample | archived |"));
    assert!(updated.contains("../Archives/Projects/proj-3-sample/README.md"));
}

#[test]
fn archived_target_without_note_is_the_directory() {
    assert_eq!(archived_note_target("proj-3-sample", false), "../Archives/Projects/proj-3-sample/");
    assert_eq!(archived_note_target("proj-3-sample", true), "../Archives/Projects/proj-3-sample/README.md");
}

#[test]
fn find_project_dir_not_found_and_ambiguous() {
    let listing = names(&["proj-3-sample", "proj-31-other", "proj-32-more"]);
    assert_eq!(
        find_project_dir("proj-4", false, &listing),
        Err(ProjectError::NotFound { input: "proj-4".to_string() })
    );
    let two = names(&["proj-3-a", "proj-3-b"]);
    assert_eq!(
        find_project_dir("proj-3", false, &two),
        Err(ProjectError::Ambiguous { input: "proj-3".to_string() })
    );
    assert_eq!(find_project_dir("proj-3", false, &listing).unwrap(), "proj-3-sample");
    assert_eq!(find_project_dir("proj-3-a", true, &two).unwrap(), "proj-3-a");
    assert!(find_project_dir("proj-3", false, &Vec::new()).is_err());
}

#[test]
fn project_id_from_dir_needs_digits_and_dash() {
    assert_eq!(project_id_from_dir("proj-0022-x").unwrap(), "PROJ-0022");
    for bad in ["proj-abc-x", "foo-1-x", "proj--x", "proj-12", "proj-"] {
        assert_eq!(
            project_id_from_dir(bad),
            Err(ProjectError::InvalidDirName { name: bad.to_string() })
        );
    }
}

#[test]
fn create_then_archive_leaves_one_archived_row() {
    let plan = plan_create(REGISTRY_HEADER, &Vec::new(), &Vec::new(), "Round Trip", "active", None, &day()).unwrap();
    let registry = format!("{REGISTRY_HEADER}{}\n", plan.registry_line);
    assert_eq!(next_project_id(&registry), 2);
    let dir = find_project_dir("proj-1", false, &names(&[&plan.dir_name])).unwrap();
    let id = project_id_from_dir(&dir).unwrap();
    let updated = update_registry_entry(&registry, &id, &archived_note_target(&dir, true)).unwrap();
    let rows: Vec<&str> = updated.lines().filter(|l| l.starts_with("| PROJ-1 |")).collect();
    assert_eq!(rows.len(), 1);
    assert!(rows[0].contains("| archived |"));
    assert!(rows[0].contains("(../Archives/Projects/proj-1-round-trip/README.md)"));
}

#[test]
fn notes_paths_from_root() {
    let p = NotesPaths::from_root("/notes".to_string());
    assert_eq!(p.root, "/notes");
    assert_eq!(p.projects_dir, "/notes/Projects");
    assert_eq!(p.archives_projects_dir, "/notes/Archives/Projects");
    assert_eq!(p.registry, "/notes/Projects/_registry.md");
    let q = NotesPaths::from_root("/notes/".to_string());
    assert_eq!(q.projects_dir, "/notes/Projects");
    let r = NotesPaths::from_root(String::new());
    assert_eq!(r.registry, "Projects/_registry.md");
}

#[test]
fn error_messages_name_the_subject() {
    assert_eq!(ProjectError::EmptySlug.message(), "Project name produces an empty slug");
    assert_eq!(
        ProjectError::DuplicateSlug { slug: "x".to_string() }.message(),
        "Slug already exists in Projects or Archives: x"
    );
    assert_eq!(ProjectError::NotFound { input: "p".to_string() }.message(), "No project directory matching p");
    assert_eq!(ProjectError::Ambiguous { input: "p".to_string() }.message(), "Multiple matches for p");
    assert_eq!(ProjectError::RowNotFound { id: "PROJ-1".to_string() }.message(), "Registry entry not found for PROJ-1");
    assert_eq!(ProjectError::MalformedRow { id: "PROJ-1".to_string() }.message(), "Registry entry malformed for PROJ-1");
}
