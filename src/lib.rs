//! A registry of project notes kept as a flat markdown table, with project
//! directories in an active and an archived namespace. This crate holds the
//! decisions: slugs, directory lookup, identifier allocation, the text of the
//! registry rows and of search results; the caller performs the file-system
//! work.

pub mod error;
pub mod laws;
pub mod lifecycle;
pub mod namespace;
pub mod registry;
pub mod search;
pub mod slug;
pub mod text;

pub use error::ProjectError;
pub use lifecycle::{
    archived_note_target, path_join, plan_create, project_slug, CalendarDate, CreatePlan,
    NotesPaths, NOTE_FILE, REGISTRY_HEADER,
};
pub use namespace::{find_project_dir, has_slug, project_id_from_dir, slug_in_use, slug_matches_dir};
pub use registry::{next_id_from_captures, next_project_id, parse_u32, update_registry_entry, ID_PATTERN};
pub use search::{html_escape, render_search_results};
pub use slug::slugify;
