use vstd::prelude::*;

verus! {

/// What can stop an operation on the registry or the project directories.
#[derive(Debug, Clone, PartialEq, Eq)]
pub enum ProjectError {
    /// A name or an area leaves nothing once slugified.
    EmptySlug,
    /// The slug is taken by a directory of the active or of the archived namespace.
    DuplicateSlug { slug: String },
    /// The note file of a new project is already there.
    AlreadyExists { path: String },
    /// No directory answers to the identifier or prefix.
    NotFound { input: String },
    /// More than one directory answers to the prefix.
    Ambiguous { input: String },
    /// The directory name does not read `proj-<digits>-...`.
    InvalidDirName { name: String },
    /// The archived namespace already holds a directory of that name.
    AlreadyArchived { path: String },
    /// The directory could not be moved into the archived namespace.
    MoveFailed { path: String },
    /// No registry row carries the identifier.
    RowNotFound { id: String },
    /// The registry row of the identifier has fewer than five columns.
    MalformedRow { id: String },
}

} // verus!

verus! {

/// The words that report an error to a person.
pub open spec fn message_of(e: ProjectError) -> Seq<char> {
    match e {
        ProjectError::EmptySlug => "Project name produces an empty slug"@,
        ProjectError::DuplicateSlug { slug } => "Slug already exists in Projects or Archives: "@
            + slug@,
        ProjectError::AlreadyExists { path } => "Project note already exists: "@ + path@,
        ProjectError::NotFound { input } => "No project directory matching "@ + input@,
        ProjectError::Ambiguous { input } => "Multiple matches for "@ + input@,
        ProjectError::InvalidDirName { name } => "Invalid project directory name: "@ + name@,
        ProjectError::AlreadyArchived { path } => "Archive target already exists: "@ + path@,
        ProjectError::MoveFailed { path } => "Failed to move project to "@ + path@,
        ProjectError::RowNotFound { id } => "Registry entry not found for "@ + id@,
        ProjectError::MalformedRow { id } => "Registry entry malformed for "@ + id@,
    }
}

impl ProjectError {
    /// The error in words.
    pub fn message(&self) -> (r: String)
        ensures
            r@ == message_of(*self),
    {
        let (head, tail): (&str, &String) = match self {
            ProjectError::EmptySlug => {
                return String::from_str("Project name produces an empty slug");
            },
            ProjectError::DuplicateSlug { slug } => (
                "Slug already exists in Projects or Archives: ",
                slug,
            ),
            ProjectError::AlreadyExists { path } => ("Project note already exists: ", path),
            ProjectError::NotFound { input } => ("No project directory matching ", input),
            ProjectError::Ambiguous { input } => ("Multiple matches for ", input),
            ProjectError::InvalidDirName { name } => ("Invalid project directory name: ", name),
            ProjectError::AlreadyArchived { path } => ("Archive target already exists: ", path),
            ProjectError::MoveFailed { path } => ("Failed to move project to ", path),
            ProjectError::RowNotFound { id } => ("Registry entry not found for ", id),
            ProjectError::MalformedRow { id } => ("Registry entry malformed for ", id),
        };
        let mut r = String::from_str(head);
        r.append(tail.as_str());
        r
    }
}

} // verus!
