use vstd::prelude::*;

use crate::error::ProjectError;
use crate::namespace::{listing_holds_slug, slug_in_use};
use crate::registry::{first_groups, largest_id, next_project_id, note_link, ID_PATTERN};
use crate::slug::{slug_of, slugify};
use crate::text::{decimal, push_char, push_decimal};

verus! {

/// The header that a new registry file starts with.
pub const REGISTRY_HEADER: &'static str = "# Project Registry\n\nFlat list of project notes. IDs are chronological and unique across all projects.\n\n| ID | Name | Status | Created | Note |\n| --- | --- | --- | --- | --- |\n";

/// The name of the note file inside a project directory.
pub const NOTE_FILE: &'static str = "README.md";

/// `part` appended to the path `base`, with a `/` between them where `base`
/// does not already end with one.
pub open spec fn join_path(base: Seq<char>, part: Seq<char>) -> Seq<char> {
    if base.len() == 0 || base.last() == '/' {
        base + part
    } else {
        base + "/"@ + part
    }
}

/// `part` appended to the path `base`.
pub fn path_join(base: &str, part: &str) -> (r: String)
    ensures
        r@ == join_path(base@, part@),
{
    let mut r = base.to_string();
    let n = base.unicode_len();
    if n > 0 && base.get_char(n - 1) != '/' {
        r.append("/");
    }
    r.append(part);
    r
}

/// Where the notes live: the root, the active and archived namespaces of
/// project directories, and the registry file.
#[derive(Debug, Clone)]
pub struct NotesPaths {
    pub root: String,
    pub projects_dir: String,
    pub archives_projects_dir: String,
    pub registry: String,
}

impl NotesPaths {
    /// The layout under a notes root: `Projects/`, `Archives/Projects/`, and
    /// the registry `Projects/_registry.md`.
    pub fn from_root(root: String) -> (r: Self)
        ensures
            r.root@ == root@,
            r.projects_dir@ == join_path(root@, "Projects"@),
            r.archives_projects_dir@ == join_path(join_path(root@, "Archives"@), "Projects"@),
            r.registry@ == join_path(join_path(root@, "Projects"@), "_registry.md"@),
    {
        let projects_dir = path_join(root.as_str(), "Projects");
        let archives = path_join(root.as_str(), "Archives");
        let archives_projects_dir = path_join(archives.as_str(), "Projects");
        let registry = path_join(projects_dir.as_str(), "_registry.md");
        NotesPaths { root, projects_dir, archives_projects_dir, registry }
    }
}

/// A calendar day of the proleptic Gregorian calendar.
#[derive(Debug, Clone, Copy, PartialEq, Eq)]
pub struct CalendarDate {
    pub year: i32,
    pub month: u8,
    pub day: u8,
}

/// `width` zeros.
pub open spec fn zeros(width: nat) -> Seq<char> {
    Seq::new(width, |i: int| '0')
}

/// The decimal writing of `n`, with zeros in front up to `width` characters.
pub open spec fn padded(n: nat, width: nat) -> Seq<char> {
    if decimal(n).len() < width {
        zeros((width - decimal(n).len()) as nat) + decimal(n)
    } else {
        decimal(n)
    }
}

/// A year as `%Y` writes it: four digits at least, and a sign outside 0..=9999.
pub open spec fn year_text(y: int) -> Seq<char> {
    if 0 <= y <= 9999 {
        padded(y as nat, 4)
    } else if y < 0 {
        "-"@ + padded((-y) as nat, 4)
    } else {
        "+"@ + padded(y as nat, 4)
    }
}

/// A date as `YYYY-MM-DD`.
pub open spec fn date_text(d: CalendarDate) -> Seq<char> {
    year_text(d.year as int) + "-"@ + padded(d.month as nat, 2) + "-"@ + padded(d.day as nat, 2)
}

fn push_padded(s: &mut String, n: u64, width: usize)
    ensures
        final(s)@ == old(s)@ + padded(n as nat, width as nat),
{
    let mut digits = String::new();
    push_decimal(&mut digits, n);
    let len = digits.as_str().unicode_len();
    let ghost start = s@;
    if len < width {
        let mut k: usize = 0;
        while k < width - len
            invariant
                k <= width - len,
                s@ == start + zeros(k as nat),
            decreases width - len - k,
        {
            push_char(s, '0');
            assert(zeros(k as nat).push('0') == zeros((k + 1) as nat));
            k = k + 1;
        }
    }
    s.append(digits.as_str());
}

impl CalendarDate {
    /// The date written `YYYY-MM-DD`.
    pub fn text(&self) -> (r: String)
        ensures
            r@ == date_text(*self),
    {
        let mut s = String::new();
        let y: i64 = self.year as i64;
        if 0 <= y && y <= 9999 {
            push_padded(&mut s, y as u64, 4);
        } else if y < 0 {
            s.append("-");
            push_padded(&mut s, (-y) as u64, 4);
        } else {
            s.append("+");
            push_padded(&mut s, y as u64, 4);
        }
        s.append("-");
        push_padded(&mut s, self.month as u64, 2);
        s.append("-");
        push_padded(&mut s, self.day as u64, 2);
        s
    }
}

} // verus!

verus! {

/// The area qualifier that counts: a given, non-empty one.
pub open spec fn area_given(area: Option<&str>) -> Option<Seq<char>> {
    match area {
        Some(a) => if a@.len() > 0 {
            Some(a@)
        } else {
            None
        },
        None => None,
    }
}

/// The name, or the area, leaves an empty slug.
pub open spec fn slug_refused(name: Seq<char>, area: Option<Seq<char>>) -> bool {
    slug_of(name).len() == 0 || (area matches Some(a) && slug_of(a).len() == 0)
}

/// The full slug of a project: the slug of its name, after the slug of its
/// area and a `-` where an area is given.
pub open spec fn full_slug(name: Seq<char>, area: Option<Seq<char>>) -> Seq<char> {
    match area {
        Some(a) => slug_of(a) + "-"@ + slug_of(name),
        None => slug_of(name),
    }
}

/// The full slug of a project named `name`, in the area `area` if one is
/// given; an empty area counts as none.
pub fn project_slug(name: &str, area: Option<&str>) -> (r: Result<String, ProjectError>)
    ensures
        slug_refused(name@, area_given(area)) ==> r matches Err(ProjectError::EmptySlug),
        !slug_refused(name@, area_given(area)) ==> (r matches Ok(s) && s@ == full_slug(
            name@,
            area_given(area),
        )),
{
    let slug = match slugify(name) {
        Ok(s) => s,
        Err(e) => return Err(e),
    };
    match area {
        Some(a) => {
            if a.unicode_len() == 0 {
                return Ok(slug);
            }
            let mut full = match slugify(a) {
                Ok(s) => s,
                Err(e) => return Err(e),
            };
            full.append("-");
            full.append(slug.as_str());
            Ok(full)
        },
        None => Ok(slug),
    }
}

/// The name of a project directory: `proj-<id>-<slug>`.
pub open spec fn project_dir_name(id: nat, slug: Seq<char>) -> Seq<char> {
    "proj-"@ + decimal(id) + "-"@ + slug
}

/// The registry row of a new project; its note link is relative to the
/// registry's directory.
pub open spec fn registry_row(
    id: nat,
    name: Seq<char>,
    status: Seq<char>,
    created: Seq<char>,
    dir: Seq<char>,
) -> Seq<char> {
    "| PROJ-"@ + decimal(id) + " | "@ + name + " | "@ + status + " | "@ + created + " | "@
        + note_link(dir + "/README.md"@) + " |"@
}

/// The note file of a new project.
pub open spec fn note_template(
    id: nat,
    name: Seq<char>,
    status: Seq<char>,
    created: Seq<char>,
    area: Option<Seq<char>>,
) -> Seq<char> {
    "# PROJ-"@ + decimal(id) + ": "@ + name + "\n\nCreated: "@ + created
        + "\n\n## Summary\n- \n\n## Status\n- "@ + status + "\n\n"@ + match area {
        Some(a) => "## Area\n- "@ + a + "\n\n"@,
        None => seq![],
    } + "## Notes\n- \n\n## Next\n- \n"@
}

/// What creating a project writes: its directory, note file and registry row.
#[derive(Debug, Clone)]
pub struct CreatePlan {
    /// The identifier number of the new project.
    pub id: u64,
    /// Its full slug.
    pub slug: String,
    /// Its directory name in the active namespace.
    pub dir_name: String,
    /// The path of its note relative to the active namespace root.
    pub note_path: String,
    /// The text of its note file.
    pub note_content: String,
    /// Its registry row, without the line ending.
    pub registry_line: String,
}

/// Decides the creation of a project named `name` with status `status`, in
/// `area` if one is given, on day `created`: the identifier follows the
/// registry text `contents`, and the full slug must be free in both the active
/// and the archived namespaces, given by the names of their directories.
pub fn plan_create(
    contents: &str,
    active: &Vec<String>,
    archived: &Vec<String>,
    name: &str,
    status: &str,
    area: Option<&str>,
    created: &CalendarDate,
) -> (r: Result<CreatePlan, ProjectError>)
    ensures
        slug_refused(name@, area_given(area)) ==> r matches Err(ProjectError::EmptySlug),
        !slug_refused(name@, area_given(area)) && listing_holds_slug(
            archived.deep_view(),
            full_slug(name@, area_given(area)),
        ) ==> (r matches Err(ProjectError::DuplicateSlug { slug }) && slug@ == full_slug(
            name@,
            area_given(area),
        )),
        !slug_refused(name@, area_given(area)) && listing_holds_slug(
            active.deep_view(),
            full_slug(name@, area_given(area)),
        ) ==> (r matches Err(ProjectError::DuplicateSlug { slug }) && slug@ == full_slug(
            name@,
            area_given(area),
        )),
        !slug_refused(name@, area_given(area)) && !listing_holds_slug(
            active.deep_view(),
            full_slug(name@, area_given(area)),
        ) && !listing_holds_slug(archived.deep_view(), full_slug(name@, area_given(area)))
            ==> (r matches Ok(p) && {
            let id = largest_id(first_groups(ID_PATTERN@, contents@)) + 1;
            let slug = full_slug(name@, area_given(area));
            let dir = project_dir_name(id, slug);
            &&& p.id == id
            &&& p.slug@ == slug
            &&& p.dir_name@ == dir
            &&& p.note_path@ == dir + "/README.md"@
            &&& p.note_content@ == note_template(
                id,
                name@,
                status@,
                date_text(*created),
                area_given(area),
            )
            &&& p.registry_line@ == registry_row(id, name@, status@, date_text(*created), dir)
        }),
{
    let id = next_project_id(contents);
    let slug = match project_slug(name, area) {
        Ok(s) => s,
        Err(e) => return Err(e),
    };
    if slug_in_use(active, archived, slug.as_str()) {
        return Err(ProjectError::DuplicateSlug { slug });
    }
    let mut dir_name = String::from_str("proj-");
    push_decimal(&mut dir_name, id);
    dir_name.append("-");
    dir_name.append(slug.as_str());

    let mut note_path = dir_name.clone();
    note_path.append("/README.md");

    let day = created.text();
    let mut note_content = String::from_str("# PROJ-");
    push_decimal(&mut note_content, id);
    note_content.append(": ");
    note_content.append(name);
    note_content.append("\n\nCreated: ");
    note_content.append(day.as_str());
    note_content.append("\n\n## Summary\n- \n\n## Status\n- ");
    note_content.append(status);
    note_content.append("\n\n");
    match area {
        Some(a) => {
            if a.unicode_len() > 0 {
                note_content.append("## Area\n- ");
                note_content.append(a);
                note_content.append("\n\n");
            }
        },
        None => {},
    }
    note_content.append("## Notes\n- \n\n## Next\n- \n");

    let mut registry_line = String::from_str("| PROJ-");
    push_decimal(&mut registry_line, id);
    registry_line.append(" | ");
    registry_line.append(name);
    registry_line.append(" | ");
    registry_line.append(status);
    registry_line.append(" | ");
    registry_line.append(day.as_str());
    registry_line.append(" | ");
    let ghost before_link = registry_line@;
    registry_line.append("[");
    registry_line.append(note_path.as_str());
    registry_line.append("](");
    registry_line.append(note_path.as_str());
    registry_line.append(")");
    registry_line.append(" |");
    proof {
        assert(registry_line@ =~= before_link + note_link(note_path@) + " |"@);
    }
    Ok(CreatePlan { id, slug, dir_name, note_path, note_content, registry_line })
}

/// Where the registry row of an archived project links: its note file in the
/// archived namespace where it has one, else its directory there. The path is
/// relative to the registry's directory.
pub open spec fn archived_target(dir_name: Seq<char>, has_note: bool) -> Seq<char> {
    if has_note {
        "../Archives/Projects/"@ + dir_name + "/README.md"@
    } else {
        "../Archives/Projects/"@ + dir_name + "/"@
    }
}

/// The note link of an archived project directory.
pub fn archived_note_target(dir_name: &str, has_note: bool) -> (r: String)
    ensures
        r@ == archived_target(dir_name@, has_note),
{
    let mut r = String::from_str("../Archives/Projects/");
    r.append(dir_name);
    if has_note {
        r.append("/README.md");
    } else {
        r.append("/");
    }
    r
}

} // verus!
