use vstd::prelude::*;

use crate::error::ProjectError;
use crate::text::{
    all_digits, char_is_ascii_digit, chars_occur_at, chars_of, digits_in, is_ascii_digit, occurs_at,
};

verus! {

/// `name` reads `proj-<digits>-<slug>`, with at least one digit.
pub open spec fn dir_holds_slug(name: Seq<char>, slug: Seq<char>) -> bool {
    let p = "proj-"@;
    let m = name.len() - slug.len() - 1;
    &&& p.len() < m
    &&& name.take(p.len() as int) == p
    &&& name[m] == '-'
    &&& name.skip(m + 1) == slug
    &&& all_digits(name.subrange(p.len() as int, m))
}

/// Some directory of the listing is named for `slug`.
pub open spec fn listing_holds_slug(names: Seq<Seq<char>>, slug: Seq<char>) -> bool {
    exists|i: int| 0 <= i < names.len() && dir_holds_slug(#[trigger] names[i], slug)
}

/// Whether the directory name `name` follows `proj-<digits>-<slug>` for exactly
/// this slug.
pub fn slug_matches_dir(name: &str, slug: &str) -> (r: bool)
    ensures
        r == dir_holds_slug(name@, slug@),
{
    let v = chars_of(name);
    let s = chars_of(slug);
    let p = chars_of("proj-");
    proof {
        reveal_strlit("proj-");
    }
    if v.len() <= s.len() || v.len() - s.len() - 1 <= p.len() {
        return false;
    }
    let m: usize = v.len() - s.len() - 1;
    if !chars_occur_at(&v, 0, &p) || v[m] != '-' || !chars_occur_at(&v, m + 1, &s) {
        return false;
    }
    assert(v@.subrange(m + 1, m + 1 + s@.len()) == v@.skip(m + 1));
    assert(v@.subrange(0, p@.len() as int) == v@.take(p@.len() as int));
    digits_in(&v, p.len(), m)
}

/// Whether some directory of the listing is named for `slug`.
pub fn has_slug(names: &Vec<String>, slug: &str) -> (r: bool)
    ensures
        r == listing_holds_slug(names.deep_view(), slug@),
{
    let mut i: usize = 0;
    while i < names.len()
        invariant
            i <= names@.len(),
            forall|k: int| 0 <= k < i ==> !dir_holds_slug(#[trigger] names.deep_view()[k], slug@),
        decreases names.len() - i,
    {
        if slug_matches_dir(names[i].as_str(), slug) {
            assert(dir_holds_slug(names.deep_view()[i as int], slug@));
            return true;
        }
        i = i + 1;
    }
    false
}

/// Whether `slug` is taken in the active or in the archived namespace, each
/// given by the names of its directories.
pub fn slug_in_use(active: &Vec<String>, archived: &Vec<String>, slug: &str) -> (r: bool)
    ensures
        r == (listing_holds_slug(active.deep_view(), slug@) || listing_holds_slug(
            archived.deep_view(),
            slug@,
        )),
{
    has_slug(active, slug) || has_slug(archived, slug)
}

/// `name` begins with the prefix `input` and a `-`.
pub open spec fn extends_prefix(name: Seq<char>, input: Seq<char>) -> bool {
    occurs_at(name, 0, input.push('-'))
}

/// The directories of the listing whose names begin with `input` and a `-`.
pub open spec fn prefix_matches(names: Seq<Seq<char>>, input: Seq<char>) -> Seq<Seq<char>> {
    names.filter(|n: Seq<char>| extends_prefix(n, input))
}

/// Resolves an identifier or prefix to a directory of a namespace: the
/// directory of that very name when it exists, else the one directory whose
/// name begins with `input-`. `names` lists the namespace's directories.
pub fn find_project_dir(input: &str, direct_exists: bool, names: &Vec<String>) -> (r: Result<
    String,
    ProjectError,
>)
    ensures
        direct_exists ==> (r matches Ok(d) && d@ == input@),
        !direct_exists && prefix_matches(names.deep_view(), input@).len() == 0 ==> (r matches Err(
            ProjectError::NotFound { input: i },
        ) && i@ == input@),
        !direct_exists && prefix_matches(names.deep_view(), input@).len() == 1 ==> (r matches Ok(d)
            && d@ == prefix_matches(names.deep_view(), input@)[0]),
        !direct_exists && prefix_matches(names.deep_view(), input@).len() > 1 ==> (r matches Err(
            ProjectError::Ambiguous { input: i },
        ) && i@ == input@),
{
    if direct_exists {
        return Ok(input.to_string());
    }
    let mut want = chars_of(input);
    want.push('-');
    let mut found: Vec<String> = Vec::new();
    let mut i: usize = 0;
    while i < names.len()
        invariant
            i <= names@.len(),
            want@ == input@.push('-'),
            found.deep_view() == prefix_matches(names.deep_view().take(i as int), input@),
        decreases names.len() - i,
    {
        let v = chars_of(names[i].as_str());
        let hit = chars_occur_at(&v, 0, &want);
        proof {
            let all = names.deep_view();
            assert(all.take(i + 1).drop_last() == all.take(i as int));
            reveal(Seq::filter);
        }
        if hit {
            found.push(names[i].clone());
            assert(found.deep_view() == prefix_matches(names.deep_view().take(i + 1), input@));
        }
        i = i + 1;
    }
    assert(names.deep_view().take(names@.len() as int) == names.deep_view());
    if found.len() == 0 {
        Err(ProjectError::NotFound { input: input.to_string() })
    } else if found.len() == 1 {
        Ok(found[0].clone())
    } else {
        Err(ProjectError::Ambiguous { input: input.to_string() })
    }
}

/// `name` reads `proj-<digits>-...` with its digits ending at `j`.
pub open spec fn id_ends_at(name: Seq<char>, j: int) -> bool {
    let p = "proj-"@;
    &&& p.len() < j < name.len()
    &&& name.take(p.len() as int) == p
    &&& name[j] == '-'
    &&& all_digits(name.subrange(p.len() as int, j))
}

/// The registry identifier of a project directory: `PROJ-` and the digits of
/// its name `proj-<digits>-...`. A name of another shape is refused.
pub fn project_id_from_dir(dir_name: &str) -> (r: Result<String, ProjectError>)
    ensures
        r is Ok <==> exists|j: int| id_ends_at(dir_name@, j),
        forall|j: int|
            id_ends_at(dir_name@, j) ==> (r matches Ok(id) && id@ == "PROJ-"@ + dir_name@.subrange(
                "proj-"@.len() as int,
                j,
            )),
        r matches Err(e) ==> e matches ProjectError::InvalidDirName { name } && name@ == dir_name@,
{
    let v = chars_of(dir_name);
    let p = chars_of("proj-");
    proof {
        reveal_strlit("proj-");
    }
    let invalid = Err(ProjectError::InvalidDirName { name: dir_name.to_string() });
    if !chars_occur_at(&v, 0, &p) {
        proof {
            assert(v@.subrange(0, 5) == v@.take(5));
        }
        return invalid;
    }
    assert(v@.subrange(0, 5) == v@.take(5));
    let mut j: usize = p.len();
    while j < v.len() && char_is_ascii_digit(v[j])
        invariant
            5 <= j <= v@.len(),
            forall|k: int| 5 <= k < j ==> is_ascii_digit(#[trigger] v@[k]),
        decreases v.len() - j,
    {
        j = j + 1;
    }
    assert forall|k: int| 0 <= k < j - 5 implies is_ascii_digit(
        #[trigger] v@.subrange(5, j as int)[k],
    ) by {
        assert(v@.subrange(5, j as int)[k] == v@[5 + k]);
    }
    assert forall|j2: int| id_ends_at(v@, j2) implies j2 == j by {
        if j2 < j {
            assert(is_ascii_digit(v@[j2]));
        } else if j2 > j {
            assert(v@.subrange(5, j2)[j - 5] == v@[j as int]);
            assert(is_ascii_digit(v@.subrange(5, j2)[j - 5]));
        }
    }
    if j == 5 || j == v.len() || v[j] != '-' {
        return invalid;
    }
    assert(id_ends_at(v@, j as int));
    let mut id = String::from_str("PROJ-");
    crate::text::push_range(&mut id, &v, 5, j);
    Ok(id)
}

} // verus!
