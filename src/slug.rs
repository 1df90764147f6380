use vstd::prelude::*;

use crate::error::ProjectError;
use crate::text::{
    ascii_lower, char_ascii_lower, char_is_ascii_alnum, is_ascii_alnum, push_range, trim, trim_bounds,
    TrimSet,
};

verus! {

/// The name with every ASCII letter or digit kept (lower-cased) and each run of
/// other characters turned into one `-`.
pub open spec fn slug_body(name: Seq<char>) -> Seq<char>
    decreases name.len(),
{
    if name.len() == 0 {
        seq![]
    } else {
        let r = slug_body(name.drop_last());
        let c = name.last();
        if is_ascii_alnum(c) {
            r.push(ascii_lower(c))
        } else if r.len() > 0 && r.last() == '-' {
            r
        } else {
            r.push('-')
        }
    }
}

/// The slug of a name: its body without a `-` at either end.
pub open spec fn slug_of(name: Seq<char>) -> Seq<char> {
    trim(slug_body(name), TrimSet::Char('-'))
}

/// A character that a slug may hold.
pub open spec fn is_slug_char(c: char) -> bool {
    ('a' <= c && c <= 'z') || ('0' <= c && c <= '9') || c == '-'
}

/// A well-formed slug: not empty, lower-case letters, digits and `-` only, with
/// no `-` at either end and no two `-` in a row.
pub open spec fn is_slug(s: Seq<char>) -> bool {
    &&& s.len() > 0
    &&& forall|i: int| 0 <= i < s.len() ==> is_slug_char(#[trigger] s[i])
    &&& s[0] != '-'
    &&& s.last() != '-'
    &&& forall|i: int| 0 <= i < s.len() - 1 ==> !(#[trigger] s[i] == '-' && s[i + 1] == '-')
}

/// A slug body holds slug characters only, and never two `-` in a row.
pub proof fn lemma_slug_body_shape(name: Seq<char>)
    ensures
        forall|i: int| 0 <= i < slug_body(name).len() ==> is_slug_char(#[trigger] slug_body(name)[i]),
        forall|i: int|
            0 <= i < slug_body(name).len() - 1 ==> !(#[trigger] slug_body(name)[i] == '-'
                && slug_body(name)[i + 1] == '-'),
    decreases name.len(),
{
    if name.len() > 0 {
        let r = slug_body(name.drop_last());
        let c = name.last();
        lemma_slug_body_shape(name.drop_last());
        if is_ascii_alnum(c) {
            assert(is_slug_char(ascii_lower(c)));
            assert(slug_body(name) == r.push(ascii_lower(c)));
            assert(ascii_lower(c) != '-');
        } else if r.len() > 0 && r.last() == '-' {
        } else {
            assert(slug_body(name) == r.push('-'));
        }
    }
}

/// Turns a name into a slug: ASCII letters and digits are kept in lower case,
/// each run of other characters becomes a single `-`, and a `-` at either end
/// is dropped. A name that leaves nothing is refused.
pub fn slugify(name: &str) -> (r: Result<String, ProjectError>)
    ensures
        slug_of(name@).len() == 0 ==> r matches Err(ProjectError::EmptySlug),
        slug_of(name@).len() > 0 ==> (r matches Ok(s) && s@ == slug_of(name@)),
        r matches Ok(s) ==> is_slug(s@),
{
    let mut body: Vec<char> = Vec::new();
    for c in it: name.chars()
        invariant
            it.seq() == name@,
            body@ == slug_body(it.seq().take(it.index() as int)),
    {
        proof {
            let i = it.index() as int;
            assert(it.seq().take(i + 1).drop_last() == it.seq().take(i));
        }
        if char_is_ascii_alnum(c) {
            body.push(char_ascii_lower(c));
        } else if body.len() == 0 || body[body.len() - 1] != '-' {
            body.push('-');
        }
    }
    assert(name@.take(name@.len() as int) == name@);
    let (a, b) = trim_bounds(&body, 0, body.len(), TrimSet::Char('-'));
    assert(body@.subrange(0, body@.len() as int) == body@);
    proof {
        lemma_slug_body_shape(name@);
    }
    if a == b {
        return Err(ProjectError::EmptySlug);
    }
    let mut s = String::new();
    push_range(&mut s, &body, a, b);
    proof {
        let t = s@;
        assert forall|i: int| 0 <= i < t.len() - 1 implies !(#[trigger] t[i] == '-' && t[i + 1]
            == '-') by {
            assert(t[i] == body@[a + i]);
            assert(t[i + 1] == body@[a + i + 1]);
        }
        assert forall|i: int| 0 <= i < t.len() implies is_slug_char(#[trigger] t[i]) by {
            assert(t[i] == body@[a + i]);
        }
    }
    Ok(s)
}

} // verus!
