use vstd::prelude::*;

use crate::error::ProjectError;
use crate::text::{
    chars_of, copy_range, lemma_split_on_len, lemma_views_push, push_range, same_chars, split_on, split_range, trim,
    trim_bounds, views, TrimSet,
};

verus! {

/// A line without the `\r` of a `\r\n` ending.
pub open spec fn strip_cr(l: Seq<char>) -> Seq<char> {
    if l.len() > 0 && l.last() == '\r' {
        l.drop_last()
    } else {
        l
    }
}

/// The lines of a text, as `str::lines` gives them: split at `\n` (or
/// `\r\n`), with no empty line after a final line ending.
pub open spec fn lines_of(s: Seq<char>) -> Seq<Seq<char>> {
    let p = split_on(s, '\n');
    let ended = p.drop_last().map_values(|l: Seq<char>| strip_cr(l));
    if p.last().len() == 0 {
        ended
    } else {
        ended.push(p.last())
    }
}

/// The columns of a table line: the line without `|` at either end, split at
/// each `|`, each piece without white space at either end.
pub open spec fn columns(line: Seq<char>) -> Seq<Seq<char>> {
    split_on(trim(line, TrimSet::Char('|')), '|').map_values(|c: Seq<char>| trim(c, TrimSet::Space))
}

/// The line is the row of `id`: its first column is `id`.
pub open spec fn is_row_of(line: Seq<char>, id: Seq<char>) -> bool {
    columns(line)[0] == id
}

/// Line `i` is the first row of `id`.
pub open spec fn is_first_row(lines: Seq<Seq<char>>, id: Seq<char>, i: int) -> bool {
    &&& 0 <= i < lines.len()
    &&& is_row_of(lines[i], id)
    &&& forall|j: int| 0 <= j < i ==> !is_row_of(#[trigger] lines[j], id)
}

/// The pieces joined, with `sep` between two neighbours.
pub open spec fn join(parts: Seq<Seq<char>>, sep: Seq<char>) -> Seq<char>
    decreases parts.len(),
{
    if parts.len() == 0 {
        seq![]
    } else if parts.len() == 1 {
        parts[0]
    } else {
        join(parts.drop_last(), sep) + sep + parts.last()
    }
}

/// The lines written out, each followed by `\n`.
pub open spec fn joined_lines(lines: Seq<Seq<char>>) -> Seq<char>
    decreases lines.len(),
{
    if lines.len() == 0 {
        seq![]
    } else {
        joined_lines(lines.drop_last()) + lines.last().push('\n')
    }
}

/// A markdown link whose text and target are both `target`.
pub open spec fn note_link(target: Seq<char>) -> Seq<char> {
    "["@ + target + "]("@ + target + ")"@
}

/// The columns of an archived row: status `archived`, note linked to `target`.
pub open spec fn archived_columns(cols: Seq<Seq<char>>, target: Seq<char>) -> Seq<Seq<char>> {
    cols.update(2, "archived"@).update(4, note_link(target))
}

/// A table line holding the columns.
pub open spec fn table_line(cols: Seq<Seq<char>>) -> Seq<char> {
    "| "@ + join(cols, " | "@) + " |"@
}

/// The lines of `v`, as `lines_of` gives them.
pub fn lines_in(v: &Vec<char>) -> (r: Vec<Vec<char>>)
    ensures
        views(r@) == lines_of(v@),
{
    let pieces = split_range(v, 0, v.len(), '\n');
    assert(v@.subrange(0, v@.len() as int) == v@);
    proof {
        lemma_split_on_len(v@, '\n');
    }
    let ghost p = split_on(v@, '\n');
    let mut r: Vec<Vec<char>> = Vec::new();
    let last = pieces.len() - 1;
    let mut k: usize = 0;
    while k < last
        invariant
            last == pieces@.len() - 1,
            views(pieces@) == p,
            k <= last,
            views(r@) == p.drop_last().take(k as int).map_values(|l: Seq<char>| strip_cr(l)),
        decreases last - k,
    {
        let piece = &pieces[k];
        let n = piece.len();
        assert(piece@ == p[k as int]);
        let line = if n > 0 && piece[n - 1] == '\r' {
            assert(piece@.subrange(0, n - 1) == piece@.drop_last());
            copy_range(piece, 0, n - 1)
        } else {
            assert(piece@.subrange(0, n as int) == piece@);
            copy_range(piece, 0, n)
        };
        assert(line@ == strip_cr(p.drop_last()[k as int]));
        let ghost before = r@;
        proof {
            lemma_views_push(before, line);
        }
        r.push(line);
        assert(views(r@) =~= p.drop_last().take(k + 1).map_values(|l: Seq<char>| strip_cr(l)));
        k = k + 1;
    }
    assert(p.drop_last().take(last as int) == p.drop_last());
    if pieces[last].len() > 0 {
        let n = pieces[last].len();
        let tail = copy_range(&pieces[last], 0, n);
        assert(pieces[last as int]@.subrange(0, n as int) == pieces[last as int]@);
        let ghost before = r@;
        r.push(tail);
        assert(views(r@) =~= views(before).push(p.last()));
    }
    r
}

/// The columns of the table line `line`.
fn columns_of(line: &Vec<char>) -> (r: Vec<Vec<char>>)
    ensures
        views(r@) == columns(line@),
        r@.len() >= 1,
{
    let (a, b) = trim_bounds(line, 0, line.len(), TrimSet::Char('|'));
    assert(line@.subrange(0, line@.len() as int) == line@);
    let pieces = split_range(line, a, b, '|');
    proof {
        lemma_split_on_len(line@.subrange(a as int, b as int), '|');
    }
    let ghost p = views(pieces@);
    let mut r: Vec<Vec<char>> = Vec::new();
    let mut k: usize = 0;
    while k < pieces.len()
        invariant
            k <= pieces@.len(),
            views(pieces@) == p,
            views(r@) == p.take(k as int).map_values(|c: Seq<char>| trim(c, TrimSet::Space)),
        decreases pieces.len() - k,
    {
        let piece = &pieces[k];
        let (c0, c1) = trim_bounds(piece, 0, piece.len(), TrimSet::Space);
        assert(piece@.subrange(0, piece@.len() as int) == piece@);
        assert(piece@ == p[k as int]);
        let col = copy_range(piece, c0, c1);
        assert(col@ == trim(p[k as int], TrimSet::Space));
        let ghost before = r@;
        proof {
            lemma_views_push(before, col);
        }
        r.push(col);
        assert(views(r@) =~= p.take(k + 1).map_values(|c: Seq<char>| trim(c, TrimSet::Space)));
        k = k + 1;
    }
    assert(p.take(p.len() as int) == p);
    r
}

/// Appends `target` as a markdown link to itself.
fn push_note_link(s: &mut String, target: &Vec<char>)
    ensures
        final(s)@ == old(s)@ + note_link(target@),
{
    s.append("[");
    push_range(s, target, 0, target.len());
    s.append("](");
    push_range(s, target, 0, target.len());
    s.append(")");
    assert(target@.subrange(0, target@.len() as int) == target@);
    assert(s@ == old(s)@ + note_link(target@));
}

/// Appends the archived form of the row whose columns are `cols`.
fn push_archived_row(s: &mut String, cols: &Vec<Vec<char>>, target: &Vec<char>)
    requires
        cols@.len() >= 5,
    ensures
        final(s)@ == old(s)@ + table_line(archived_columns(views(cols@), target@)),
{
    let ghost want = archived_columns(views(cols@), target@);
    s.append("| ");
    let mut k: usize = 0;
    while k < cols.len()
        invariant
            k <= cols@.len(),
            cols@.len() >= 5,
            want.len() == cols@.len(),
            want == archived_columns(views(cols@), target@),
            s@ == old(s)@ + "| "@ + join(want.take(k as int), " | "@),
        decreases cols.len() - k,
    {
        let ghost pre = s@;
        if k > 0 {
            s.append(" | ");
        }
        let ghost mid = s@;
        proof {
            let u = views(cols@).update(2, "archived"@);
            assert(views(cols@).len() == cols@.len());
            assert(u[2] == "archived"@);
            assert(want == u.update(4, note_link(target@)));
            assert(want[k as int] == if k == 4 {
                note_link(target@)
            } else {
                u[k as int]
            });
            assert(u[k as int] == if k == 2 {
                "archived"@
            } else {
                cols@[k as int]@
            });
        }
        if k == 2 {
            s.append("archived");
            assert(want[k as int] == "archived"@);
        } else if k == 4 {
            push_note_link(s, target);
            assert(want[k as int] == note_link(target@));
        } else {
            push_range(s, &cols[k], 0, cols[k].len());
            assert(cols@[k as int]@.subrange(0, cols@[k as int]@.len() as int) == cols@[k as int]@);
            assert(want[k as int] == cols@[k as int]@);
        }
        proof {
            let t = want.take(k + 1);
            assert(t.drop_last() == want.take(k as int));
            assert(t.last() == want[k as int]);
            assert(s@ == mid + want[k as int]);
            if k == 0 {
                assert(join(t, " | "@) == want[0]);
                assert(s@ =~= old(s)@ + "| "@ + join(t, " | "@));
            } else {
                assert(join(t, " | "@) == join(want.take(k as int), " | "@) + " | "@ + want[k as int]);
                assert(s@ =~= old(s)@ + "| "@ + join(t, " | "@));
            }
        }
        k = k + 1;
    }
    s.append(" |");
    assert(want.take(cols@.len() as int) == want);
}

/// Rewrites the registry row of `id`: its status becomes `archived` and its
/// note column a link to `target`. The other lines stay as they were, each
/// ended by `\n`. A registry without a row of `id`, or whose first row of `id`
/// has fewer than five columns, is refused.
pub fn update_registry_entry(contents: &str, id: &str, target: &str) -> (r: Result<
    String,
    ProjectError,
>)
    ensures
        (forall|j: int| 0 <= j < lines_of(contents@).len() ==> !is_row_of(
            #[trigger] lines_of(contents@)[j],
            id@,
        )) ==> (r matches Err(ProjectError::RowNotFound { id: x }) && x@ == id@),
        forall|i: int|
            is_first_row(lines_of(contents@), id@, i) ==> {
                let cols = columns(lines_of(contents@)[i]);
                if cols.len() < 5 {
                    r matches Err(ProjectError::MalformedRow { id: x }) && x@ == id@
                } else {
                    r matches Ok(s) && s@ == joined_lines(
                        lines_of(contents@).update(i, table_line(archived_columns(cols, target@))),
                    )
                }
            },
{
    let v = chars_of(contents);
    let want = chars_of(id);
    let note = chars_of(target);
    let lines = lines_in(&v);
    let ghost ls = lines_of(contents@);
    let mut i: usize = 0;
    let mut found = false;
    let mut cols: Vec<Vec<char>> = Vec::new();
    while !found && i < lines.len()
        invariant
            views(lines@) == ls,
            i <= lines@.len(),
            want@ == id@,
            forall|j: int| 0 <= j < i ==> !is_row_of(#[trigger] ls[j], id@),
            found ==> i < lines@.len() && views(cols@) == columns(ls[i as int]) && is_row_of(
                ls[i as int],
                id@,
            ),
        decreases lines.len() - i + if found { 0int } else { 1int },
    {
        let c = columns_of(&lines[i]);
        assert(lines@[i as int]@ == ls[i as int]);
        assert(views(c@)[0] == c@[0]@);
        if same_chars(&c[0], &want) {
            found = true;
            cols = c;
        } else {
            i = i + 1;
        }
    }
    if !found {
        return Err(ProjectError::RowNotFound { id: id.to_string() });
    }
    assert(is_first_row(ls, id@, i as int));
    assert forall|i2: int| is_first_row(ls, id@, i2) implies i2 == i by {
        if i2 < i {
        } else if i2 > i {
            assert(is_row_of(ls[i as int], id@));
        }
    }
    if cols.len() < 5 {
        return Err(ProjectError::MalformedRow { id: id.to_string() });
    }
    let ghost new_lines = ls.update(i as int, table_line(archived_columns(views(cols@), note@)));
    let mut out = String::new();
    let mut k: usize = 0;
    while k < lines.len()
        invariant
            views(lines@) == ls,
            k <= lines@.len(),
            i < lines@.len(),
            cols@.len() >= 5,
            note@ == target@,
            new_lines == ls.update(i as int, table_line(archived_columns(views(cols@), note@))),
            out@ == joined_lines(new_lines.take(k as int)),
        decreases lines.len() - k,
    {
        if k == i {
            push_archived_row(&mut out, &cols, &note);
        } else {
            push_range(&mut out, &lines[k], 0, lines[k].len());
            assert(lines@[k as int]@.subrange(0, lines@[k as int]@.len() as int) == lines@[k as int]@);
        }
        crate::text::push_char(&mut out, '\n');
        assert(new_lines.take(k + 1).drop_last() == new_lines.take(k as int));
        k = k + 1;
    }
    assert(new_lines.take(lines@.len() as int) == new_lines);
    Ok(out)
}

} // verus!

verus! {

/// The text of capture group 1 in each successive non-overlapping match of
/// the regular expression `pattern` in `text`, in order (empty where group 1
/// took no part in a match); no match at all where `pattern` does not compile.
pub uninterp spec fn first_groups(pattern: Seq<char>, text: Seq<char>) -> Seq<Seq<char>>;

/// Relies on `regex::Regex::new`, which compiles `pattern`, and on
/// `Regex::captures_iter`, which yields the successive non-overlapping matches
/// in `text`, read through `Captures::get(1)`.
#[verifier::external_body]
fn regex_first_groups(pattern: &str, text: &str) -> (r: Vec<String>)
    ensures
        r.deep_view() == first_groups(pattern@, text@),
{
    match regex::Regex::new(pattern) {
        Ok(re) => re.captures_iter(text).map(
            |c| c.get(1).map_or(String::new(), |m| m.as_str().to_string()),
        ).collect(),
        Err(_) => Vec::new(),
    }
}

/// The marker of a registry identifier followed by its digits (Unicode
/// decimal digits, as the `regex` crate reads `\d`).
pub const ID_PATTERN: &'static str = "PROJ-(\\d+)";

/// The value of a digit character.
pub open spec fn digit_value(c: char) -> nat {
    ((c as u32) - 48) as nat
}

/// The number that a sequence of ASCII digits writes in decimal.
pub open spec fn decimal_value(s: Seq<char>) -> nat
    decreases s.len(),
{
    if s.len() == 0 {
        0
    } else {
        decimal_value(s.drop_last()) * 10 + digit_value(s.last())
    }
}

/// What `str::parse::<u32>` gives: an optional `+`, then at least one ASCII
/// digit and nothing else, for a value that fits in a `u32`.
pub open spec fn parsed_u32(s: Seq<char>) -> Option<u32> {
    let d = if s.len() > 0 && s[0] == '+' {
        s.drop_first()
    } else {
        s
    };
    if d.len() > 0 && crate::text::all_digits(d) && decimal_value(d) <= u32::MAX {
        Some(decimal_value(d) as u32)
    } else {
        None
    }
}

/// The largest number among the texts that parse as a `u32`; 0 where none does.
pub open spec fn largest_id(texts: Seq<Seq<char>>) -> nat
    decreases texts.len(),
{
    if texts.len() == 0 {
        0
    } else {
        let m = largest_id(texts.drop_last());
        match parsed_u32(texts.last()) {
            Some(n) => if n > m {
                n as nat
            } else {
                m
            },
            None => m,
        }
    }
}

proof fn lemma_decimal_value_prefix(s: Seq<char>, i: int)
    requires
        0 <= i <= s.len(),
    ensures
        decimal_value(s.take(i)) <= decimal_value(s),
    decreases s.len(),
{
    if i < s.len() {
        assert(s.drop_last().take(i) == s.take(i));
        lemma_decimal_value_prefix(s.drop_last(), i);
    } else {
        assert(s.take(i) == s);
    }
}

/// Reads a `u32` the way `str::parse::<u32>` does.
pub fn parse_u32(text: &str) -> (r: Option<u32>)
    ensures
        r == parsed_u32(text@),
{
    let v = chars_of(text);
    let start: usize = if v.len() > 0 && v[0] == '+' {
        1
    } else {
        0
    };
    let ghost d = if v@.len() > 0 && v@[0] == '+' {
        v@.drop_first()
    } else {
        v@
    };
    assert(d == v@.subrange(start as int, v@.len() as int));
    if start == v.len() {
        return None;
    }
    let mut acc: u64 = 0;
    let mut i: usize = start;
    while i < v.len()
        invariant
            start <= i <= v@.len(),
            v@ == text@,
            d == v@.subrange(start as int, v@.len() as int),
            d == if v@.len() > 0 && v@[0] == '+' {
                v@.drop_first()
            } else {
                v@
            },
            acc == decimal_value(d.take(i - start)),
            acc <= u32::MAX,
            forall|k: int| 0 <= k < i - start ==> crate::text::is_ascii_digit(#[trigger] d[k]),
        decreases v.len() - i,
    {
        let c = v[i];
        if !crate::text::char_is_ascii_digit(c) {
            assert(d[i - start] == c);
            assert(!crate::text::all_digits(d));
            return None;
        }
        let ghost t = d.take(i - start + 1);
        assert(t.drop_last() == d.take(i - start));
        assert(t.last() == c);
        acc = acc * 10 + ((c as u32) - 48) as u64;
        assert(acc == decimal_value(t));
        if acc > 0xFFFF_FFFF {
            proof {
                lemma_decimal_value_prefix(d, i - start + 1);
            }
            assert(decimal_value(d) > u32::MAX);
            return None;
        }
        i = i + 1;
    }
    assert(d.take(d.len() as int) == d);
    Some(acc as u32)
}

proof fn lemma_largest_id_bounds(texts: Seq<Seq<char>>)
    ensures
        forall|k: int|
            0 <= k < texts.len() ==> (parsed_u32(#[trigger] texts[k]) matches Some(n) ==> n
                <= largest_id(texts)),
    decreases texts.len(),
{
    if texts.len() > 0 {
        lemma_largest_id_bounds(texts.drop_last());
        assert forall|k: int|
            0 <= k < texts.len() implies (parsed_u32(#[trigger] texts[k]) matches Some(n) ==> n
            <= largest_id(texts)) by {
            if k < texts.len() - 1 {
                assert(texts[k] == texts.drop_last()[k]);
            }
        }
    }
}

/// One more than the largest identifier number among the captured digit texts
/// (1 where none parses), as a `u64` so that it cannot overflow. It exceeds
/// every number that the texts give.
pub fn next_id_from_captures(texts: &Vec<String>) -> (r: u64)
    ensures
        r == largest_id(texts.deep_view()) + 1,
        forall|k: int|
            0 <= k < texts@.len() ==> (parsed_u32(#[trigger] texts.deep_view()[k]) matches Some(n)
                ==> n < r),
{
    proof {
        lemma_largest_id_bounds(texts.deep_view());
    }
    let mut max_id: u32 = 0;
    let mut i: usize = 0;
    while i < texts.len()
        invariant
            i <= texts@.len(),
            max_id == largest_id(texts.deep_view().take(i as int)),
        decreases texts.len() - i,
    {
        let ghost t = texts.deep_view().take(i + 1);
        assert(t.drop_last() == texts.deep_view().take(i as int));
        assert(t.last() == texts[i as int]@);
        match parse_u32(texts[i].as_str()) {
            Some(n) => {
                if n > max_id {
                    max_id = n;
                }
            },
            None => {},
        }
        i = i + 1;
    }
    assert(texts.deep_view().take(texts@.len() as int) == texts.deep_view());
    max_id as u64 + 1
}

/// The next identifier number for a registry: one more than the largest
/// number written after a `PROJ-` marker anywhere in its text.
pub fn next_project_id(contents: &str) -> (r: u64)
    ensures
        r == largest_id(first_groups(ID_PATTERN@, contents@)) + 1,
{
    let texts = regex_first_groups(ID_PATTERN, contents);
    next_id_from_captures(&texts)
}

} // verus!
