use vstd::prelude::*;

use crate::lifecycle::{archived_target, project_dir_name, registry_row};
use crate::registry::{
    archived_columns, columns, is_first_row, is_row_of, join, joined_lines, lines_of, note_link,
    strip_cr,
    table_line,
};
use crate::slug::{is_slug, is_slug_char, slug_of, slug_body};
use crate::text::{decimal, is_white, split_on, trim, trim_end, trim_start, TrimSet};

verus! {

/// No character of `s` is `c`.
pub open spec fn lacks(s: Seq<char>, c: char) -> bool {
    forall|i: int| 0 <= i < s.len() ==> #[trigger] s[i] != c
}

proof fn lemma_split_no_sep(s: Seq<char>, sep: char)
    requires
        lacks(s, sep),
    ensures
        split_on(s, sep) == seq![s],
    decreases s.len(),
{
    if s.len() > 0 {
        assert(lacks(s.drop_last(), sep));
        lemma_split_no_sep(s.drop_last(), sep);
        assert(s.drop_last().push(s.last()) == s);
        assert(seq![s.drop_last()].update(0, s.drop_last().push(s.last())) =~= seq![s]);
    } else {
        assert(s =~= Seq::<char>::empty());
    }
}

proof fn lemma_split_join(a: Seq<char>, b: Seq<char>, sep: char)
    ensures
        split_on(a + seq![sep] + b, sep) == split_on(a, sep) + split_on(b, sep),
    decreases b.len(),
{
    crate::text::lemma_split_on_len(a, sep);
    if b.len() == 0 {
        assert(a + seq![sep] + b == (a + seq![sep] + b).drop_last().push(sep));
        assert((a + seq![sep] + b).drop_last() == a);
        assert(split_on(a, sep).push(seq![]) == split_on(a, sep) + split_on(b, sep));
    } else {
        let s = a + seq![sep] + b;
        assert(s.drop_last() == a + seq![sep] + b.drop_last());
        lemma_split_join(a, b.drop_last(), sep);
        crate::text::lemma_split_on_len(b.drop_last(), sep);
        let l = split_on(a, sep);
        let m = split_on(b.drop_last(), sep);
        if b.last() == sep {
            assert(split_on(s, sep) == (l + m).push(seq![]));
            assert(split_on(b, sep) == m.push(seq![]));
            assert((l + m).push(seq![]) =~= l + m.push(seq![]));
        } else {
            assert(split_on(s, sep) == (l + m).update(
                (l + m).len() - 1,
                (l + m).last().push(b.last()),
            ));
            assert(split_on(b, sep) == m.update(m.len() - 1, m.last().push(b.last())));
            assert((l + m).update((l + m).len() - 1, (l + m).last().push(b.last())) =~= l
                + m.update(m.len() - 1, m.last().push(b.last())));
        }
    }
}

proof fn lemma_split_pieces_lack(s: Seq<char>, sep: char)
    ensures
        forall|k: int| 0 <= k < split_on(s, sep).len() ==> lacks(#[trigger] split_on(s, sep)[k], sep),
    decreases s.len(),
{
    if s.len() > 0 {
        lemma_split_pieces_lack(s.drop_last(), sep);
        crate::text::lemma_split_on_len(s.drop_last(), sep);
        let r = split_on(s.drop_last(), sep);
        if s.last() != sep {
            assert forall|k: int| 0 <= k < split_on(s, sep).len() implies lacks(
                #[trigger] split_on(s, sep)[k],
                sep,
            ) by {
                if k == r.len() - 1 {
                    assert(lacks(r[k], sep));
                    assert(split_on(s, sep)[k] == r[k].push(s.last()));
                }
            }
        }
    }
}

proof fn lemma_trim_start_suffix(s: Seq<char>, t: TrimSet)
    ensures
        trim_start(s, t).len() <= s.len(),
        trim_start(s, t) == s.skip(s.len() - trim_start(s, t).len()),
        trim_start(s, t).len() > 0 ==> !crate::text::trims(t, trim_start(s, t)[0]),
    decreases s.len(),
{
    if s.len() > 0 && crate::text::trims(t, s[0]) {
        lemma_trim_start_suffix(s.drop_first(), t);
        assert(s.drop_first().skip(s.drop_first().len() - trim_start(s, t).len()) == s.skip(
            s.len() - trim_start(s, t).len(),
        ));
    } else {
        assert(s.skip(0) == s);
    }
}

proof fn lemma_trim_end_prefix(s: Seq<char>, t: TrimSet)
    ensures
        trim_end(s, t).len() <= s.len(),
        trim_end(s, t) == s.take(trim_end(s, t).len() as int),
        trim_end(s, t).len() > 0 ==> !crate::text::trims(t, trim_end(s, t).last()),
    decreases s.len(),
{
    if s.len() > 0 && crate::text::trims(t, s.last()) {
        lemma_trim_end_prefix(s.drop_last(), t);
        assert(s.drop_last().take(trim_end(s, t).len() as int) == s.take(
            trim_end(s, t).len() as int,
        ));
    } else {
        assert(s.take(s.len() as int) == s);
    }
}

/// What trimming white space leaves: no white space at either end, and no
/// character that was not there.
proof fn lemma_trim_space_clean(s: Seq<char>, c: char)
    requires
        lacks(s, c),
    ensures
        trim(trim(s, TrimSet::Space), TrimSet::Space) == trim(s, TrimSet::Space),
        lacks(trim(s, TrimSet::Space), c),
{
    let a = trim_start(s, TrimSet::Space);
    let b = trim_end(a, TrimSet::Space);
    lemma_trim_start_suffix(s, TrimSet::Space);
    lemma_trim_end_prefix(a, TrimSet::Space);
    assert forall|i: int| 0 <= i < b.len() implies #[trigger] b[i] != c by {
        assert(b[i] == a[i]);
        assert(a[i] == s[s.len() - a.len() + i]);
    }
    if b.len() > 0 {
        assert(b[0] == a[0]);
        assert(trim_start(b, TrimSet::Space) == b);
        assert(trim_end(b, TrimSet::Space) == b);
    } else {
        assert(trim_start(b, TrimSet::Space) == b);
    }
}

/// A column as `table_line` writes it reads back as itself.
proof fn lemma_trim_padded(c: Seq<char>)
    requires
        trim(c, TrimSet::Space) == c,
    ensures
        trim(seq![' '] + c + seq![' '], TrimSet::Space) == c,
{
    let p = seq![' '] + c + seq![' '];
    assert(p.drop_first() == c + seq![' ']);
    let q = c + seq![' '];
    if c.len() > 0 {
        lemma_trim_start_suffix(c, TrimSet::Space);
        lemma_trim_end_prefix(trim_start(c, TrimSet::Space), TrimSet::Space);
        assert(!is_white(c[0]));
        assert(!is_white(c.last()));
        assert(trim_start(q, TrimSet::Space) == q);
        assert(q.drop_last() == c);
        assert(trim_end(c, TrimSet::Space) == c);
    } else {
        assert(q.drop_first() == c);
        assert(trim_start(q, TrimSet::Space) == trim_start(c, TrimSet::Space));
    }
}

} // verus!

verus! {

/// A column as a table line lays it out between two `|`.
pub open spec fn spaced(c: Seq<char>) -> Seq<char> {
    seq![' '] + c + seq![' ']
}

/// A column that reads back as itself: no `|`, no white space at either end.
pub open spec fn clean_column(c: Seq<char>) -> bool {
    lacks(c, '|') && trim(c, TrimSet::Space) == c
}

proof fn lemma_split_spaced_join(cs: Seq<Seq<char>>)
    requires
        cs.len() >= 1,
        forall|k: int| 0 <= k < cs.len() ==> lacks(#[trigger] cs[k], '|'),
    ensures
        split_on(spaced(join(cs, " | "@)), '|') == cs.map_values(|c: Seq<char>| spaced(c)),
    decreases cs.len(),
{
    reveal_strlit(" | ");
    if cs.len() == 1 {
        assert(lacks(spaced(cs[0]), '|'));
        lemma_split_no_sep(spaced(cs[0]), '|');
        assert(cs.map_values(|c: Seq<char>| spaced(c)) =~= seq![spaced(cs[0])]);
    } else {
        let d = cs.drop_last();
        assert forall|k: int| 0 <= k < d.len() implies lacks(#[trigger] d[k], '|') by {
            assert(d[k] == cs[k]);
        }
        lemma_split_spaced_join(d);
        let a = spaced(join(d, " | "@));
        let b = spaced(cs.last());
        assert(spaced(join(cs, " | "@)) =~= a + seq!['|'] + b);
        lemma_split_join(a, b, '|');
        assert(lacks(b, '|'));
        lemma_split_no_sep(b, '|');
        assert(cs.map_values(|c: Seq<char>| spaced(c)) =~= d.map_values(|c: Seq<char>| spaced(c)).push(
            b,
        ));
    }
}

/// Clean columns written as a table line read back as themselves.
proof fn lemma_columns_of_table_line(cs: Seq<Seq<char>>)
    requires
        cs.len() >= 1,
        forall|k: int| 0 <= k < cs.len() ==> clean_column(#[trigger] cs[k]),
    ensures
        columns(table_line(cs)) == cs,
{
    reveal_strlit("| ");
    reveal_strlit(" |");
    let j = join(cs, " | "@);
    let line = table_line(cs);
    assert(line =~= seq!['|'] + spaced(j) + seq!['|']);
    assert(line.drop_first() =~= spaced(j) + seq!['|']);
    assert(trim_start(line.drop_first(), TrimSet::Char('|')) == line.drop_first());
    assert(trim_start(line, TrimSet::Char('|')) == line.drop_first());
    assert(line.drop_first().drop_last() =~= spaced(j));
    assert(trim_end(spaced(j), TrimSet::Char('|')) == spaced(j));
    assert(trim(line, TrimSet::Char('|')) == spaced(j));
    assert forall|k: int| 0 <= k < cs.len() implies lacks(#[trigger] cs[k], '|') by {
        assert(clean_column(cs[k]));
    }
    lemma_split_spaced_join(cs);
    let pieces = cs.map_values(|c: Seq<char>| spaced(c));
    assert forall|k: int| 0 <= k < cs.len() implies #[trigger] trim(pieces[k], TrimSet::Space)
        == cs[k] by {
        assert(clean_column(cs[k]));
        lemma_trim_padded(cs[k]);
    }
    assert(columns(line) =~= cs);
}

/// The columns of any line are clean.
proof fn lemma_columns_clean(line: Seq<char>)
    ensures
        columns(line).len() >= 1,
        forall|k: int| 0 <= k < columns(line).len() ==> clean_column(#[trigger] columns(line)[k]),
{
    let p = split_on(trim(line, TrimSet::Char('|')), '|');
    crate::text::lemma_split_on_len(trim(line, TrimSet::Char('|')), '|');
    lemma_split_pieces_lack(trim(line, TrimSet::Char('|')), '|');
    assert forall|k: int| 0 <= k < columns(line).len() implies clean_column(
        #[trigger] columns(line)[k],
    ) by {
        assert(lacks(p[k], '|'));
        lemma_trim_space_clean(p[k], '|');
    }
}

proof fn lemma_decimal_digits(n: nat)
    ensures
        decimal(n).len() >= 1,
        forall|i: int| 0 <= i < decimal(n).len() ==> '0' <= #[trigger] decimal(n)[i] <= '9',
    decreases n,
{
    if n >= 10 {
        lemma_decimal_digits(n / 10);
    }
}

} // verus!

verus! {

proof fn lemma_registry_row_columns(
    id: nat,
    name: Seq<char>,
    status: Seq<char>,
    created: Seq<char>,
    dir: Seq<char>,
)
    ensures
        columns(registry_row(id, name, status, created, dir)).len() >= 5,
        columns(registry_row(id, name, status, created, dir))[0] == "PROJ-"@ + decimal(id),
{
    reveal_strlit("| PROJ-");
    reveal_strlit("PROJ-");
    reveal_strlit(" | ");
    reveal_strlit(" |");
    let row = registry_row(id, name, status, created, dir);
    let key = "PROJ-"@ + decimal(id);
    let link = note_link(dir + "/README.md"@);
    let x0 = spaced(key);
    let r4 = spaced(link);
    let r3 = spaced(created) + seq!['|'] + r4;
    let r2 = spaced(status) + seq!['|'] + r3;
    let r1 = spaced(name) + seq!['|'] + r2;
    let inner = x0 + seq!['|'] + r1;
    assert(row =~= seq!['|'] + inner + seq!['|']);
    assert(row.drop_first() =~= inner + seq!['|']);
    assert(trim_start(row.drop_first(), TrimSet::Char('|')) == row.drop_first());
    assert(trim_start(row, TrimSet::Char('|')) == row.drop_first());
    assert(row.drop_first().drop_last() =~= inner);
    assert(trim_end(inner, TrimSet::Char('|')) == inner);
    assert(trim(row, TrimSet::Char('|')) == inner);
    lemma_decimal_digits(id);
    assert(lacks(x0, '|')) by {
        assert forall|i: int| 0 <= i < x0.len() implies #[trigger] x0[i] != '|' by {
            if 1 <= i < 6 {
                assert(x0[i] == "PROJ-"@[i - 1]);
            } else if 6 <= i < x0.len() - 1 {
                assert(x0[i] == decimal(id)[i - 6]);
            }
        }
    }
    lemma_split_no_sep(x0, '|');
    lemma_split_join(x0, r1, '|');
    lemma_split_join(spaced(name), r2, '|');
    lemma_split_join(spaced(status), r3, '|');
    lemma_split_join(spaced(created), r4, '|');
    crate::text::lemma_split_on_len(spaced(name), '|');
    crate::text::lemma_split_on_len(spaced(status), '|');
    crate::text::lemma_split_on_len(spaced(created), '|');
    crate::text::lemma_split_on_len(r4, '|');
    assert(key[0] == 'P');
    assert(key.last() == decimal(id).last());
    assert(trim_start(key, TrimSet::Space) == key);
    assert(trim_end(key, TrimSet::Space) == key);
    lemma_trim_padded(key);
    assert(columns(row)[0] == trim(x0, TrimSet::Space));
}

} // verus!

verus! {

proof fn lemma_lacks_add(a: Seq<char>, b: Seq<char>, c: char)
    requires
        lacks(a, c),
        lacks(b, c),
    ensures
        lacks(a + b, c),
{
    assert forall|i: int| 0 <= i < (a + b).len() implies #[trigger] (a + b)[i] != c by {
        if i < a.len() {
            assert((a + b)[i] == a[i]);
        } else {
            assert((a + b)[i] == b[i - a.len()]);
        }
    }
}

proof fn lemma_lines_append(c: Seq<char>, row: Seq<char>)
    requires
        c.len() == 0 || c.last() == '\n',
        lacks(row, '\n'),
        row.len() > 0,
        row.last() != '\r',
    ensures
        lines_of(c + row + seq!['\n']) == lines_of(c).push(row),
{
    let t = c + row + seq!['\n'];
    lemma_split_no_sep(row, '\n');
    lemma_split_join(row, seq![], '\n');
    assert(row + seq!['\n'] + Seq::<char>::empty() == row + seq!['\n']);
    assert(split_on(row + seq!['\n'], '\n') == seq![row, seq![]]);
    if c.len() == 0 {
        assert(t == row + seq!['\n']);
        assert(lines_of(c) =~= Seq::<Seq<char>>::empty());
        assert(lines_of(t) =~= seq![strip_cr(row)]);
    } else {
        let c0 = c.drop_last();
        assert(c =~= c0 + seq!['\n'] + Seq::<char>::empty());
        lemma_split_join(c0, seq![], '\n');
        assert(t =~= c0 + seq!['\n'] + (row + seq!['\n']));
        lemma_split_join(c0, row + seq!['\n'], '\n');
        let front = split_on(c0, '\n');
        assert(split_on(c, '\n') == front + seq![Seq::<char>::empty()]);
        assert(split_on(t, '\n') == front + seq![row, seq![]]);
        assert((front + seq![Seq::<char>::empty()]).drop_last() =~= front);
        assert((front + seq![row, seq![]]).drop_last() =~= front.push(row));
        assert(lines_of(c) == front.map_values(|l: Seq<char>| strip_cr(l)));
        assert(lines_of(t) =~= front.map_values(|l: Seq<char>| strip_cr(l)).push(strip_cr(row)));
    }
}

} // verus!

verus! {

proof fn lemma_literal_lacks(s: &str, c: char)
    requires
        forall|i: int| 0 <= i < s@.len() ==> #[trigger] s@[i] != c,
    ensures
        lacks(s@, c),
{
}

/// Creating a project, then archiving it. The registry row of a new project
/// (identifier `id`, directory named for `slug`; name, status and date each on
/// one line) is appended to a registry text that ends with a line ending and
/// holds no row of that identifier; archiving
/// then rewrites the first row of the identifier, which is that new row. Read
/// back, the registry has exactly one row of the identifier: its status is
/// `archived` and its note links into the archived namespace.
pub proof fn create_then_archive(
    contents: Seq<char>,
    id: nat,
    name: Seq<char>,
    status: Seq<char>,
    created: Seq<char>,
    slug: Seq<char>,
    has_note: bool,
)
    requires
        contents.len() == 0 || contents.last() == '\n',
        forall|j: int|
            0 <= j < lines_of(contents).len() ==> !is_row_of(
                #[trigger] lines_of(contents)[j],
                "PROJ-"@ + decimal(id),
            ),
        lacks(name, '\n'),
        lacks(status, '\n'),
        lacks(created, '\n'),
        is_slug(slug),
    ensures
        ({
            let dir = project_dir_name(id, slug);
            let pid = "PROJ-"@ + decimal(id);
            let lines = lines_of(contents + registry_row(id, name, status, created, dir) + seq!['\n']);
            let i = lines_of(contents).len() as int;
            let target = archived_target(dir, has_note);
            let written = lines.update(i, table_line(archived_columns(columns(lines[i]), target)));
            let after = lines_of(joined_lines(written));
            &&& is_first_row(lines, pid, i)
            &&& columns(lines[i]).len() >= 5
            &&& after.len() == i + 1
            &&& forall|j: int| 0 <= j < after.len() ==> (is_row_of(#[trigger] after[j], pid) <==> j == i)
            &&& columns(after[i])[2] == "archived"@
            &&& columns(after[i])[4] == note_link(target)
            &&& target.take(21) == "../Archives/Projects/"@
        }),
{
    reveal_strlit("| PROJ-");
    reveal_strlit("| ");
    reveal_strlit(" | ");
    reveal_strlit(" |");
    reveal_strlit("[");
    reveal_strlit("](");
    reveal_strlit(")");
    reveal_strlit("/README.md");
    reveal_strlit("proj-");
    reveal_strlit("-");
    reveal_strlit("/");
    reveal_strlit("archived");
    reveal_strlit("../Archives/Projects/");
    let dir = project_dir_name(id, slug);
    let pid = "PROJ-"@ + decimal(id);
    let row = registry_row(id, name, status, created, dir);
    let target = archived_target(dir, has_note);
    lemma_decimal_digits(id);
    // The directory name holds neither `|` nor a line ending.
    assert forall|k: int| 0 <= k < slug.len() implies is_slug_char(#[trigger] slug[k]) by {}
    assert(lacks(decimal(id), '|'));
    assert(lacks(decimal(id), '\n'));
    assert(lacks(slug, '|'));
    assert(lacks(slug, '\n'));
    lemma_literal_lacks("proj-", '|');
    lemma_literal_lacks("proj-", '\n');
    lemma_literal_lacks("-", '|');
    lemma_literal_lacks("-", '\n');
    lemma_lacks_add("proj-"@, decimal(id), '|');
    lemma_lacks_add("proj-"@ + decimal(id), "-"@, '|');
    lemma_lacks_add("proj-"@ + decimal(id) + "-"@, slug, '|');
    lemma_lacks_add("proj-"@, decimal(id), '\n');
    lemma_lacks_add("proj-"@ + decimal(id), "-"@, '\n');
    lemma_lacks_add("proj-"@ + decimal(id) + "-"@, slug, '\n');
    // The row is one line.
    let link = note_link(dir + "/README.md"@);
    lemma_literal_lacks("/README.md", '\n');
    lemma_literal_lacks("[", '\n');
    lemma_literal_lacks("](", '\n');
    lemma_literal_lacks(")", '\n');
    lemma_literal_lacks("| PROJ-", '\n');
    lemma_literal_lacks(" | ", '\n');
    lemma_literal_lacks(" |", '\n');
    lemma_lacks_add(dir, "/README.md"@, '\n');
    let t = dir + "/README.md"@;
    lemma_lacks_add("["@, t, '\n');
    lemma_lacks_add("["@ + t, "]("@, '\n');
    lemma_lacks_add("["@ + t + "]("@, t, '\n');
    lemma_lacks_add("["@ + t + "]("@ + t, ")"@, '\n');
    let a1 = "| PROJ-"@ + decimal(id);
    lemma_lacks_add("| PROJ-"@, decimal(id), '\n');
    lemma_lacks_add(a1, " | "@, '\n');
    lemma_lacks_add(a1 + " | "@, name, '\n');
    lemma_lacks_add(a1 + " | "@ + name, " | "@, '\n');
    lemma_lacks_add(a1 + " | "@ + name + " | "@, status, '\n');
    lemma_lacks_add(a1 + " | "@ + name + " | "@ + status, " | "@, '\n');
    lemma_lacks_add(a1 + " | "@ + name + " | "@ + status + " | "@, created, '\n');
    lemma_lacks_add(a1 + " | "@ + name + " | "@ + status + " | "@ + created, " | "@, '\n');
    lemma_lacks_add(a1 + " | "@ + name + " | "@ + status + " | "@ + created + " | "@, link, '\n');
    lemma_lacks_add(
        a1 + " | "@ + name + " | "@ + status + " | "@ + created + " | "@ + link,
        " |"@,
        '\n',
    );
    assert(lacks(row, '\n'));
    assert(row.last() == '|');
    lemma_lines_append(contents, row);
    let lines = lines_of(contents + row + seq!['\n']);
    let i = lines_of(contents).len() as int;
    assert(lines[i] == row);
    lemma_registry_row_columns(id, name, status, created, dir);
    assert(is_row_of(row, pid));
    assert forall|j: int| 0 <= j < i implies !is_row_of(#[trigger] lines[j], pid) by {
        assert(lines[j] == lines_of(contents)[j]);
    }
    assert(is_first_row(lines, pid, i));
    // The rewritten row reads back as its new columns.
    let cols = columns(row);
    lemma_columns_clean(row);
    let tail: Seq<char> = if has_note {
        "/README.md"@
    } else {
        "/"@
    };
    lemma_literal_lacks("../Archives/Projects/", '|');
    lemma_literal_lacks("/README.md", '|');
    lemma_literal_lacks("/", '|');
    lemma_literal_lacks("[", '|');
    lemma_literal_lacks("](", '|');
    lemma_literal_lacks(")", '|');
    lemma_literal_lacks("archived", '|');
    lemma_lacks_add("../Archives/Projects/"@, dir, '|');
    lemma_lacks_add("../Archives/Projects/"@ + dir, tail, '|');
    assert(target == "../Archives/Projects/"@ + dir + tail);
    assert(lacks(target, '|'));
    lemma_lacks_add("["@, target, '|');
    lemma_lacks_add("["@ + target, "]("@, '|');
    lemma_lacks_add("["@ + target + "]("@, target, '|');
    lemma_lacks_add("["@ + target + "]("@ + target, ")"@, '|');
    let nl = note_link(target);
    assert(lacks(nl, '|'));
    assert(nl[0] == '[');
    assert(nl.last() == ')');
    assert(trim_start(nl, TrimSet::Space) == nl);
    assert(trim_end(nl, TrimSet::Space) == nl);
    assert(clean_column(nl));
    let arch = "archived"@;
    assert(trim_start(arch, TrimSet::Space) == arch);
    assert(trim_end(arch, TrimSet::Space) == arch);
    assert(clean_column(arch));
    let ac = archived_columns(cols, target);
    assert forall|k: int| 0 <= k < ac.len() implies clean_column(#[trigger] ac[k]) by {
        if k != 2 && k != 4 {
            assert(ac[k] == cols[k]);
        }
    }
    lemma_columns_of_table_line(ac);
    let written = lines.update(i, table_line(ac));
    assert(columns(written[i]) == ac);
    assert(ac[0] == pid);
    assert forall|j: int| 0 <= j < written.len() implies (is_row_of(#[trigger] written[j], pid)
        <==> j == i) by {
        if j < i {
            assert(written[j] == lines[j]);
        }
    }
    // Reading the written lines back.
    lemma_literal_lacks("archived", '\n');
    lemma_literal_lacks("../Archives/Projects/", '\n');
    lemma_lacks_add("../Archives/Projects/"@, dir, '\n');
    lemma_literal_lacks("/", '\n');
    lemma_lacks_add("../Archives/Projects/"@ + dir, tail, '\n');
    lemma_lacks_add("["@, target, '\n');
    lemma_lacks_add("["@ + target, "]("@, '\n');
    lemma_lacks_add("["@ + target + "]("@, target, '\n');
    lemma_lacks_add("["@ + target + "]("@ + target, ")"@, '\n');
    lemma_columns_lack(row, '\n');
    assert forall|k: int| 0 <= k < ac.len() implies lacks(#[trigger] ac[k], '\n') by {
        if k != 2 && k != 4 {
            assert(ac[k] == cols[k]);
        }
    }
    lemma_literal_lacks("| ", '\n');
    lemma_join_lacks(ac, " | "@, '\n');
    lemma_lacks_add("| "@, join(ac, " | "@), '\n');
    lemma_lacks_add("| "@ + join(ac, " | "@), " |"@, '\n');
    lemma_lines_lack(contents);
    assert forall|k: int| 0 <= k < written.len() implies lacks(#[trigger] written[k], '\n') by {
        if k < i {
            assert(written[k] == lines_of(contents)[k]);
        }
    }
    lemma_lines_of_joined(written);
    let after = lines_of(joined_lines(written));
    assert forall|j: int| 0 <= j < after.len() implies (is_row_of(#[trigger] after[j], pid) <==> j
        == i) by {
        assert(after[j] == strip_cr(written[j]));
        lemma_row_strip_cr(written[j], pid);
    }
    assert(table_line(ac).last() == '|');
    assert(after[i] == written[i]);
    assert(target.take(21) =~= "../Archives/Projects/"@);
}

} // verus!

verus! {

proof fn lemma_slug_body_prefix(s: Seq<char>, k: int)
    requires
        is_slug(s),
        0 <= k <= s.len(),
    ensures
        slug_body(s.take(k)) == s.take(k),
    decreases k,
{
    if k == 0 {
        assert(s.take(0) =~= Seq::<char>::empty());
    } else {
        lemma_slug_body_prefix(s, k - 1);
        let p = s.take(k);
        assert(p.drop_last() == s.take(k - 1));
        let c = s[k - 1];
        assert(is_slug_char(c));
        if c == '-' {
            assert(k - 1 > 0);
            assert(s[k - 2] != '-');
            assert(s.take(k - 1).last() == s[k - 2]);
        }
        assert(s.take(k - 1).push(c) == p);
    }
}

/// Slugifying a well-formed slug gives it back unchanged.
pub proof fn slug_of_slug(s: Seq<char>)
    requires
        is_slug(s),
    ensures
        slug_of(s) == s,
{
    lemma_slug_body_prefix(s, s.len() as int);
    assert(s.take(s.len() as int) == s);
    assert(trim_start(s, TrimSet::Char('-')) == s);
    assert(trim_end(s, TrimSet::Char('-')) == s);
}

} // verus!

verus! {

proof fn lemma_split_joined_lines(ls: Seq<Seq<char>>, x: Seq<char>)
    requires
        forall|k: int| 0 <= k < ls.len() ==> lacks(#[trigger] ls[k], '\n'),
        lacks(x, '\n'),
    ensures
        split_on(joined_lines(ls) + x, '\n') == ls.push(x),
    decreases ls.len(),
{
    if ls.len() == 0 {
        assert(joined_lines(ls) + x =~= x);
        lemma_split_no_sep(x, '\n');
        assert(ls.push(x) =~= seq![x]);
    } else {
        let d = ls.drop_last();
        assert forall|k: int| 0 <= k < d.len() implies lacks(#[trigger] d[k], '\n') by {
            assert(d[k] == ls[k]);
        }
        assert(lacks(ls.last(), '\n'));
        lemma_split_joined_lines(d, ls.last());
        assert(joined_lines(ls) + x =~= (joined_lines(d) + ls.last()) + seq!['\n'] + x);
        lemma_split_join(joined_lines(d) + ls.last(), x, '\n');
        lemma_split_no_sep(x, '\n');
        assert(d.push(ls.last()) =~= ls);
    }
}

/// Written lines read back as themselves, short of a `\r` at their end.
proof fn lemma_lines_of_joined(ls: Seq<Seq<char>>)
    requires
        forall|k: int| 0 <= k < ls.len() ==> lacks(#[trigger] ls[k], '\n'),
    ensures
        lines_of(joined_lines(ls)) == ls.map_values(|l: Seq<char>| strip_cr(l)),
{
    lemma_split_joined_lines(ls, seq![]);
    assert(joined_lines(ls) + Seq::<char>::empty() =~= joined_lines(ls));
    assert(ls.push(seq![]).drop_last() =~= ls);
}

proof fn lemma_first_piece(x: Seq<char>, k: int, sep: char)
    requires
        0 <= k <= x.len(),
        forall|j: int| 0 <= j < k ==> x[j] != sep,
        k == x.len() || x[k] == sep,
    ensures
        split_on(x, sep)[0] == x.take(k),
{
    assert(lacks(x.take(k), sep));
    lemma_split_no_sep(x.take(k), sep);
    if k == x.len() {
        assert(x.take(k) == x);
    } else {
        assert(x =~= x.take(k) + seq![sep] + x.skip(k + 1));
        lemma_split_join(x.take(k), x.skip(k + 1), sep);
    }
}

proof fn lemma_trim_start_push(m: Seq<char>, c: char, t: TrimSet)
    ensures
        (!crate::text::trims(t, c) || exists|j: int| 0 <= j < m.len() && !crate::text::trims(t, m[j]))
            ==> trim_start(m.push(c), t) == trim_start(m, t).push(c),
        (forall|j: int| 0 <= j < m.len() ==> crate::text::trims(t, m[j])) ==> trim_start(
            m.push(c),
            t,
        ) == trim_start(seq![c], t),
    decreases m.len(),
{
    if m.len() > 0 {
        lemma_trim_start_push(m.drop_first(), c, t);
        assert(m.push(c).drop_first() == m.drop_first().push(c));
        if crate::text::trims(t, m[0]) {
            assert forall|j: int|
                0 <= j < m.len() && !crate::text::trims(t, m[j]) implies exists|i: int|
                0 <= i < m.drop_first().len() && !crate::text::trims(t, m.drop_first()[i]) by {
                assert(j > 0);
                assert(m.drop_first()[j - 1] == m[j]);
            }
            assert((forall|j: int| 0 <= j < m.len() ==> crate::text::trims(t, m[j])) ==> (forall|
                j: int,
            | 0 <= j < m.drop_first().len() ==> crate::text::trims(t, m.drop_first()[j]))) by {
                assert forall|j: int|
                    (forall|j: int| 0 <= j < m.len() ==> crate::text::trims(t, m[j])) && 0 <= j
                        < m.drop_first().len() implies crate::text::trims(t, m.drop_first()[j]) by {
                    assert(m.drop_first()[j] == m[j + 1]);
                }
            }
        }
    } else {
        assert(m.push(c) == seq![c]);
    }
}

proof fn lemma_trim_end_removed(s: Seq<char>, t: TrimSet)
    ensures
        forall|j: int|
            trim_end(s, t).len() <= j < s.len() ==> crate::text::trims(t, #[trigger] s[j]),
    decreases s.len(),
{
    if s.len() > 0 && crate::text::trims(t, s.last()) {
        lemma_trim_end_removed(s.drop_last(), t);
        assert forall|j: int|
            trim_end(s, t).len() <= j < s.len() implies crate::text::trims(t, #[trigger] s[j]) by {
            if j < s.len() - 1 {
                assert(s.drop_last()[j] == s[j]);
            }
        }
    }
}

} // verus!

verus! {

proof fn first_index(s: Seq<char>, c: char) -> (k: int)
    ensures
        0 <= k <= s.len(),
        forall|j: int| 0 <= j < k ==> s[j] != c,
        k == s.len() || s[k] == c,
    decreases s.len(),
{
    if s.len() == 0 {
        0
    } else if s[0] == c {
        0
    } else {
        let k = first_index(s.drop_first(), c);
        assert forall|j: int| 0 <= j < k + 1 implies s[j] != c by {
            if j > 0 {
                assert(s[j] == s.drop_first()[j - 1]);
            }
        }
        k + 1
    }
}

/// A `\r` at the end of a line does not change its first column.
proof fn lemma_row_strip_cr(l: Seq<char>, id: Seq<char>)
    ensures
        is_row_of(strip_cr(l), id) == is_row_of(l, id),
{
    if l.len() > 0 && l.last() == '\r' {
        let p = TrimSet::Char('|');
        let sp = TrimSet::Space;
        let m = l.drop_last();
        assert(m.push('\r') == l);
        let ts = trim_start(m, p);
        lemma_trim_start_push(m, '\r', p);
        assert(trim_start(l, p) == ts.push('\r'));
        assert(ts.push('\r').drop_last() == ts);
        assert(trim(l, p) == ts.push('\r'));
        lemma_trim_end_prefix(ts, p);
        lemma_trim_end_removed(ts, p);
        let e = trim_end(ts, p).len() as int;
        assert(trim(m, p) == ts.take(e));
        crate::text::lemma_split_on_len(trim(l, p), '|');
        crate::text::lemma_split_on_len(trim(m, p), '|');
        assert(columns(l)[0] == trim(split_on(trim(l, p), '|')[0], sp));
        assert(columns(m)[0] == trim(split_on(trim(m, p), '|')[0], sp));
        let k = first_index(ts, '|');
        if k < ts.len() {
            lemma_first_piece(ts.push('\r'), k, '|');
            assert(ts.push('\r').take(k) == ts.take(k));
            if e < k {
                assert(ts[e] == '|');
            }
            lemma_first_piece(ts.take(e), k, '|');
            assert(ts.take(e).take(k) == ts.take(k));
            assert(split_on(trim(l, p), '|')[0] == split_on(trim(m, p), '|')[0]);
        } else {
            if e < ts.len() {
                assert(ts[e] == '|');
            }
            assert(ts.take(e) == ts);
            lemma_first_piece(ts, k, '|');
            lemma_first_piece(ts.push('\r'), k + 1, '|');
            assert(ts.push('\r').take(k + 1) == ts.push('\r'));
            assert(ts.take(k) == ts);
            lemma_trim_start_push(ts, '\r', sp);
            if exists|j: int| 0 <= j < ts.len() && !crate::text::trims(sp, ts[j]) {
                let y = trim_start(ts, sp);
                assert(y.push('\r').drop_last() == y);
                assert(trim_end(y.push('\r'), sp) == trim_end(y, sp));
            } else {
                lemma_trim_start_suffix(ts, sp);
                if trim_start(ts, sp).len() > 0 {
                    assert(trim_start(ts, sp)[0] == ts[ts.len() - trim_start(ts, sp).len()]);
                }
                assert(trim_start(ts, sp).len() == 0);
                assert(seq!['\r'].drop_first() =~= Seq::<char>::empty());
                assert(trim_start(seq!['\r'], sp) == trim_start(Seq::<char>::empty(), sp));
            }
            assert(trim(ts.push('\r'), sp) == trim(ts, sp));
        }
        assert(columns(l)[0] == columns(m)[0]);
        assert(strip_cr(l) == m);
    }
}

proof fn lemma_split_pieces_lack_other(s: Seq<char>, sep: char, c: char)
    requires
        lacks(s, c),
    ensures
        forall|k: int| 0 <= k < split_on(s, sep).len() ==> lacks(#[trigger] split_on(s, sep)[k], c),
    decreases s.len(),
{
    if s.len() > 0 {
        assert(lacks(s.drop_last(), c));
        lemma_split_pieces_lack_other(s.drop_last(), sep, c);
        crate::text::lemma_split_on_len(s.drop_last(), sep);
        let r = split_on(s.drop_last(), sep);
        if s.last() != sep {
            assert forall|k: int| 0 <= k < split_on(s, sep).len() implies lacks(
                #[trigger] split_on(s, sep)[k],
                c,
            ) by {
                if k == r.len() - 1 {
                    assert(lacks(r[k], c));
                    assert(split_on(s, sep)[k] == r[k].push(s.last()));
                }
            }
        }
    }
}

proof fn lemma_trim_lacks(s: Seq<char>, t: TrimSet, c: char)
    requires
        lacks(s, c),
    ensures
        lacks(trim(s, t), c),
{
    let a = trim_start(s, t);
    lemma_trim_start_suffix(s, t);
    lemma_trim_end_prefix(a, t);
    assert forall|i: int| 0 <= i < trim(s, t).len() implies #[trigger] trim(s, t)[i] != c by {
        assert(trim(s, t)[i] == a[i]);
        assert(a[i] == s[s.len() - a.len() + i]);
    }
}

proof fn lemma_columns_lack(line: Seq<char>, c: char)
    requires
        lacks(line, c),
    ensures
        forall|k: int| 0 <= k < columns(line).len() ==> lacks(#[trigger] columns(line)[k], c),
{
    let tp = trim(line, TrimSet::Char('|'));
    lemma_trim_lacks(line, TrimSet::Char('|'), c);
    lemma_split_pieces_lack_other(tp, '|', c);
    assert forall|k: int| 0 <= k < columns(line).len() implies lacks(#[trigger] columns(line)[k], c) by {
        lemma_trim_lacks(split_on(tp, '|')[k], TrimSet::Space, c);
    }
}

proof fn lemma_join_lacks(parts: Seq<Seq<char>>, sep: Seq<char>, c: char)
    requires
        forall|k: int| 0 <= k < parts.len() ==> lacks(#[trigger] parts[k], c),
        lacks(sep, c),
    ensures
        lacks(join(parts, sep), c),
    decreases parts.len(),
{
    if parts.len() > 1 {
        let d = parts.drop_last();
        assert forall|k: int| 0 <= k < d.len() implies lacks(#[trigger] d[k], c) by {
            assert(d[k] == parts[k]);
        }
        lemma_join_lacks(d, sep, c);
        assert(lacks(parts.last(), c));
        lemma_lacks_add(join(d, sep), sep, c);
        lemma_lacks_add(join(d, sep) + sep, parts.last(), c);
    } else if parts.len() == 0 {
    }
}

proof fn lemma_lines_lack(s: Seq<char>)
    ensures
        forall|k: int| 0 <= k < lines_of(s).len() ==> lacks(#[trigger] lines_of(s)[k], '\n'),
{
    let p = split_on(s, '\n');
    lemma_split_pieces_lack(s, '\n');
    crate::text::lemma_split_on_len(s, '\n');
    assert forall|k: int| 0 <= k < lines_of(s).len() implies lacks(#[trigger] lines_of(s)[k], '\n') by {
        if k < p.len() - 1 {
            assert(lines_of(s)[k] == strip_cr(p[k]));
            assert(lacks(p[k], '\n'));
            if p[k].len() > 0 && p[k].last() == '\r' {
                assert forall|i: int| 0 <= i < strip_cr(p[k]).len() implies #[trigger] strip_cr(
                    p[k],
                )[i] != '\n' by {
                    assert(strip_cr(p[k])[i] == p[k][i]);
                }
            }
        } else {
            assert(lines_of(s)[k] == p.last());
        }
    }
}

} // verus!
