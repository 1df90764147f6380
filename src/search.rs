use vstd::prelude::*;

use crate::registry::{join, lines_in, lines_of};
use crate::text::{chars_occur_at, chars_of, occurs_at, push_char, push_range, views};

verus! {

/// A character as HTML text: `&`, `<`, `>` and `"` become entities.
pub open spec fn escape_char(c: char) -> Seq<char> {
    if c == '&' {
        "&amp;"@
    } else if c == '<' {
        "&lt;"@
    } else if c == '>' {
        "&gt;"@
    } else if c == '"' {
        "&quot;"@
    } else {
        seq![c]
    }
}

/// A text as HTML text.
pub open spec fn html_escaped(s: Seq<char>) -> Seq<char>
    decreases s.len(),
{
    if s.len() == 0 {
        seq![]
    } else {
        html_escaped(s.drop_last()) + escape_char(s.last())
    }
}

fn push_escaped(out: &mut String, v: &Vec<char>)
    ensures
        final(out)@ == old(out)@ + html_escaped(v@),
{
    let mut i: usize = 0;
    while i < v.len()
        invariant
            i <= v@.len(),
            out@ == old(out)@ + html_escaped(v@.take(i as int)),
        decreases v.len() - i,
    {
        let c = v[i];
        if c == '&' {
            out.append("&amp;");
        } else if c == '<' {
            out.append("&lt;");
        } else if c == '>' {
            out.append("&gt;");
        } else if c == '"' {
            out.append("&quot;");
        } else {
            push_char(out, c);
        }
        assert(v@.take(i + 1).drop_last() == v@.take(i as int));
        i = i + 1;
    }
    assert(v@.take(v@.len() as int) == v@);
}

/// Escapes a text for HTML: `&`, `<`, `>` and `"` become `&amp;`, `&lt;`,
/// `&gt;` and `&quot;`.
pub fn html_escape(s: &str) -> (r: String)
    ensures
        r@ == html_escaped(s@),
{
    let mut r = String::new();
    push_escaped(&mut r, &chars_of(s));
    r
}

/// Every non-overlapping occurrence of `p` in `s`, from the left, replaced by
/// `r`, as `str::replace` does; an empty `p` occurs before every character
/// and at the end.
pub open spec fn replaced(s: Seq<char>, p: Seq<char>, r: Seq<char>) -> Seq<char>
    decreases s.len(),
{
    if p.len() == 0 {
        if s.len() == 0 {
            r
        } else {
            r + seq![s[0]] + replaced(s.drop_first(), p, r)
        }
    } else if s.len() < p.len() {
        s
    } else if s.take(p.len() as int) == p {
        r + replaced(s.skip(p.len() as int), p, r)
    } else {
        seq![s[0]] + replaced(s.drop_first(), p, r)
    }
}

fn push_replaced(out: &mut String, s: &Vec<char>, p: &Vec<char>, r: &Vec<char>)
    ensures
        final(out)@ == old(out)@ + replaced(s@, p@, r@),
{
    let mut i: usize = 0;
    assert(s@.skip(0) == s@);
    while i < s.len()
        invariant
            i <= s@.len(),
            old(out)@ + replaced(s@, p@, r@) == out@ + replaced(s@.skip(i as int), p@, r@),
        decreases s.len() - i,
    {
        let ghost rest = s@.skip(i as int);
        if p.len() == 0 {
            push_range(out, r, 0, r.len());
            push_char(out, s[i]);
            assert(r@.subrange(0, r@.len() as int) == r@);
            assert(rest.drop_first() == s@.skip(i + 1));
            assert(out@ + replaced(rest.drop_first(), p@, r@) =~= old(out)@ + replaced(s@, p@, r@));
            i = i + 1;
        } else if s.len() - i < p.len() {
            push_range(out, s, i, s.len());
            assert(s@.subrange(i as int, s@.len() as int) == rest);
            i = s.len();
            assert(s@.skip(i as int) =~= Seq::<char>::empty());
            assert(out@ + replaced(s@.skip(i as int), p@, r@) =~= old(out)@ + replaced(s@, p@, r@));
        } else if chars_occur_at(s, i, p) {
            push_range(out, r, 0, r.len());
            assert(r@.subrange(0, r@.len() as int) == r@);
            assert(rest.take(p@.len() as int) == s@.subrange(i as int, i + p@.len()));
            assert(rest.skip(p@.len() as int) == s@.skip(i + p@.len()));
            assert(out@ + replaced(rest.skip(p@.len() as int), p@, r@) =~= old(out)@ + replaced(
                s@,
                p@,
                r@,
            ));
            i = i + p.len();
        } else {
            push_char(out, s[i]);
            assert(rest.take(p@.len() as int) == s@.subrange(i as int, i + p@.len()));
            assert(rest.drop_first() == s@.skip(i + 1));
            assert(out@ + replaced(rest.drop_first(), p@, r@) =~= old(out)@ + replaced(s@, p@, r@));
            i = i + 1;
        }
    }
    if p.len() == 0 {
        push_range(out, r, 0, r.len());
        assert(r@.subrange(0, r@.len() as int) == r@);
    }
    assert(s@.skip(s@.len() as int) =~= Seq::<char>::empty());
}

} // verus!

verus! {

/// The position of the first `c` in `s`.
pub open spec fn find_char(s: Seq<char>, c: char) -> Option<int>
    decreases s.len(),
{
    if s.len() == 0 {
        None
    } else if s[0] == c {
        Some(0)
    } else {
        match find_char(s.drop_first(), c) {
            Some(k) => Some(k + 1),
            None => None,
        }
    }
}

proof fn lemma_find_char(s: Seq<char>, c: char, i: int)
    requires
        0 <= i <= s.len(),
        forall|j: int| 0 <= j < i ==> s[j] != c,
        i == s.len() || s[i] == c,
    ensures
        find_char(s, c) == if i == s.len() {
            None::<int>
        } else {
            Some(i)
        },
    decreases i,
{
    if i > 0 {
        lemma_find_char(s.drop_first(), c, i - 1);
    }
}

/// The position of the first `c` in `v` from `start` on.
fn find_char_from(v: &Vec<char>, start: usize, c: char) -> (r: Option<usize>)
    requires
        start <= v@.len(),
    ensures
        r matches Some(k) ==> start <= k < v@.len() && find_char(v@.skip(start as int), c) == Some(
            k - start,
        ),
        r is None ==> find_char(v@.skip(start as int), c) is None,
{
    let mut i: usize = start;
    while i < v.len() && v[i] != c
        invariant
            start <= i <= v@.len(),
            forall|j: int| start <= j < i ==> v@[j] != c,
        decreases v.len() - i,
    {
        i = i + 1;
    }
    proof {
        let s = v@.skip(start as int);
        assert forall|j: int| 0 <= j < i - start implies s[j] != c by {
            assert(s[j] == v@[start + j]);
        }
        lemma_find_char(s, c, i - start);
    }
    if i < v.len() {
        Some(i)
    } else {
        None
    }
}

/// `w` stands somewhere in `s`.
pub open spec fn contains(s: Seq<char>, w: Seq<char>) -> bool {
    exists|i: int| occurs_at(s, i, w)
}

fn text_contains(v: &Vec<char>, w: &Vec<char>) -> (r: bool)
    ensures
        r == contains(v@, w@),
{
    let mut i: usize = 0;
    while i <= v.len()
        invariant
            i <= v@.len() + 1,
            forall|j: int| 0 <= j < i ==> !occurs_at(v@, j, w@),
        decreases v.len() + 1 - i,
    {
        if chars_occur_at(v, i, w) {
            return true;
        }
        if i == v.len() {
            assert forall|j: int| occurs_at(v@, j, w@) implies j < i by {}
            return false;
        }
        i = i + 1;
    }
    false
}

/// The block of one file's hits.
pub open spec fn result_block(file: Seq<char>, hits: Seq<Seq<char>>) -> Seq<char> {
    "<div class=\"search-result\"><a href=\"/"@ + file + "\">"@ + file + "</a><pre>"@ + join(
        hits,
        "\n"@,
    ) + "</pre></div>\n"@
}

/// The page so far and the pending hits once the pending hits of `file` are
/// written out; nothing is written while no file or no hit is pending.
pub open spec fn flushed(page: Seq<char>, file: Option<Seq<char>>, hits: Seq<Seq<char>>) -> (
    Seq<char>,
    Seq<Seq<char>>,
) {
    match file {
        Some(f) => if hits.len() > 0 {
            (page + result_block(f, hits), seq![])
        } else {
            (page, hits)
        },
        None => (page, hits),
    }
}

/// A matched line's text, escaped, with each occurrence of the escaped query
/// marked.
pub open spec fn highlighted(content: Seq<char>, query: Seq<char>) -> Seq<char> {
    replaced(
        html_escaped(content),
        html_escaped(query),
        "<mark>"@ + html_escaped(query) + "</mark>"@,
    )
}

/// The page so far, the file whose hits are pending, and those hits.
pub type Scan = (Seq<char>, Option<Seq<char>>, Seq<Seq<char>>);

/// One line of ripgrep output read into the scan: `file:line:text` adds a hit
/// (writing out the previous file's hits when the file changes), and a `--`
/// separator adds `...` after a hit.
pub open spec fn scan_line(st: Scan, line: Seq<char>, query: Seq<char>) -> Scan {
    match find_char(line, ':') {
        Some(k) => {
            let rest = line.skip(k + 1);
            match find_char(rest, ':') {
                Some(k2) => {
                    let f = line.take(k);
                    let (page, hits) = if st.1 != Some(f) {
                        flushed(st.0, st.1, st.2)
                    } else {
                        (st.0, st.2)
                    };
                    (page, Some(f), hits.push(highlighted(rest.skip(k2 + 1), query)))
                },
                None => st,
            }
        },
        None => if occurs_at(line, 0, "--"@) && st.2.len() > 0 {
            (st.0, st.1, st.2.push("..."@))
        } else {
            st
        },
    }
}

/// The scan after each of the lines, from the heading `head` on.
pub open spec fn scan_lines(lines: Seq<Seq<char>>, query: Seq<char>, head: Seq<char>) -> Scan
    decreases lines.len(),
{
    if lines.len() == 0 {
        (head, None, seq![])
    } else {
        scan_line(scan_lines(lines.drop_last(), query, head), lines.last(), query)
    }
}

/// The HTML of a search: a heading, then for each file the hits that ripgrep
/// printed for it; a "no results" heading where no file block was written.
pub open spec fn search_results(output: Seq<char>, query: Seq<char>) -> Seq<char> {
    let head = "<h1>Search results for \""@ + html_escaped(query) + "\"</h1>\n"@;
    let st = scan_lines(lines_of(output), query, head);
    let page = flushed(st.0, st.1, st.2).0;
    if contains(page, "search-result"@) {
        page
    } else {
        "<h1>No results for \""@ + html_escaped(query) + "\"</h1>"@
    }
}

/// The characters of an optional character vector.
pub open spec fn opt_view(o: Option<Vec<char>>) -> Option<Seq<char>> {
    match o {
        Some(v) => Some(v@),
        None => None,
    }
}

fn flush(page: &mut String, file: &Option<Vec<char>>, hits: &mut Vec<Vec<char>>)
    ensures
        (final(page)@, views(final(hits)@)) == flushed(old(page)@, opt_view(*file), views(old(hits)@)),
{
    match file {
        Some(f) => {
            if hits.len() > 0 {
                page.append("<div class=\"search-result\"><a href=\"/");
                push_range(page, f, 0, f.len());
                page.append("\">");
                push_range(page, f, 0, f.len());
                page.append("</a><pre>");
                let ghost mid = page@;
                let ghost hs = views(hits@);
                let mut k: usize = 0;
                while k < hits.len()
                    invariant
                        k <= hits@.len(),
                        hs == views(hits@),
                        page@ == mid + join(hs.take(k as int), "\n"@),
                    decreases hits.len() - k,
                {
                    let ghost pre = page@;
                    if k > 0 {
                        page.append("\n");
                    }
                    push_range(page, &hits[k], 0, hits[k].len());
                    proof {
                        let t = hs.take(k + 1);
                        assert(hits@[k as int]@.subrange(0, hits@[k as int]@.len() as int)
                            == hits@[k as int]@);
                        assert(hs[k as int] == hits@[k as int]@);
                        assert(t.drop_last() == hs.take(k as int));
                        if k == 0 {
                            assert(join(t, "\n"@) == hs[0]);
                        }
                        assert(page@ =~= mid + join(t, "\n"@));
                    }
                    k = k + 1;
                }
                assert(hs.take(hs.len() as int) == hs);
                page.append("</pre></div>\n");
                assert(f@.subrange(0, f@.len() as int) == f@);
                hits.clear();
                assert(views(hits@) =~= Seq::<Seq<char>>::empty());
                assert(page@ =~= old(page)@ + result_block(f@, hs));
            }
        },
        None => {},
    }
}

} // verus!

verus! {

/// Renders ripgrep's `file:line:text` output for `query` as HTML: a heading,
/// one block per file with its hits (the query marked in each, `...` between
/// separated groups), or a "no results" heading where no block was written.
pub fn render_search_results(output: &str, query: &str) -> (r: String)
    ensures
        r@ == search_results(output@, query@),
{
    let q = chars_of(query);
    let eq_text = html_escape(query);
    let eq = chars_of(eq_text.as_str());
    let mut mark = String::from_str("<mark>");
    mark.append(eq_text.as_str());
    mark.append("</mark>");
    let mark_chars = chars_of(mark.as_str());
    let dashes = chars_of("--");
    let dots = chars_of("...");

    let mut page = String::from_str("<h1>Search results for \"");
    page.append(eq_text.as_str());
    page.append("\"</h1>\n");
    let ghost head = page@;
    let mut file: Option<Vec<char>> = None;
    let mut hits: Vec<Vec<char>> = Vec::new();

    let text = chars_of(output);
    let lines = lines_in(&text);
    let ghost ls = lines_of(output@);
    let mut i: usize = 0;
    assert(views(hits@) =~= Seq::<Seq<char>>::empty());
    while i < lines.len()
        invariant
            i <= lines@.len(),
            views(lines@) == ls,
            q@ == query@,
            eq@ == html_escaped(query@),
            mark_chars@ == "<mark>"@ + html_escaped(query@) + "</mark>"@,
            dashes@ == "--"@,
            dots@ == "..."@,
            (page@, opt_view(file), views(hits@)) == scan_lines(ls.take(i as int), query@, head),
        decreases lines.len() - i,
    {
        let line = &lines[i];
        let n = line.len();
        assert(line@.len() == n);
        assert(line@ == ls[i as int]);
        assert(ls.take(i + 1).drop_last() == ls.take(i as int));
        assert(line@.skip(0) == line@);
        match find_char_from(line, 0, ':') {
            Some(k) => {
                match find_char_from(line, k + 1, ':') {
                    Some(k2) => {
                        let f = crate::text::copy_range(line, 0, k);
                        assert(f@ == line@.take(k as int));
                        let same = match &file {
                            Some(cur) => crate::text::same_chars(cur, &f),
                            None => false,
                        };
                        if !same {
                            flush(&mut page, &file, &mut hits);
                        }
                        let content = crate::text::copy_range(line, k2 + 1, line.len());
                        assert(content@ == line@.skip(k + 1).skip(k2 - k));
                        let mut esc = String::new();
                        push_escaped(&mut esc, &content);
                        let esc_chars = chars_of(esc.as_str());
                        let mut hl = String::new();
                        push_replaced(&mut hl, &esc_chars, &eq, &mark_chars);
                        let hl_chars = chars_of(hl.as_str());
                        let ghost before = hits@;
                        hits.push(hl_chars);
                        proof {
                            crate::text::lemma_views_push(before, hl_chars);
                        }
                        file = Some(f);
                    },
                    None => {},
                }
            },
            None => {
                if chars_occur_at(line, 0, &dashes) && hits.len() > 0 {
                    let ghost before = hits@;
                    let d = dots.clone();
                    proof {
                        assert(d@ == dots@);
                        crate::text::lemma_views_push(before, d);
                    }
                    hits.push(d);
                }
            },
        }
        i = i + 1;
    }
    assert(ls.take(ls.len() as int) == ls);
    flush(&mut page, &file, &mut hits);
    let page_chars = chars_of(page.as_str());
    if text_contains(&page_chars, &chars_of("search-result")) {
        page
    } else {
        let mut none = String::from_str("<h1>No results for \"");
        none.append(eq_text.as_str());
        none.append("\"</h1>");
        none
    }
}

} // verus!
