use pman::{html_escape, render_search_results};

#[test]
fn html_escape_replaces_the_four_characters() {
    assert_eq!(html_escape("a & b < c > d \"e\" 'f'"), "a &amp; b &lt; c &gt; d &quot;e&quot; 'f'");
    assert_eq!(html_escape("&amp;"), "&amp;amp;");
    assert_eq!(html_escape(""), "");
}

#[test]
fn search_results_group_hits_by_file() {
    let output = "a.md:1:hello world\na.md-2-context\n--\na.md:9:say hello\nb/c.md:3:hello <there>\n";
    let html = render_search_results(output, "hello");
    assert_eq!(
        html,
        "<h1>Search results for \"hello\"</h1>\n\
<div class=\"search-result\"><a href=\"/a.md\">a.md</a><pre><mark>hello</mark> world\n...\nsay <mark>hello</mark></pre></div>\n\
<div class=\"search-result\"><a href=\"/b/c.md\">b/c.md</a><pre><mark>hello</mark> &lt;there&gt;</pre></div>\n"
    );
}

#[test]
fn search_results_escape_the_query() {
    let html = render_search_results("x.md:1:a<b\n", "<b");
    assert!(html.starts_with("<h1>Search results for \"&lt;b\"</h1>\n"));
    assert!(html.contains("<pre>a<mark>&lt;b</mark></pre>"));
}

#[test]
fn search_results_without_hits() {
    assert_eq!(render_search_results("", "x"), "<h1>No results for \"x\"</h1>");
    assert_eq!(render_search_results("no colon here\n--\n", "x"), "<h1>No results for \"x\"</h1>");
    assert_eq!(render_search_results("one:colon\n", "x"), "<h1>No results for \"x\"</h1>");
}

#[test]
fn search_results_mark_empty_query_everywhere() {
    let html = render_search_results("f.md:1:ab\n", "");
    assert!(html.contains("<pre><mark></mark>a<mark></mark>b<mark></mark></pre>"));
}
