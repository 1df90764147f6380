use vstd::prelude::*;

verus! {

/// An ASCII letter or digit.
pub open spec fn is_ascii_alnum(c: char) -> bool {
    ('a' <= c && c <= 'z') || ('A' <= c && c <= 'Z') || ('0' <= c && c <= '9')
}

/// An ASCII decimal digit.
pub open spec fn is_ascii_digit(c: char) -> bool {
    '0' <= c && c <= '9'
}

/// ASCII upper-case letters become lower case; every other character stays.
pub open spec fn ascii_lower(c: char) -> char {
    if 'A' <= c && c <= 'Z' {
        ((c as u8) + 32) as char
    } else {
        c
    }
}

/// Every character of `s` is an ASCII digit.
pub open spec fn all_digits(s: Seq<char>) -> bool {
    forall|i: int| 0 <= i < s.len() ==> is_ascii_digit(#[trigger] s[i])
}

/// Whether `c` is an ASCII letter or digit.
pub fn char_is_ascii_alnum(c: char) -> (r: bool)
    ensures
        r == is_ascii_alnum(c),
{
    ('a' <= c && c <= 'z') || ('A' <= c && c <= 'Z') || ('0' <= c && c <= '9')
}

/// Whether `c` is an ASCII decimal digit.
pub fn char_is_ascii_digit(c: char) -> (r: bool)
    ensures
        r == is_ascii_digit(c),
{
    '0' <= c && c <= '9'
}

/// `c` in ASCII lower case.
pub fn char_ascii_lower(c: char) -> (r: char)
    ensures
        r == ascii_lower(c),
{
    if 'A' <= c && c <= 'Z' {
        let b: u8 = c as u8;
        (b + 32) as char
    } else {
        c
    }
}

/// Relies on `String::push`: appends one character.
#[verifier::external_body]
pub(crate) fn push_char(s: &mut String, c: char)
    ensures
        final(s)@ == old(s)@.push(c),
{
    s.push(c)
}

/// The characters of `s`, in order.
pub fn chars_of(s: &str) -> (r: Vec<char>)
    ensures
        r@ == s@,
{
    let mut r: Vec<char> = Vec::new();
    for c in it: s.chars()
        invariant
            it.seq() == s@,
            r@ == it.seq().take(it.index() as int),
    {
        r.push(c);
    }
    r
}

/// Appends the characters `v[lo..hi]` to `s`.
pub fn push_range(s: &mut String, v: &Vec<char>, lo: usize, hi: usize)
    requires
        lo <= hi <= v@.len(),
    ensures
        final(s)@ == old(s)@ + v@.subrange(lo as int, hi as int),
{
    let mut i: usize = lo;
    while i < hi
        invariant
            lo <= i <= hi <= v@.len(),
            s@ == old(s)@ + v@.subrange(lo as int, i as int),
        decreases hi - i,
    {
        push_char(s, v[i]);
        assert(v@.subrange(lo as int, i + 1) == v@.subrange(lo as int, i as int).push(v@[i as int]));
        i = i + 1;
    }
}

} // verus!

verus! {

/// Which characters a trim removes from the two ends of a text.
#[derive(Clone, Copy)]
pub enum TrimSet {
    /// Exactly this character.
    Char(char),
    /// Unicode white space.
    Space,
}

/// Unicode white space, as `char::is_whitespace` defines it.
pub open spec fn is_white(c: char) -> bool {
    ('\u{9}' <= c && c <= '\u{d}') || c == ' ' || c == '\u{85}' || c == '\u{a0}' || c
        == '\u{1680}' || ('\u{2000}' <= c && c <= '\u{200a}') || c == '\u{2028}' || c
        == '\u{2029}' || c == '\u{202f}' || c == '\u{205f}' || c == '\u{3000}'
}

/// `t` removes `c`.
pub open spec fn trims(t: TrimSet, c: char) -> bool {
    match t {
        TrimSet::Char(x) => c == x,
        TrimSet::Space => is_white(c),
    }
}

impl TrimSet {
    /// Whether this set removes `c`.
    pub fn removes(&self, c: char) -> (r: bool)
        ensures
            r == trims(*self, c),
    {
        match self {
            TrimSet::Char(x) => c == *x,
            TrimSet::Space => {
                ('\u{9}' <= c && c <= '\u{d}') || c == ' ' || c == '\u{85}' || c == '\u{a0}' || c
                    == '\u{1680}' || ('\u{2000}' <= c && c <= '\u{200a}') || c == '\u{2028}' || c
                    == '\u{2029}' || c == '\u{202f}' || c == '\u{205f}' || c == '\u{3000}'
            },
        }
    }
}

/// `s` without the characters of `t` at its start.
pub open spec fn trim_start(s: Seq<char>, t: TrimSet) -> Seq<char>
    decreases s.len(),
{
    if s.len() > 0 && trims(t, s[0]) {
        trim_start(s.drop_first(), t)
    } else {
        s
    }
}

/// `s` without the characters of `t` at its end.
pub open spec fn trim_end(s: Seq<char>, t: TrimSet) -> Seq<char>
    decreases s.len(),
{
    if s.len() > 0 && trims(t, s.last()) {
        trim_end(s.drop_last(), t)
    } else {
        s
    }
}

/// `s` without the characters of `t` at either end.
pub open spec fn trim(s: Seq<char>, t: TrimSet) -> Seq<char> {
    trim_end(trim_start(s, t), t)
}

/// The bounds of `v[lo..hi]` once trimmed by `t`.
pub fn trim_bounds(v: &Vec<char>, lo: usize, hi: usize, t: TrimSet) -> (r: (usize, usize))
    requires
        lo <= hi <= v@.len(),
    ensures
        lo <= r.0 <= r.1 <= hi,
        trim(v@.subrange(lo as int, hi as int), t) == v@.subrange(r.0 as int, r.1 as int),
        r.0 < r.1 ==> !trims(t, v@[r.0 as int]) && !trims(t, v@[r.1 - 1]),
{
    let mut a: usize = lo;
    while a < hi && t.removes(v[a])
        invariant
            lo <= a <= hi <= v@.len(),
            trim_start(v@.subrange(lo as int, hi as int), t) == trim_start(
                v@.subrange(a as int, hi as int),
                t,
            ),
        decreases hi - a,
    {
        assert(v@.subrange(a as int, hi as int).drop_first() == v@.subrange(a + 1, hi as int));
        a = a + 1;
    }
    let mut b: usize = hi;
    while a < b && t.removes(v[b - 1])
        invariant
            lo <= a <= b <= hi <= v@.len(),
            trim_end(v@.subrange(a as int, hi as int), t) == trim_end(
                v@.subrange(a as int, b as int),
                t,
            ),
        decreases b - a,
    {
        assert(v@.subrange(a as int, b as int).drop_last() == v@.subrange(a as int, b - 1));
        b = b - 1;
    }
    (a, b)
}

} // verus!

verus! {

/// `w` stands in `v` from position `at` on.
pub open spec fn occurs_at(v: Seq<char>, at: int, w: Seq<char>) -> bool {
    0 <= at && at + w.len() <= v.len() && v.subrange(at, at + w.len()) == w
}

/// Whether `w` stands in `v` from position `at` on.
pub fn chars_occur_at(v: &Vec<char>, at: usize, w: &Vec<char>) -> (r: bool)
    ensures
        r == occurs_at(v@, at as int, w@),
{
    if at > v.len() || w.len() > v.len() - at {
        return false;
    }
    let mut i: usize = 0;
    while i < w.len()
        invariant
            at as int + w@.len() <= v@.len(),
            v@.len() == v.len(),
            i <= w@.len(),
            forall|k: int| 0 <= k < i ==> v@[at + k] == w@[k],
        decreases w.len() - i,
    {
        if v[at + i] != w[i] {
            assert(v@.subrange(at as int, at + w@.len())[i as int] != w@[i as int]);
            return false;
        }
        i = i + 1;
    }
    assert(v@.subrange(at as int, at + w@.len()) == w@);
    true
}

/// Whether every character of `v[lo..hi]` is an ASCII digit.
pub fn digits_in(v: &Vec<char>, lo: usize, hi: usize) -> (r: bool)
    requires
        lo <= hi <= v@.len(),
    ensures
        r == all_digits(v@.subrange(lo as int, hi as int)),
{
    let mut i: usize = lo;
    while i < hi
        invariant
            lo <= i <= hi <= v@.len(),
            forall|k: int| lo <= k < i ==> is_ascii_digit(#[trigger] v@[k]),
        decreases hi - i,
    {
        if !char_is_ascii_digit(v[i]) {
            assert(v@.subrange(lo as int, hi as int)[i - lo] == v@[i as int]);
            return false;
        }
        i = i + 1;
    }
    assert forall|k: int| 0 <= k < hi - lo implies is_ascii_digit(
        #[trigger] v@.subrange(lo as int, hi as int)[k],
    ) by {
        assert(v@.subrange(lo as int, hi as int)[k] == v@[lo + k]);
    }
    true
}

} // verus!

verus! {

/// The pieces of `s` between the occurrences of `sep`, as `str::split` gives
/// them: one more piece than there are separators.
pub open spec fn split_on(s: Seq<char>, sep: char) -> Seq<Seq<char>>
    decreases s.len(),
{
    if s.len() == 0 {
        seq![seq![]]
    } else {
        let r = split_on(s.drop_last(), sep);
        if s.last() == sep {
            r.push(seq![])
        } else {
            r.update(r.len() - 1, r.last().push(s.last()))
        }
    }
}

/// Splitting always gives at least one piece.
pub proof fn lemma_split_on_len(s: Seq<char>, sep: char)
    ensures
        split_on(s, sep).len() >= 1,
    decreases s.len(),
{
    if s.len() > 0 {
        lemma_split_on_len(s.drop_last(), sep);
    }
}

/// The character sequences that a vector of character vectors holds.
pub open spec fn views(v: Seq<Vec<char>>) -> Seq<Seq<char>> {
    v.map_values(|x: Vec<char>| x@)
}

/// Pushing a vector pushes its characters.
pub proof fn lemma_views_push(v: Seq<Vec<char>>, x: Vec<char>)
    ensures
        views(v.push(x)) == views(v).push(x@),
{
    assert(views(v.push(x)) =~= views(v).push(x@));
}

/// The pieces of `v[lo..hi]` between the occurrences of `sep`.
pub fn split_range(v: &Vec<char>, lo: usize, hi: usize, sep: char) -> (r: Vec<Vec<char>>)
    requires
        lo <= hi <= v@.len(),
    ensures
        views(r@) == split_on(v@.subrange(lo as int, hi as int), sep),
{
    let mut pieces: Vec<Vec<char>> = Vec::new();
    let mut cur: Vec<char> = Vec::new();
    let mut i: usize = lo;
    assert(v@.subrange(lo as int, lo as int) == Seq::<char>::empty());
    assert(views(pieces@).push(cur@) == seq![Seq::<char>::empty()]);
    while i < hi
        invariant
            lo <= i <= hi <= v@.len(),
            views(pieces@).push(cur@) == split_on(v@.subrange(lo as int, i as int), sep),
        decreases hi - i,
    {
        let ghost before = views(pieces@);
        let ghost s = v@.subrange(lo as int, i + 1);
        assert(s.drop_last() == v@.subrange(lo as int, i as int));
        proof {
            lemma_split_on_len(s.drop_last(), sep);
        }
        if v[i] == sep {
            let ghost c = cur@;
            pieces.push(cur);
            cur = Vec::new();
            assert(views(pieces@) =~= before.push(c));
            assert(views(pieces@).push(cur@) == split_on(s, sep));
        } else {
            cur.push(v[i]);
            assert(views(pieces@).push(cur@) == split_on(s, sep));
        }
        i = i + 1;
    }
    let ghost before = views(pieces@);
    let ghost c = cur@;
    pieces.push(cur);
    assert(views(pieces@) =~= before.push(c));
    pieces
}

/// Whether `a` and `b` hold the same characters.
pub fn same_chars(a: &Vec<char>, b: &Vec<char>) -> (r: bool)
    ensures
        r == (a@ == b@),
{
    if a.len() != b.len() {
        return false;
    }
    let r = chars_occur_at(a, 0, b);
    assert(a@.subrange(0, b@.len() as int) == a@);
    r
}

/// The characters `v[lo..hi]`.
pub fn copy_range(v: &Vec<char>, lo: usize, hi: usize) -> (r: Vec<char>)
    requires
        lo <= hi <= v@.len(),
    ensures
        r@ == v@.subrange(lo as int, hi as int),
{
    let mut r: Vec<char> = Vec::new();
    let mut i: usize = lo;
    while i < hi
        invariant
            lo <= i <= hi <= v@.len(),
            r@ == v@.subrange(lo as int, i as int),
        decreases hi - i,
    {
        r.push(v[i]);
        assert(v@.subrange(lo as int, i + 1) == v@.subrange(lo as int, i as int).push(v@[i as int]));
        i = i + 1;
    }
    r
}

/// The decimal digit of value `d`.
pub open spec fn digit_char(d: nat) -> char {
    ((d + 48) as u8) as char
}

/// The decimal writing of `n`, without leading zeros.
pub open spec fn decimal(n: nat) -> Seq<char>
    decreases n,
{
    if n < 10 {
        seq![digit_char(n)]
    } else {
        decimal(n / 10).push(digit_char(n % 10))
    }
}

/// Appends the decimal writing of `n` to `s`.
pub fn push_decimal(s: &mut String, n: u64)
    ensures
        final(s)@ == old(s)@ + decimal(n as nat),
    decreases n,
{
    if n >= 10 {
        push_decimal(s, n / 10);
    }
    let d: u8 = (n % 10) as u8;
    push_char(s, (d + 48) as char);
    assert(decimal(n as nat) == decimal(n as nat / 10).push(digit_char(n as nat % 10)) || n < 10);
}

} // verus!
