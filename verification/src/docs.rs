//! Documentation of a source file: what a documentation generator collects,
//! and the text helpers that clean what it finds.

use vstd::prelude::*;
use vstd::string::*;
use crate::text::{
    chars_of, lines_of, push_chars, split_lines, starts_with, ends_with, trim, trim_range,
    trim_start,
};

verus! {

/// The documentation of one source file.
#[derive(Debug)]
pub struct Documentation {
    pub functions: Vec<Function>,
    pub includes: Vec<Include>,
    pub module_docs: Vec<String>,
}

/// A documented function.
#[derive(Debug)]
pub struct Function {
    pub name: String,
    pub params: Vec<String>,
    pub doc_comments: Vec<String>,
    pub is_public: bool,
    pub source: String,
}

/// An include directive of the file.
#[derive(Debug)]
pub struct Include {
    pub path: String,
    pub is_std: bool,
}

/// What stands for a character in HTML text: the five characters that HTML
/// reads as markup are written as entities.
pub open spec fn html_entity(c: char) -> Seq<char> {
    if c == '&' {
        "&amp;"@
    } else if c == '<' {
        "&lt;"@
    } else if c == '>' {
        "&gt;"@
    } else if c == '"' {
        "&quot;"@
    } else if c == '\'' {
        "&#39;"@
    } else {
        seq![c]
    }
}

/// The first `k` characters of a text, written for HTML.
pub open spec fn html_escaped(s: Seq<char>, k: nat) -> Seq<char>
    decreases k,
{
    if k == 0 || k > s.len() {
        Seq::empty()
    } else {
        html_escaped(s, (k - 1) as nat) + html_entity(s[k - 1])
    }
}

/// A text written for HTML: `&`, `<`, `>`, `"` and `'` become entities.
pub fn html_escape(s: &str) -> (out: String)
    ensures
        out@ == html_escaped(s@, s@.len()),
{
    let chars = chars_of(s);
    let mut out = String::new();
    let mut i: usize = 0;
    while i < chars.len()
        invariant
            i <= chars.len(),
            chars@ == s@,
            out@ == html_escaped(s@, i as nat),
        decreases chars.len() - i,
    {
        let c = chars[i];
        if c == '&' {
            out.append("&amp;");
        } else if c == '<' {
            out.append("&lt;");
        } else if c == '>' {
            out.append("&gt;");
        } else if c == '"' {
            out.append("&quot;");
        } else if c == '\'' {
            out.append("&#39;");
        } else {
            out.push(c);
            assert(out@ =~= html_escaped(s@, i as nat) + seq![c]);
        }
        i += 1;
    }
    out
}

/// A piece of a parameter list as a list: the trimmed piece, unless nothing
/// is left of it.
pub open spec fn kept(piece: Seq<char>) -> Seq<Seq<char>> {
    if trim(piece).len() > 0 {
        seq![trim(piece)]
    } else {
        Seq::empty()
    }
}

/// The parameters in `s[start..]`, where the scan for the next comma stands
/// at `i`.
pub open spec fn params_scan(s: Seq<char>, start: int, i: int) -> Seq<Seq<char>>
    decreases s.len() - i,
{
    if i < 0 || i >= s.len() {
        kept(s.subrange(start, s.len() as int))
    } else if s[i] == ',' {
        kept(s.subrange(start, i)) + params_scan(s, i + 1, i + 1)
    } else {
        params_scan(s, start, i + 1)
    }
}

/// The parameters of a list: the pieces between the commas, trimmed, those
/// that are empty left out.
pub open spec fn params_of(s: Seq<char>) -> Seq<Seq<char>> {
    params_scan(s, 0, 0)
}

/// The texts of a list of strings.
pub open spec fn strings(v: Seq<String>) -> Seq<Seq<char>> {
    Seq::new(v.len(), |i: int| v[i]@)
}

/// Adds the trimmed piece `v[a..b]` to the parameters, unless it is empty.
fn keep_piece(list: &mut Vec<String>, v: &Vec<char>, a: usize, b: usize)
    requires
        a <= b <= v.len(),
    ensures
        strings(final(list)@) == strings(old(list)@) + kept(v@.subrange(a as int, b as int)),
{
    let mut piece: Vec<char> = Vec::new();
    let mut i: usize = a;
    while i < b
        invariant
            a <= i <= b <= v.len(),
            piece@ == v@.subrange(a as int, i as int),
        decreases b - i,
    {
        piece.push(v[i]);
        assert(piece@ =~= v@.subrange(a as int, i + 1));
        i += 1;
    }
    let (from, to) = trim_range(&piece);
    if from < to {
        let mut text = String::new();
        push_chars(&mut text, &piece, from, to);
        assert(text@ =~= trim(piece@));
        list.push(text);
        assert(strings(list@) =~= strings(old(list)@) + kept(v@.subrange(a as int, b as int)));
    } else {
        assert(strings(list@) =~= strings(old(list)@) + kept(v@.subrange(a as int, b as int)));
    }
}

/// The parameters of a parameter list.
pub fn parse_params(params: &str) -> (list: Vec<String>)
    ensures
        strings(list@) == params_of(params@),
{
    let chars = chars_of(params);
    let n = chars.len();
    let mut list: Vec<String> = Vec::new();
    let mut start: usize = 0;
    let mut i: usize = 0;
    assert(strings(list@) =~= Seq::empty());
    while i < n
        invariant
            start <= i <= n == chars.len(),
            chars@ == params@,
            strings(list@) + params_scan(params@, start as int, i as int) == params_of(params@),
        decreases n - i,
    {
        if chars[i] == ',' {
            let ghost before = strings(list@);
            keep_piece(&mut list, &chars, start, i);
            assert(strings(list@) + params_scan(params@, i + 1, i + 1) =~= before + params_scan(
                params@,
                start as int,
                i as int,
            ));
            start = i + 1;
        }
        i += 1;
    }
    keep_piece(&mut list, &chars, start, n);
    list
}

/// A text without the prefix `p`, as often as it stands at the start.
pub open spec fn strip_prefixes(s: Seq<char>, p: Seq<char>) -> Seq<char>
    decreases s.len(),
{
    if p.len() > 0 && starts_with(s, p) {
        strip_prefixes(s.subrange(p.len() as int, s.len() as int), p)
    } else {
        s
    }
}

/// A text without the suffix `p`, as often as it stands at the end.
pub open spec fn strip_suffixes(s: Seq<char>, p: Seq<char>) -> Seq<char>
    decreases s.len(),
{
    if p.len() > 0 && ends_with(s, p) {
        strip_suffixes(s.subrange(0, s.len() - p.len()), p)
    } else {
        s
    }
}

/// A line without the stars at its start.
pub open spec fn strip_stars(s: Seq<char>) -> Seq<char>
    decreases s.len(),
{
    if s.len() > 0 && s[0] == '*' {
        strip_stars(s.drop_first())
    } else {
        s
    }
}

/// The first `k` lines of a comment's body, each without the stars that open
/// it and the whitespace after them, joined by line feeds.
pub open spec fn cleaned_lines(lines: Seq<Seq<char>>, k: nat) -> Seq<char>
    decreases k,
{
    if k == 0 || k > lines.len() {
        Seq::empty()
    } else if k == 1 {
        trim_start(strip_stars(lines[0]))
    } else {
        cleaned_lines(lines, (k - 1) as nat) + seq!['\n'] + trim_start(strip_stars(lines[k - 1]))
    }
}

/// The text of a documentation comment: without the `/**` that opens it and
/// the `*/` that closes it, each line without the stars that open it and the
/// whitespace after them, and the whole without whitespace around it. A star
/// that follows whitespace stays.
pub open spec fn cleaned(comment: Seq<char>) -> Seq<char> {
    let body = strip_suffixes(strip_prefixes(comment, "/**"@), "*/"@);
    trim(cleaned_lines(lines_of(body), lines_of(body).len()))
}

proof fn lemma_strip_prefixes(s: Seq<char>, p: Seq<char>, a: int)
    requires
        0 <= a <= s.len(),
        p.len() > 0,
    ensures
        starts_with(s.subrange(a, s.len() as int), p) ==> strip_prefixes(
            s.subrange(a, s.len() as int),
            p,
        ) == strip_prefixes(s.subrange(a + p.len(), s.len() as int), p),
        !starts_with(s.subrange(a, s.len() as int), p) ==> strip_prefixes(
            s.subrange(a, s.len() as int),
            p,
        ) == s.subrange(a, s.len() as int),
{
    let t = s.subrange(a, s.len() as int);
    if starts_with(t, p) {
        assert(t.subrange(p.len() as int, t.len() as int) =~= s.subrange(
            a + p.len(),
            s.len() as int,
        ));
    }
}

proof fn lemma_strip_suffixes(s: Seq<char>, p: Seq<char>, a: int, b: int)
    requires
        0 <= a <= b <= s.len(),
        p.len() > 0,
    ensures
        ends_with(s.subrange(a, b), p) ==> b - p.len() >= a && strip_suffixes(s.subrange(a, b), p)
            == strip_suffixes(s.subrange(a, b - p.len()), p),
        !ends_with(s.subrange(a, b), p) ==> strip_suffixes(s.subrange(a, b), p) == s.subrange(
            a,
            b,
        ),
{
    let t = s.subrange(a, b);
    if ends_with(t, p) {
        assert(t.subrange(0, t.len() - p.len()) =~= s.subrange(a, b - p.len()));
    }
}

proof fn lemma_strip_stars(s: Seq<char>, k: int)
    requires
        0 <= k <= s.len(),
        forall|j: int| 0 <= j < k ==> s[j] == '*',
        k < s.len() ==> s[k] != '*',
    ensures
        strip_stars(s) == s.subrange(k, s.len() as int),
    decreases k,
{
    if k > 0 {
        let t = s.drop_first();
        lemma_strip_stars(t, k - 1);
        assert(t.subrange(k - 1, t.len() as int) =~= s.subrange(k, s.len() as int));
    } else {
        assert(s.subrange(0, s.len() as int) =~= s);
    }
}

/// Tells whether `v[a..b]` starts with the two or three characters of `p`.
fn range_starts(v: &Vec<char>, a: usize, b: usize, p: &Vec<char>) -> (r: bool)
    requires
        a <= b <= v.len(),
    ensures
        r == starts_with(v@.subrange(a as int, b as int), p@),
{
    if p.len() > b - a {
        return false;
    }
    let mut i: usize = 0;
    while i < p.len()
        invariant
            i <= p.len() <= b - a,
            a <= b <= v.len(),
            forall|j: int| 0 <= j < i ==> v@[a + j] == p@[j],
        decreases p.len() - i,
    {
        if v[a + i] != p[i] {
            assert(v@.subrange(a as int, b as int).subrange(0, p.len() as int)[i as int] != p@[i as int]);
            return false;
        }
        i += 1;
    }
    assert(v@.subrange(a as int, b as int).subrange(0, p.len() as int) =~= p@);
    true
}

/// Tells whether `v[a..b]` ends with the characters of `p`.
fn range_ends(v: &Vec<char>, a: usize, b: usize, p: &Vec<char>) -> (r: bool)
    requires
        a <= b <= v.len(),
    ensures
        r == ends_with(v@.subrange(a as int, b as int), p@),
{
    if p.len() > b - a {
        return false;
    }
    let from = b - p.len();
    let ghost s = v@.subrange(a as int, b as int);
    let mut i: usize = 0;
    while i < p.len()
        invariant
            i <= p.len() <= b - a,
            a <= from <= b <= v.len(),
            from == b - p.len(),
            s == v@.subrange(a as int, b as int),
            forall|j: int| 0 <= j < i ==> v@[from + j] == p@[j],
        decreases p.len() - i,
    {
        if v[from + i] != p[i] {
            assert(s.subrange(s.len() - p.len(), s.len() as int)[i as int] != p@[i as int]);
            return false;
        }
        i += 1;
    }
    assert(s.subrange(s.len() - p.len(), s.len() as int) =~= p@);
    true
}

/// The text of a documentation comment.
pub fn clean_doc_comment(comment: &str) -> (out: String)
    ensures
        out@ == cleaned(comment@),
{
    proof {
        reveal_strlit("/**");
        reveal_strlit("*/");
    }
    let chars = chars_of(comment);
    let opening = chars_of("/**");
    let closing = chars_of("*/");
    let n = chars.len();
    let mut a: usize = 0;
    assert(chars@.subrange(0, n as int) =~= chars@);
    loop
        invariant
            a <= n == chars.len(),
            opening@ == "/**"@,
            opening@.len() == 3,
            strip_prefixes(chars@.subrange(a as int, n as int), opening@) == strip_prefixes(
                chars@,
                opening@,
            ),
        ensures
            a <= n,
            chars@.subrange(a as int, n as int) == strip_prefixes(chars@, opening@),
        decreases n - a,
    {
        proof {
            lemma_strip_prefixes(chars@, opening@, a as int);
        }
        if !range_starts(&chars, a, n, &opening) {
            break ;
        }
        a += 3;
    }
    let mut b: usize = n;
    loop
        invariant
            a <= b <= n == chars.len(),
            closing@ == "*/"@,
            closing@.len() == 2,
            strip_suffixes(chars@.subrange(a as int, b as int), closing@) == strip_suffixes(
                chars@.subrange(a as int, n as int),
                closing@,
            ),
        ensures
            a <= b <= n,
            chars@.subrange(a as int, b as int) == strip_suffixes(
                chars@.subrange(a as int, n as int),
                closing@,
            ),
        decreases b - a,
    {
        proof {
            lemma_strip_suffixes(chars@, closing@, a as int, b as int);
        }
        if !range_ends(&chars, a, b, &closing) {
            break ;
        }
        b -= 2;
    }
    let mut body: Vec<char> = Vec::new();
    let mut i: usize = a;
    while i < b
        invariant
            a <= i <= b <= chars.len(),
            body@ == chars@.subrange(a as int, i as int),
        decreases b - i,
    {
        body.push(chars[i]);
        assert(body@ =~= chars@.subrange(a as int, i + 1));
        i += 1;
    }
    let lines = split_lines(&body);
    let ghost texts = lines_of(body@);
    assert(Seq::new(lines@.len(), |k: int| lines@[k]@) =~= texts);
    let mut joined: Vec<char> = Vec::new();
    let mut k: usize = 0;
    while k < lines.len()
        invariant
            k <= lines.len(),
            lines@.len() == texts.len(),
            forall|j: int| 0 <= j < lines@.len() ==> (#[trigger] lines@[j])@ == texts[j],
            joined@ == cleaned_lines(texts, k as nat),
        decreases lines.len() - k,
    {
        if k > 0 {
            joined.push('\n');
        }
        let line = &lines[k];
        let mut stars: usize = 0;
        while stars < line.len() && line[stars] == '*'
            invariant
                stars <= line.len(),
                forall|j: int| 0 <= j < stars ==> line@[j] == '*',
            decreases line.len() - stars,
        {
            stars += 1;
        }
        proof {
            lemma_strip_stars(line@, stars as int);
        }
        let mut rest: Vec<char> = Vec::new();
        let mut j: usize = stars;
        while j < line.len()
            invariant
                stars <= j <= line.len(),
                rest@ == line@.subrange(stars as int, j as int),
            decreases line.len() - j,
        {
            rest.push(line[j]);
            assert(rest@ =~= line@.subrange(stars as int, j + 1));
            j += 1;
        }
        let (from, _) = trim_range(&rest);
        let ghost before = joined@;
        let mut m: usize = from;
        while m < rest.len()
            invariant
                from <= m <= rest.len(),
                joined@ == before + rest@.subrange(from as int, m as int),
            decreases rest.len() - m,
        {
            joined.push(rest[m]);
            assert(joined@ =~= before + rest@.subrange(from as int, m + 1));
            m += 1;
        }
        assert(joined@ =~= cleaned_lines(texts, (k + 1) as nat));
        k += 1;
    }
    let (from, to) = trim_range(&joined);
    let mut out = String::new();
    push_chars(&mut out, &joined, from, to);
    assert(out@ =~= trim(joined@));
    out
}

} // verus!
