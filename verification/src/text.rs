//! Characters and strings: the few facts about `std` text handling that the
//! compiler relies on, and verified helpers built from them.

use vstd::prelude::*;
use vstd::string::*;

verus! {

/// `String::push` of the standard library. The claim: after the call the
/// string holds what it held before, followed by the one character.
pub assume_specification[ String::push ](s: &mut String, ch: char)
    ensures
        final(s)@ == old(s)@.push(ch),
;

/// `==` on `str` of the standard library. The claim: two strings are equal
/// exactly when they hold the same characters in the same order.
pub assume_specification[ <str as PartialEq>::eq ](a: &str, b: &str) -> (r: bool)
    ensures
        r == (a@ == b@),
;

/// What `char::is_whitespace` answers for a character outside ASCII: whether
/// Unicode gives the character the property `White_Space`.
pub uninterp spec fn unicode_white_space(c: char) -> bool;

/// Whitespace as `char::is_whitespace` sees it: within ASCII the space and the
/// controls U+0009 to U+000D, beyond ASCII whatever Unicode lists as `White_Space`.
pub open spec fn is_space(c: char) -> bool {
    if (c as u32) < 128 {
        c == ' ' || ('\t' <= c && c <= '\r')
    } else {
        unicode_white_space(c)
    }
}

/// `char::is_whitespace` of the standard library. The claim: within ASCII
/// the answer is yes for the space and for U+0009 to U+000D and no for every
/// other character; outside ASCII it is what `unicode_white_space` names.
pub assume_specification[ char::is_whitespace ](c: char) -> (r: bool)
    ensures
        r == if (c as u32) < 128 {
            is_space(c)
        } else {
            unicode_white_space(c)
        },
;

/// The texts of a list of strings.
pub open spec fn texts(v: Seq<String>) -> Seq<Seq<char>> {
    Seq::new(v.len(), |i: int| v[i]@)
}

/// The texts of a list of pairs of strings.
pub open spec fn text_pairs(v: Seq<(String, String)>) -> Seq<(Seq<char>, Seq<char>)> {
    Seq::new(v.len(), |i: int| (v[i].0@, v[i].1@))
}

/// Whether a text starts with another.
pub open spec fn starts_with(s: Seq<char>, prefix: Seq<char>) -> bool {
    s.len() >= prefix.len() && s.subrange(0, prefix.len() as int) == prefix
}

/// Whether a text ends with another.
pub open spec fn ends_with(s: Seq<char>, suffix: Seq<char>) -> bool {
    s.len() >= suffix.len() && s.subrange(s.len() - suffix.len(), s.len() as int) == suffix
}

/// The character for a decimal digit.
pub open spec fn digit(d: nat) -> char {
    (48 + d) as char
}

/// The decimal numeral of a natural number, without leading zeros.
pub open spec fn decimal(n: nat) -> Seq<char>
    decreases n,
{
    if n < 10 {
        seq![digit(n)]
    } else {
        decimal(n / 10).push(digit(n % 10))
    }
}

/// The decimal numeral of an integer, with a leading `-` when negative.
pub open spec fn decimal_int(n: int) -> Seq<char> {
    if n < 0 {
        seq!['-'] + decimal((-n) as nat)
    } else {
        decimal(n as nat)
    }
}

/// Appends the decimal numeral of `n`.
pub fn push_decimal(out: &mut String, n: u128)
    ensures
        final(out)@ == old(out)@ + decimal(n as nat),
    decreases n,
{
    if n >= 10 {
        push_decimal(out, n / 10);
    }
    let d: u8 = (n % 10) as u8;
    out.push((48u8 + d) as char);
    assert(final(out)@ =~= old(out)@ + decimal(n as nat));
}

/// Appends the decimal numeral of a signed number.
pub fn push_decimal_int(out: &mut String, n: i64)
    ensures
        final(out)@ == old(out)@ + decimal_int(n as int),
{
    if n < 0 {
        out.push('-');
        let m: u128 = (-(n as i128)) as u128;
        push_decimal(out, m);
        assert(final(out)@ =~= old(out)@ + decimal_int(n as int));
    } else {
        push_decimal(out, n as u128);
    }
}

/// The characters of a string, in order.
pub fn chars_of(s: &str) -> (v: Vec<char>)
    ensures
        v@ == s@,
{
    let mut v: Vec<char> = Vec::new();
    for c in it: s.chars()
        invariant
            v@ == it.seq().take(it.index() as int),
            it.seq() == s@,
    {
        v.push(c);
    }
    v
}

/// Appends the characters `v[from..to]`.
pub fn push_chars(out: &mut String, v: &Vec<char>, from: usize, to: usize)
    requires
        from <= to <= v.len(),
    ensures
        final(out)@ == old(out)@ + v@.subrange(from as int, to as int),
{
    let mut i: usize = from;
    while i < to
        invariant
            from <= i <= to <= v.len(),
            out@ == old(out)@ + v@.subrange(from as int, i as int),
        decreases to - i,
    {
        out.push(v[i]);
        assert(v@.subrange(from as int, i as int).push(v@[i as int]) =~= v@.subrange(
            from as int,
            i + 1,
        ));
        i += 1;
    }
}

/// The text without its leading whitespace.
pub open spec fn trim_start(s: Seq<char>) -> Seq<char>
    decreases s.len(),
{
    if s.len() > 0 && is_space(s[0]) {
        trim_start(s.drop_first())
    } else {
        s
    }
}

/// The text without its trailing whitespace.
pub open spec fn trim_end(s: Seq<char>) -> Seq<char>
    decreases s.len(),
{
    if s.len() > 0 && is_space(s.last()) {
        trim_end(s.drop_last())
    } else {
        s
    }
}

/// The text without leading and trailing whitespace, as `str::trim` gives it.
pub open spec fn trim(s: Seq<char>) -> Seq<char> {
    trim_end(trim_start(s))
}

proof fn lemma_trim_start_range(s: Seq<char>, a: int, b: int, k: int)
    requires
        0 <= a <= k <= b <= s.len(),
        forall|j: int| a <= j < k ==> is_space(s[j]),
        k < b ==> !is_space(s[k]),
    ensures
        trim_start(s.subrange(a, b)) == s.subrange(k, b),
    decreases k - a,
{
    let t = s.subrange(a, b);
    if a < k {
        assert(t[0] == s[a]);
        assert(t.drop_first() =~= s.subrange(a + 1, b));
        lemma_trim_start_range(s, a + 1, b, k);
    } else if k < b {
        assert(t[0] == s[k]);
    }
}

proof fn lemma_trim_end_range(s: Seq<char>, a: int, b: int, k: int)
    requires
        0 <= a <= k <= b <= s.len(),
        forall|j: int| k <= j < b ==> is_space(s[j]),
        a < k ==> !is_space(s[k - 1]),
    ensures
        trim_end(s.subrange(a, b)) == s.subrange(a, k),
    decreases b - k,
{
    let t = s.subrange(a, b);
    if k < b {
        assert(t.last() == s[b - 1]);
        assert(t.drop_last() =~= s.subrange(a, b - 1));
        lemma_trim_end_range(s, a, b - 1, k);
    } else if a < k {
        assert(t.last() == s[k - 1]);
    }
}

/// The range of `v` that is left when leading and trailing whitespace is
/// taken away.
pub fn trim_range(v: &Vec<char>) -> (r: (usize, usize))
    ensures
        r.0 <= r.1 <= v.len(),
        v@.subrange(r.0 as int, r.1 as int) == trim(v@),
        v@.subrange(r.0 as int, v.len() as int) == trim_start(v@),
{
    let n = v.len();
    let mut a: usize = 0;
    while a < n && v[a].is_whitespace()
        invariant
            a <= n == v.len(),
            forall|j: int| 0 <= j < a ==> is_space(v@[j]),
        decreases n - a,
    {
        a += 1;
    }
    let mut b: usize = n;
    while b > a && v[b - 1].is_whitespace()
        invariant
            a <= b <= n == v.len(),
            forall|j: int| b <= j < n ==> is_space(v@[j]),
        decreases b,
    {
        b -= 1;
    }
    proof {
        assert(v@.subrange(0, n as int) =~= v@);
        lemma_trim_start_range(v@, 0, n as int, a as int);
        lemma_trim_end_range(v@, a as int, n as int, b as int);
    }
    (a, b)
}

/// Appends the text of `v` without its leading and trailing whitespace.
pub fn push_trimmed(out: &mut String, v: &Vec<char>)
    ensures
        final(out)@ == old(out)@ + trim(v@),
{
    let (a, b) = trim_range(v);
    push_chars(out, v, a, b);
}

/// A line without the carriage return that stood before its line feed.
pub open spec fn strip_cr(s: Seq<char>) -> Seq<char> {
    if s.len() > 0 && s.last() == '\r' {
        s.drop_last()
    } else {
        s
    }
}

/// The lines of `s[start..]`, where the scan for the next line feed stands at `i`.
pub open spec fn lines_scan(s: Seq<char>, start: int, i: int) -> Seq<Seq<char>>
    decreases s.len() - i,
{
    if i >= s.len() {
        if start < s.len() {
            seq![s.subrange(start, s.len() as int)]
        } else {
            Seq::empty()
        }
    } else if s[i] == '\n' {
        seq![strip_cr(s.subrange(start, i))] + lines_scan(s, i + 1, i + 1)
    } else {
        lines_scan(s, start, i + 1)
    }
}

/// The lines of a text, as `str::lines` gives them: split at line feeds, a
/// carriage return before a line feed dropped, no line for a final line feed.
pub open spec fn lines_of(s: Seq<char>) -> Seq<Seq<char>> {
    lines_scan(s, 0, 0)
}

/// The lines of a text, each as a vector of characters.
pub fn split_lines(v: &Vec<char>) -> (lines: Vec<Vec<char>>)
    ensures
        lines@.len() == lines_of(v@).len(),
        forall|k: int| 0 <= k < lines@.len() ==> (#[trigger] lines@[k])@ == lines_of(v@)[k],
{
    let n = v.len();
    let mut lines: Vec<Vec<char>> = Vec::new();
    let mut current: Vec<char> = Vec::new();
    let mut start: usize = 0;
    let mut i: usize = 0;
    let ghost mut done: Seq<Seq<char>> = Seq::empty();
    while i < n
        invariant
            start <= i <= n == v.len(),
            current@ == v@.subrange(start as int, i as int),
            lines@.len() == done.len(),
            forall|k: int| 0 <= k < lines@.len() ==> (#[trigger] lines@[k])@ == done[k],
            lines_of(v@) == done + lines_scan(v@, start as int, i as int),
        decreases n - i,
    {
        let c = v[i];
        if c == '\n' {
            let m = current.len();
            if m > 0 && current[m - 1] == '\r' {
                current.pop();
            }
            proof {
                let piece = strip_cr(v@.subrange(start as int, i as int));
                assert(current@ =~= piece);
                assert(done + (seq![piece] + lines_scan(v@, i + 1, i + 1)) =~= done.push(piece)
                    + lines_scan(v@, i + 1, i + 1));
                done = done.push(piece);
            }
            lines.push(current);
            current = Vec::new();
            start = i + 1;
            assert(current@ =~= v@.subrange(start as int, i + 1));
        } else {
            current.push(c);
            assert(current@ =~= v@.subrange(start as int, i + 1));
        }
        i += 1;
    }
    if start < n {
        proof {
            done = done.push(current@);
            assert(lines_of(v@) =~= done);
        }
        lines.push(current);
    } else {
        assert(lines_of(v@) =~= done);
    }
    lines
}

/// The first index at which `x` occurs in `s`, or `s.len()` if it does not occur.
pub open spec fn position(s: Seq<Seq<char>>, x: Seq<char>) -> nat
    decreases s.len(),
{
    if s.len() == 0 {
        0
    } else if s[0] == x {
        0
    } else {
        1 + position(s.drop_first(), x)
    }
}

/// `position` is the least index that holds `x`.
pub proof fn lemma_position(s: Seq<Seq<char>>, x: Seq<char>)
    ensures
        position(s, x) <= s.len(),
        position(s, x) < s.len() ==> s[position(s, x) as int] == x,
        forall|j: int| 0 <= j < position(s, x) ==> s[j] != x,
    decreases s.len(),
{
    if s.len() != 0 && s[0] != x {
        let t = s.drop_first();
        lemma_position(t, x);
        assert forall|j: int| 0 <= j < position(s, x) implies s[j] != x by {
            if j > 0 {
                assert(t[j - 1] == s[j]);
            }
        }
    }
}

/// An index that holds `x` and has no `x` before it is `position`.
pub proof fn lemma_position_is(s: Seq<Seq<char>>, x: Seq<char>, k: int)
    requires
        0 <= k <= s.len(),
        forall|j: int| 0 <= j < k ==> s[j] != x,
        k < s.len() ==> s[k] == x,
    ensures
        position(s, x) == k,
{
    lemma_position(s, x);
}

/// The list with `s` in it: unchanged where it holds `s`, with `s` at the end
/// where it does not.
pub open spec fn intern(pool: Seq<Seq<char>>, s: Seq<char>) -> Seq<Seq<char>> {
    if position(pool, s) < pool.len() {
        pool
    } else {
        pool.push(s)
    }
}

/// The first index at which `x` occurs among `names`, or their number.
pub fn find(names: &Vec<String>, x: &str) -> (k: usize)
    ensures
        k == position(texts(names@), x@),
        k <= names.len(),
{
    let mut i: usize = 0;
    while i < names.len()
        invariant
            i <= names.len(),
            forall|j: int| 0 <= j < i ==> texts(names@)[j] != x@,
        decreases names.len() - i,
    {
        if *names[i].as_str() == *x {
            proof {
                lemma_position_is(texts(names@), x@, i as int);
            }
            return i;
        }
        i += 1;
    }
    proof {
        lemma_position_is(texts(names@), x@, i as int);
    }
    i
}

/// The texts of a list of strings after one more was added.
pub proof fn lemma_texts_push(v: Seq<String>, x: String)
    ensures
        texts(v.push(x)) == texts(v).push(x@),
{
    assert(texts(v.push(x)) =~= texts(v).push(x@));
}

/// Whether a list holds a text.
pub open spec fn holds(list: Seq<Seq<char>>, s: Seq<char>) -> bool {
    position(list, s) < list.len()
}

/// `position` finds a text in a list exactly when some index holds it.
pub proof fn lemma_holds(list: Seq<Seq<char>>, s: Seq<char>)
    ensures
        holds(list, s) <==> exists|i: int| 0 <= i < list.len() && list[i] == s,
{
    lemma_position(list, s);
    if holds(list, s) {
        assert(list[position(list, s) as int] == s);
    }
}

/// Adding a text to a list that holds nothing twice: the list still holds
/// nothing twice, it holds the text and what it held before, and what it
/// held keeps its index.
pub proof fn lemma_intern(list: Seq<Seq<char>>, s: Seq<char>)
    requires
        list.no_duplicates(),
    ensures
        intern(list, s).no_duplicates(),
        holds(intern(list, s), s),
        forall|x: Seq<char>| #[trigger]
            holds(intern(list, s), x) <==> holds(list, x) || x == s,
        forall|x: Seq<char>| holds(list, x) ==> #[trigger] position(intern(list, s), x) == position(
            list,
            x,
        ),
        holds(list, s) ==> intern(list, s) == list,
{
    lemma_position(list, s);
    let grown = intern(list, s);
    assert forall|x: Seq<char>| #[trigger] holds(grown, x) <==> holds(list, x) || x == s by {
        lemma_holds(list, x);
        lemma_holds(grown, x);
        if holds(list, x) {
            let i = position(list, x) as int;
            lemma_position(list, x);
            assert(grown[i] == x);
        }
        if x == s && !holds(list, s) {
            assert(grown[list.len() as int] == s);
        }
        if holds(grown, x) && !holds(list, s) && x != s {
            let i = choose|i: int| 0 <= i < grown.len() && grown[i] == x;
            assert(list[i] == x);
        }
    }
    assert forall|x: Seq<char>| holds(list, x) implies #[trigger] position(grown, x) == position(
        list,
        x,
    ) by {
        lemma_position(list, x);
        lemma_position_is(grown, x, position(list, x) as int);
    }
    assert(holds(grown, s));
}

} // verus!
