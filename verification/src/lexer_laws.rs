//! What holds of the scanner for every token: written in its canonical
//! form, a token is read back as itself, from the first character of the
//! form to its last, and nothing follows it.

use vstd::prelude::*;
use crate::lexer::{
    advance, between, decimal_value, describe, is_digit, is_letter, is_word, keyword, next_token,
    scan_string, skip_blank, skip_digits, skip_word, start, token, Cursor, Tok,
};
use crate::text::{decimal, digit, is_space};

verus! {

/// The cursor `n` characters further on the same line.
pub open spec fn along(c: Cursor, n: nat) -> Cursor {
    Cursor { pos: c.pos + n, line: c.line, column: c.column + n }
}

/// Whether a text is an identifier or a keyword: a letter or `_`, then
/// letters, digits and `_`.
pub open spec fn is_word_text(s: Seq<char>) -> bool {
    s.len() > 0 && is_letter(s[0]) && forall|i: int| 0 <= i < s.len() ==> is_word(#[trigger] s[i])
}

/// A run of identifier characters up to the end of the input is read whole.
pub proof fn lemma_skip_word_to_end(s: Seq<char>, c: Cursor)
    requires
        c.pos <= s.len(),
        forall|i: int| c.pos <= i < s.len() ==> is_word(#[trigger] s[i]),
    ensures
        skip_word(s, c) == along(c, (s.len() - c.pos) as nat),
    decreases s.len() - c.pos,
{
    if c.pos < s.len() {
        assert(is_word(s[c.pos as int]));
        lemma_skip_word_to_end(s, advance(s, c));
    }
}

/// A run of digits up to the end of the input is read whole.
pub proof fn lemma_skip_digits_to_end(s: Seq<char>, c: Cursor)
    requires
        c.pos <= s.len(),
        forall|i: int| c.pos <= i < s.len() ==> is_digit(#[trigger] s[i]),
    ensures
        skip_digits(s, c) == along(c, (s.len() - c.pos) as nat),
    decreases s.len() - c.pos,
{
    if c.pos < s.len() {
        assert(is_digit(s[c.pos as int]));
        lemma_skip_digits_to_end(s, advance(s, c));
    }
}

/// A cursor on a character that is no whitespace and opens no comment, or at
/// the end of the input, is where the next token starts.
pub proof fn lemma_no_blank(s: Seq<char>, c: Cursor)
    requires
        c.pos <= s.len(),
        c.pos < s.len() ==> !is_space(s[c.pos as int]) && s[c.pos as int] != '/',
    ensures
        skip_blank(s, c) == c,
{
}

/// At the end of the input the next token is `EOF`, and the cursor stays.
pub proof fn lemma_end_of_file(s: Seq<char>, c: Cursor)
    requires
        c.pos == s.len(),
    ensures
        next_token(s, c) == token(Tok::EOF, c, c),
{
    reveal(next_token);
}

/// A word is read back as the keyword that it spells, or else as the
/// identifier that it is.
pub proof fn lemma_word_round_trip(word: Seq<char>)
    requires
        is_word_text(word),
    ensures
        next_token(word, start()) == token(keyword(word), start(), along(start(), word.len())),
{
    reveal(next_token);
    lemma_no_blank(word, start());
    lemma_skip_word_to_end(word, start());
    assert(between(word, start(), along(start(), word.len())) =~= word);
}

/// The decimal numeral of a number consists of digits and writes the number.
pub proof fn lemma_decimal_digits(n: nat)
    ensures
        decimal(n).len() > 0,
        forall|i: int| 0 <= i < decimal(n).len() ==> is_digit(#[trigger] decimal(n)[i]),
        decimal_value(decimal(n)) == n,
    decreases n,
{
    if n < 10 {
        assert(decimal(n) =~= seq![digit(n)]);
        assert(decimal(n).drop_last() =~= Seq::<char>::empty());
        assert(decimal_value(decimal(n).drop_last()) == 0);
    } else {
        lemma_decimal_digits(n / 10);
        assert(decimal(n).drop_last() =~= decimal(n / 10));
    }
}

/// A number that is not negative is read back from its decimal numeral.
pub proof fn lemma_number_round_trip(n: i64)
    requires
        n >= 0,
    ensures
        next_token(decimal(n as nat), start()) == token(
            Tok::Number(n),
            start(),
            along(start(), decimal(n as nat).len()),
        ),
{
    reveal(next_token);
    let s = decimal(n as nat);
    lemma_decimal_digits(n as nat);
    assert(is_digit(s[0]));
    lemma_no_blank(s, start());
    lemma_skip_digits_to_end(s, start());
    assert(between(s, start(), along(start(), s.len())) =~= s);
}

/// Whether a token is an operator or a punctuation mark.
pub open spec fn is_symbol(t: Tok) -> bool {
    t is Plus || t is Minus || t is Multiply || t is Divide || t is Assign || t is Semicolon || t is LParen
        || t is RParen || t is LBrace || t is RBrace || t is Comma || t is Colon || t is LeftBracket
        || t is RightBracket || t is Equals || t is NotEquals || t is Less || t is Greater || t is LessEqual
        || t is GreaterEqual || t is And || t is Or
}

/// Whether a token is a keyword.
pub open spec fn is_keyword(t: Tok) -> bool {
    t is If || t is Else || t is While || t is Function || t is Return || t is From || t is Asm
}

/// An operator or a punctuation mark is read back from its one or two characters.
pub proof fn lemma_symbol_round_trip(t: Tok)
    requires
        is_symbol(t),
    ensures
        next_token(describe(t), start()) == token(t, start(), along(start(), describe(t).len())),
{
    reveal(next_token);
    let s = describe(t);
    match t {
        Tok::Plus => {
            reveal_strlit("+");
        },
        Tok::Minus => {
            reveal_strlit("-");
        },
        Tok::Multiply => {
            reveal_strlit("*");
        },
        Tok::Divide => {
            reveal_strlit("/");
        },
        Tok::Assign => {
            reveal_strlit("=");
        },
        Tok::Semicolon => {
            reveal_strlit(";");
        },
        Tok::LParen => {
            reveal_strlit("(");
        },
        Tok::RParen => {
            reveal_strlit(")");
        },
        Tok::LBrace => {
            reveal_strlit("{");
        },
        Tok::RBrace => {
            reveal_strlit("}");
        },
        Tok::Comma => {
            reveal_strlit(",");
        },
        Tok::Colon => {
            reveal_strlit(":");
        },
        Tok::LeftBracket => {
            reveal_strlit("[");
        },
        Tok::RightBracket => {
            reveal_strlit("]");
        },
        Tok::Equals => {
            reveal_strlit("==");
        },
        Tok::NotEquals => {
            reveal_strlit("!=");
        },
        Tok::Less => {
            reveal_strlit("<");
        },
        Tok::Greater => {
            reveal_strlit(">");
        },
        Tok::LessEqual => {
            reveal_strlit("<=");
        },
        Tok::GreaterEqual => {
            reveal_strlit(">=");
        },
        Tok::And => {
            reveal_strlit("&&");
        },
        _ => {
            reveal_strlit("||");
        },
    }
    assert(skip_blank(s, start()) == start());
}

/// A keyword is read back from its word.
pub proof fn lemma_keyword_round_trip(t: Tok)
    requires
        is_keyword(t),
    ensures
        next_token(describe(t), start()) == token(t, start(), along(start(), describe(t).len())),
{
    reveal_strlit("if");
    reveal_strlit("else");
    reveal_strlit("while");
    reveal_strlit("fn");
    reveal_strlit("return");
    reveal_strlit("from");
    reveal_strlit("asm");
    let s = describe(t);
    assert(is_word_text(s));
    lemma_word_round_trip(s);
}

/// The directive is read back from `@include`.
pub proof fn lemma_include_round_trip()
    ensures
        next_token("@include"@, start()) == token(
            Tok::Include,
            start(),
            along(start(), "@include"@.len()),
        ),
{
    reveal(next_token);
    reveal_strlit("@include");
    reveal_strlit("include");
    let s = "@include"@;
    lemma_no_blank(s, start());
    let c1 = advance(s, start());
    lemma_skip_word_to_end(s, c1);
    assert(between(s, c1, along(c1, 7)) =~= "include"@);
}

/// The characters that write one character of a string literal: a quote and
/// a backslash are escaped, every other character stands for itself.
pub open spec fn escaped_char(c: char) -> Seq<char> {
    if c == '"' {
        seq!['\\', '"']
    } else if c == '\\' {
        seq!['\\', '\\']
    } else {
        seq![c]
    }
}

/// The characters that write the text of a string literal.
pub open spec fn escaped(text: Seq<char>) -> Seq<char>
    decreases text.len(),
{
    if text.len() == 0 {
        Seq::empty()
    } else {
        escaped_char(text[0]) + escaped(text.drop_first())
    }
}

/// A string literal in source form: its text between quotes.
pub open spec fn quoted(text: Seq<char>) -> Seq<char> {
    seq!['"'] + escaped(text) + seq!['"']
}

/// From a cursor inside a string literal, before the written form of `text`
/// and the closing quote, the scanner reads `text` and stops after the quote.
pub proof fn lemma_scan_escaped(s: Seq<char>, c: Cursor, text: Seq<char>, read: Seq<char>)
    requires
        c.pos <= s.len(),
        s.subrange(c.pos as int, s.len() as int) == escaped(text) + seq!['"'],
    ensures
        scan_string(s, c, read).0 == Ok::<Seq<char>, Seq<char>>(read + text),
        scan_string(s, c, read).1.pos == s.len(),
    decreases text.len(),
{
    let tail = s.subrange(c.pos as int, s.len() as int);
    if text.len() == 0 {
        assert(escaped(text) =~= Seq::<char>::empty());
        assert(tail =~= seq!['"']);
        assert(tail.len() == 1);
        assert(s[c.pos as int] == tail[0]);
        assert(read + text =~= read);
    } else {
        let x = text[0];
        let rest = text.drop_first();
        let head = escaped_char(x);
        assert(tail =~= head + (escaped(rest) + seq!['"']));
        assert(s[c.pos as int] == tail[0]);
        if x == '"' || x == '\\' {
            assert(s[c.pos as int + 1] == tail[1]);
            let c2 = advance(s, advance(s, c));
            assert(head.len() == 2);
            assert(c2.pos == c.pos + 2);
            assert(s.subrange(c2.pos as int, s.len() as int) =~= tail.subrange(
                2,
                tail.len() as int,
            ));
            assert(tail.subrange(2, tail.len() as int) =~= escaped(rest) + seq!['"']);
            lemma_scan_escaped(s, c2, rest, read.push(x));
        } else {
            let c1 = advance(s, c);
            assert(head.len() == 1);
            assert(c1.pos == c.pos + 1);
            assert(s.subrange(c1.pos as int, s.len() as int) =~= tail.subrange(
                1,
                tail.len() as int,
            ));
            assert(tail.subrange(1, tail.len() as int) =~= escaped(rest) + seq!['"']);
            lemma_scan_escaped(s, c1, rest, read.push(x));
        }
        assert(read.push(x) + rest =~= read + text);
    }
}

/// A string literal is read back from its source form, whatever its text.
pub proof fn lemma_string_round_trip(text: Seq<char>)
    ensures
        next_token(quoted(text), start()).0 matches Ok(t) && t.kind == Tok::StringLiteral(text)
            && t.line == 1 && t.column == 1,
        next_token(quoted(text), start()).1.pos == quoted(text).len(),
{
    reveal(next_token);
    let s = quoted(text);
    assert(s[0] == '"');
    lemma_no_blank(s, start());
    let c1 = advance(s, start());
    assert(s.subrange(c1.pos as int, s.len() as int) =~= escaped(text) + seq!['"']);
    lemma_scan_escaped(s, c1, text, Seq::empty());
    assert(Seq::<char>::empty() + text =~= text);
}

/// The canonical form of a token.
pub open spec fn spelling(t: Tok) -> Seq<char> {
    match t {
        Tok::Number(n) => decimal(n as nat),
        Tok::Identifier(name) => name,
        Tok::StringLiteral(text) => quoted(text),
        Tok::EOF => Seq::empty(),
        _ => describe(t),
    }
}

/// Whether a token has a canonical form: a number must not be negative, an
/// identifier must be a word that is no keyword.
pub open spec fn spellable(t: Tok) -> bool {
    match t {
        Tok::Number(n) => n >= 0,
        Tok::Identifier(name) => is_word_text(name) && keyword(name) == t,
        _ => true,
    }
}

/// Token round trip: the canonical form of a token is read back as that
/// token and nothing else. The token starts at the first line and the first
/// column and ends with the text; a form without line feed stays on the
/// first line.
pub proof fn lemma_token_round_trip(t: Tok)
    requires
        spellable(t),
    ensures
        ({
            let s = spelling(t);
            let (r, c) = next_token(s, start());
            &&& r matches Ok(read) && read.kind == t && read.line == 1 && read.column == 1
            &&& c.pos == s.len()
            &&& !(t is StringLiteral) ==> c == along(start(), s.len())
            &&& next_token(s, c) == token(Tok::EOF, c, c)
        }),
{
    let s = spelling(t);
    match t {
        Tok::Number(n) => {
            lemma_number_round_trip(n);
        },
        Tok::Identifier(name) => {
            lemma_word_round_trip(name);
        },
        Tok::StringLiteral(text) => {
            lemma_string_round_trip(text);
            reveal(next_token);
        },
        Tok::EOF => {
            lemma_end_of_file(s, start());
        },
        Tok::Include => {
            lemma_include_round_trip();
        },
        _ => {
            if is_keyword(t) {
                lemma_keyword_round_trip(t);
            } else {
                lemma_symbol_round_trip(t);
            }
        },
    }
    lemma_end_of_file(s, next_token(s, start()).1);
}

} // verus!
