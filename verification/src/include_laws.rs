//! What holds of the files of a translation unit: a file is included at
//! most once, whatever the parser does between two includes.

use vstd::prelude::*;
use crate::error::{SpecError, SpecErrorKind};
use crate::grammar::parse_statement;
use crate::grammar_laws::{lemma_statement_moves, lemma_token_moves};
use crate::lexer::{lemma_token_progress, start, Tok};
use crate::parser::{enter, parse_include, register, resume, run, ParserView, Step};
use crate::stream::{eat, measure, within, ParseState};
use crate::text::{holds, intern, lemma_holds, lemma_intern};

verus! {

broadcast use crate::stream::lemma_eat_moves;

/// A run of the parser leaves the list of included files as it is.
pub proof fn lemma_run_keeps_included(p: ParserView)
    ensures
        run(p) matches Ok((step, after)) ==> after.included == p.included,
    decreases p.suspended.len(), measure(p.state),
{
    reveal(run);
    if p.state.current is EOF {
        if p.suspended.len() > 0 {
            lemma_run_keeps_included(resume(p));
        }
    } else if !(p.state.current is Include) {
        if let Ok((node, st1)) = within(
            parse_statement(p.state),
            measure(p.state) - 1,
        ) {
            lemma_run_keeps_included(ParserView { state: st1, nodes: p.nodes.push(node), ..p });
        }
    }
}

/// Include once: a file is registered under its canonical path, the list of
/// registered files holds no path twice, and a path that is registered is
/// refused from then on, under whatever name the directive gives it. The
/// error points to the offending directive, in the file being parsed: the
/// innermost of the files that include one another.
pub proof fn lemma_include_once(
    p: ParserView,
    full_path: Seq<char>,
    canonical: Seq<char>,
    again: Seq<char>,
)
    requires
        p.included.no_duplicates(),
    ensures
        holds(p.included, canonical) <==> register(p, full_path, canonical) is Err,
        register(p, full_path, canonical) matches Ok(after) ==> after.included.no_duplicates()
            && holds(after.included, canonical) && register(after, again, canonical) is Err,
        register(p, full_path, canonical) matches Err(e) ==> e.location.file == p.state.lexer.file
            && e.location.line == p.directive.line && e.location.column == p.directive.column,
{
    lemma_intern(p.included, canonical);
    if !holds(p.included, canonical) {
        assert(p.included.push(canonical) == intern(p.included, canonical));
    }
}

/// Entering a file leaves the list of included files as it is.
pub proof fn lemma_enter_keeps_included(
    p: ParserView,
    source: Seq<char>,
    canonical: Seq<char>,
    directory: Seq<char>,
)
    ensures
        enter(p, source, canonical, directory) matches Ok(after) ==> after.included == p.included,
{
}

/// An include directive leaves the scanner in its file.
pub proof fn lemma_directive_stays(st: ParseState)
    ensures
        parse_include(st) matches Ok((path, after)) ==> after.lexer.file == st.lexer.file,
{
    reveal(parse_include);
    if let Ok(st1) = eat(st, Tok::Include) {
        lemma_token_moves(st1, "expected string literal after @include"@);
    }
}

/// A run never enters a file. Where it ends in the file in which it began,
/// the files that wait are those that waited, and the scanner is still in
/// that file.
pub proof fn lemma_run_stays(p: ParserView)
    ensures
        run(p) matches Ok((step, after)) ==> after.suspended.len() <= p.suspended.len() && (
        after.suspended.len() == p.suspended.len() ==> after.suspended == p.suspended
            && after.state.lexer.file == p.state.lexer.file),
    decreases p.suspended.len(), measure(p.state),
{
    reveal(run);
    if p.state.current is EOF {
        if p.suspended.len() > 0 {
            lemma_run_stays(resume(p));
        }
    } else if p.state.current is Include {
        lemma_directive_stays(p.state);
    } else {
        lemma_statement_moves(p.state);
        if let Ok((node, st1)) = within(parse_statement(p.state), measure(p.state) - 1) {
            lemma_run_stays(ParserView { state: st1, nodes: p.nodes.push(node), ..p });
        }
    }
}

/// Whether a run of the parser `p` comes to an include directive, with the
/// parser `after` it.
pub open spec fn asks(p: ParserView, after: ParserView) -> bool {
    run(p) matches Ok((step, next)) && step is Include && next == after
}

/// The include cycle. A file `a` is included and entered (`at_a`); the run
/// in it comes to a directive (`in_a`), for which a file `b` is included and
/// entered (`at_b`); the run in `b` comes to a directive in `b` (`in_b`)
/// that names `a` again. Then `a` is refused: the error is the syntax error
/// `circular include detected`, with the path as the directive gave it, and
/// it points to that directive in `b`, the innermost of the files.
pub proof fn lemma_include_cycle(
    root: ParserView,
    a: Seq<char>,
    source_a: Seq<char>,
    b: Seq<char>,
    source_b: Seq<char>,
    paths: (Seq<char>, Seq<char>, Seq<char>),
    directories: (Seq<char>, Seq<char>),
    states: (ParserView, ParserView, ParserView, ParserView, ParserView, ParserView),
)
    requires
        register(root, paths.0, a) == Ok::<ParserView, SpecError>(states.0),
        enter(states.0, source_a, a, directories.0) == Ok::<ParserView, SpecError>(states.1),
        asks(states.1, states.2),
        register(states.2, paths.1, b) == Ok::<ParserView, SpecError>(states.3),
        enter(states.3, source_b, b, directories.1) == Ok::<ParserView, SpecError>(states.4),
        asks(states.4, states.5),
        states.5.suspended.len() == states.4.suspended.len(),
    ensures
        register(states.5, paths.2, a) matches Err(e) && e.kind == SpecErrorKind::SyntaxError(
            "circular include detected: "@ + paths.2,
        ) && e.location.file == b && e.location.line == states.5.directive.line
            && e.location.column == states.5.directive.column,
{
    let (registered_a, at_a, in_a, registered_b, at_b, in_b) = states;
    lemma_run_keeps_included(at_a);
    lemma_run_keeps_included(at_b);
    lemma_run_stays(at_b);
    lemma_holds(registered_a.included, a);
    assert(registered_a.included[root.included.len() as int] == a);
    let k = choose|k: int| 0 <= k < registered_a.included.len() && registered_a.included[k] == a;
    assert(in_b.included[k] == a);
    lemma_holds(in_b.included, a);
    lemma_token_progress(source_b, start());
}

} // verus!
