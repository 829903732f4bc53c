//! What holds of every run of the code generator: the slots and the pool
//! hold nothing twice, labels are counted as promised, the pool holds the
//! string literals of the program and nothing else, and equal inputs give
//! equal outputs.

use vstd::prelude::*;
use crate::ast::Ast;
use crate::codegen::{
    begin, collect, collect_nodes, emit, gen_args, gen_data_section, gen_node, gen_nodes,
    gen_params,
    gen_prologue, gen_top, generate, generate_text, has_statements, labels_in_top, labels_needed,
    lemma_asm_frame, lemma_data_keeps, lemma_params_frame, lemma_pops_frame, lemma_top_labels,
    number_line, GenState,
};
use crate::text::{holds, lemma_holds, lemma_intern, position};

verus! {

/// Whether a tree holds `s` as a string literal.
pub open spec fn mentions(a: Ast, s: Seq<char>) -> bool
    decreases a, 0nat,
{
    match a {
        Ast::StringLiteral(text) => text == s,
        Ast::Block(statements) => mentions_any(statements, statements.len(), s),
        Ast::If(c, t, e) => mentions(*c, s) || mentions(*t, s) || match e {
            Some(b) => mentions(*b, s),
            None => false,
        },
        Ast::While(c, b) => mentions(*c, s) || mentions(*b, s),
        Ast::FunctionDecl(_, _, body) => mentions(*body, s),
        Ast::BinaryOp(l, _, r) => mentions(*l, s) || mentions(*r, s),
        Ast::Assignment(_, value) => mentions(*value, s),
        Ast::FunctionCall(_, args) => mentions_any(args, args.len(), s),
        Ast::Return(value) => match value {
            Some(b) => mentions(*b, s),
            None => false,
        },
        Ast::ArrayIndex(array, index) => mentions(*array, s) || mentions(*index, s),
        Ast::ArrayAssignment(array, index, value) => mentions(*array, s) || mentions(*index, s)
            || mentions(*value, s),
        _ => false,
    }
}

/// Whether one of the first `k` trees of a list holds `s` as a string literal.
pub open spec fn mentions_any(nodes: Seq<Ast>, k: nat, s: Seq<char>) -> bool
    decreases nodes, k,
{
    if k == 0 || k > nodes.len() {
        false
    } else {
        mentions_any(nodes, (k - 1) as nat, s) || mentions(nodes[k - 1], s)
    }
}

/// A tree among the first `k` of a list that holds `s` makes the list hold it.
pub proof fn lemma_mentions_at(nodes: Seq<Ast>, k: nat, i: int, s: Seq<char>)
    requires
        0 <= i < k <= nodes.len(),
        mentions(nodes[i], s),
    ensures
        mentions_any(nodes, k, s),
    decreases k,
{
    if i < k - 1 {
        lemma_mentions_at(nodes, (k - 1) as nat, i, s);
    }
}

/// Collecting the string literals of a tree into a pool that holds nothing
/// twice: the pool still holds nothing twice, and it holds what it held
/// before and the literals of the tree, nothing else.
pub proof fn lemma_collect(a: Ast, pool: Seq<Seq<char>>)
    requires
        pool.no_duplicates(),
    ensures
        collect(a, pool).no_duplicates(),
        forall|s: Seq<char>| #[trigger]
            holds(collect(a, pool), s) <==> holds(pool, s) || mentions(a, s),
    decreases a, 0nat,
{
    match a {
        Ast::StringLiteral(text) => {
            lemma_intern(pool, text);
        },
        Ast::Block(statements) => {
            lemma_collect_nodes(statements, statements.len(), pool);
        },
        Ast::If(c, t, e) => {
            lemma_collect(*c, pool);
            lemma_collect(*t, collect(*c, pool));
            match e {
                Some(b) => {
                    lemma_collect(*b, collect(*t, collect(*c, pool)));
                },
                None => {},
            }
        },
        Ast::While(c, b) => {
            lemma_collect(*c, pool);
            lemma_collect(*b, collect(*c, pool));
        },
        Ast::FunctionDecl(_, _, body) => {
            lemma_collect(*body, pool);
        },
        Ast::BinaryOp(l, _, r) => {
            lemma_collect(*l, pool);
            lemma_collect(*r, collect(*l, pool));
        },
        Ast::Assignment(_, value) => {
            lemma_collect(*value, pool);
        },
        Ast::FunctionCall(_, args) => {
            lemma_collect_nodes(args, args.len(), pool);
        },
        Ast::Return(value) => {
            match value {
                Some(b) => {
                    lemma_collect(*b, pool);
                },
                None => {},
            }
        },
        Ast::ArrayIndex(array, index) => {
            lemma_collect(*array, pool);
            lemma_collect(*index, collect(*array, pool));
        },
        Ast::ArrayAssignment(array, index, value) => {
            lemma_collect(*array, pool);
            lemma_collect(*index, collect(*array, pool));
            lemma_collect(*value, collect(*index, collect(*array, pool)));
        },
        _ => {},
    }
}

/// The same for the first `k` trees of a list.
pub proof fn lemma_collect_nodes(nodes: Seq<Ast>, k: nat, pool: Seq<Seq<char>>)
    requires
        pool.no_duplicates(),
    ensures
        collect_nodes(nodes, k, pool).no_duplicates(),
        forall|s: Seq<char>| #[trigger]
            holds(collect_nodes(nodes, k, pool), s) <==> holds(pool, s) || mentions_any(
                nodes,
                k,
                s,
            ),
    decreases nodes, k,
{
    if k != 0 && k <= nodes.len() {
        lemma_collect_nodes(nodes, (k - 1) as nat, pool);
        lemma_collect(nodes[k - 1], collect_nodes(nodes, (k - 1) as nat, pool));
    }
}

/// Whether the pool of a state holds every string literal of a tree.
pub open spec fn pooled(a: Ast, st: GenState) -> bool {
    forall|s: Seq<char>| mentions(a, s) ==> #[trigger] holds(st.pool, s)
}

/// Whether the pool of a state holds every string literal of the first `k`
/// trees of a list.
pub open spec fn all_pooled(nodes: Seq<Ast>, k: nat, st: GenState) -> bool {
    forall|s: Seq<char>| mentions_any(nodes, k, s) ==> #[trigger] holds(st.pool, s)
}

/// Copying parameters keeps the slots free of repetitions.
pub proof fn lemma_params_distinct(st: GenState, params: Seq<Seq<char>>, k: nat)
    requires
        st.vars.no_duplicates(),
    ensures
        gen_params(st, params, k).vars.no_duplicates(),
    decreases k,
{
    if k != 0 && k <= params.len() {
        lemma_params_distinct(st, params, (k - 1) as nat);
        lemma_intern(gen_params(st, params, (k - 1) as nat).vars, params[k - 1]);
    }
}

/// Generating a tree keeps the slots and the pool free of repetitions, and
/// leaves the pool as it is where the pool holds the tree's string literals.
pub proof fn lemma_node_keeps(a: Ast, st: GenState)
    ensures
        st.vars.no_duplicates() ==> gen_node(a, st).vars.no_duplicates(),
        st.pool.no_duplicates() ==> gen_node(a, st).pool.no_duplicates(),
        pooled(a, st) ==> gen_node(a, st).pool == st.pool,
    decreases a, 0nat,
{
    match a {
        Ast::Variable(name) => {
            if st.vars.no_duplicates() {
                lemma_intern(st.vars, name);
            }
        },
        Ast::StringLiteral(text) => {
            if st.pool.no_duplicates() {
                lemma_intern(st.pool, text);
            }
            assert(mentions(a, text));
        },
        Ast::Assignment(name, value) => {
            lemma_node_keeps(*value, st);
            let st1 = gen_node(*value, st);
            if st1.vars.no_duplicates() {
                lemma_intern(st1.vars, name);
            }
            assert(pooled(a, st) ==> pooled(*value, st));
        },
        Ast::BinaryOp(l, _, r) => {
            lemma_node_keeps(*l, st);
            lemma_node_keeps(*r, gen_node(*l, st));
            assert(pooled(a, st) ==> pooled(*l, st) && pooled(*r, st));
        },
        Ast::If(c, t, e) => {
            let st0 = GenState { labels: st.labels + 2, ..st };
            lemma_node_keeps(*c, st0);
            let st1 = gen_node(*c, st0);
            let st2 = emit(emit(st1, "    popq %rax"@), "    testq %rax, %rax"@);
            let st3 = emit(st2, number_line("    je .L"@, st.labels, ""@));
            lemma_node_keeps(*t, st3);
            let st4 = gen_node(*t, st3);
            let st5 = emit(st4, number_line("    jmp .L"@, st.labels + 1, ""@));
            let st6 = emit(st5, number_line(".L"@, st.labels, ":"@));
            assert(pooled(a, st) ==> pooled(*c, st) && pooled(*t, st));
            match e {
                Some(b) => {
                    lemma_node_keeps(*b, st6);
                    assert(pooled(a, st) ==> pooled(*b, st));
                },
                None => {},
            }
        },
        Ast::While(c, b) => {
            let st1 = emit(
                GenState { labels: st.labels + 2, ..st },
                number_line(".L"@, st.labels, ":"@),
            );
            lemma_node_keeps(*c, st1);
            let st2 = gen_node(*c, st1);
            let st3 = emit(emit(st2, "    popq %rax"@), "    testq %rax, %rax"@);
            let st4 = emit(st3, number_line("    je .L"@, st.labels + 1, ""@));
            lemma_node_keeps(*b, st4);
            assert(pooled(a, st) ==> pooled(*c, st) && pooled(*b, st));
        },
        Ast::Block(statements) => {
            lemma_nodes_keep(statements, statements.len(), st);
            assert(pooled(a, st) ==> all_pooled(statements, statements.len(), st));
        },
        Ast::FunctionDecl(name, params, body) => {
            let st1 = emit(GenState { vars: Seq::empty(), ..st }, name + ":"@);
            let st2 = gen_params(gen_prologue(st1), params, params.len());
            lemma_params_frame(gen_prologue(st1), params, params.len());
            lemma_params_distinct(gen_prologue(st1), params, params.len());
            lemma_node_keeps(*body, st2);
            assert(pooled(a, st) ==> pooled(*body, st));
            assert(gen_node(a, st).vars == st.vars);
        },
        Ast::FunctionCall(_, args) => {
            lemma_args_keep(args, 0, st);
            lemma_pops_frame(gen_args(args, 0, st), args.len());
            assert(pooled(a, st) ==> all_pooled(args, args.len(), st));
        },
        Ast::Return(value) => {
            match value {
                Some(b) => {
                    lemma_node_keeps(*b, st);
                    assert(pooled(a, st) ==> pooled(*b, st));
                },
                None => {},
            }
        },
        Ast::ArrayIndex(array, index) => {
            lemma_node_keeps(*array, st);
            lemma_node_keeps(*index, gen_node(*array, st));
            assert(pooled(a, st) ==> pooled(*array, st) && pooled(*index, st));
        },
        Ast::ArrayAssignment(array, index, value) => {
            lemma_node_keeps(*value, st);
            lemma_node_keeps(*array, gen_node(*value, st));
            lemma_node_keeps(*index, gen_node(*array, gen_node(*value, st)));
            assert(pooled(a, st) ==> pooled(*array, st) && pooled(*index, st) && pooled(
                *value,
                st,
            ));
        },
        Ast::InlineAsm { template, outputs, inputs, clobbers } => {
            lemma_asm_frame(st, template, outputs, inputs, clobbers);
        },
        _ => {},
    }
}

/// The same for the first `k` trees of a list.
pub proof fn lemma_nodes_keep(nodes: Seq<Ast>, k: nat, st: GenState)
    ensures
        st.vars.no_duplicates() ==> gen_nodes(nodes, k, st).vars.no_duplicates(),
        st.pool.no_duplicates() ==> gen_nodes(nodes, k, st).pool.no_duplicates(),
        all_pooled(nodes, k, st) ==> gen_nodes(nodes, k, st).pool == st.pool,
    decreases nodes, k,
{
    if k != 0 && k <= nodes.len() {
        lemma_nodes_keep(nodes, (k - 1) as nat, st);
        let st1 = gen_nodes(nodes, (k - 1) as nat, st);
        lemma_node_keeps(nodes[k - 1], st1);
        assert(all_pooled(nodes, k, st) ==> all_pooled(nodes, (k - 1) as nat, st) && pooled(
            nodes[k - 1],
            st,
        ));
    }
}

/// The same for the arguments of a call from the last down to the one at `k`.
pub proof fn lemma_args_keep(args: Seq<Ast>, k: nat, st: GenState)
    ensures
        st.vars.no_duplicates() ==> gen_args(args, k, st).vars.no_duplicates(),
        st.pool.no_duplicates() ==> gen_args(args, k, st).pool.no_duplicates(),
        all_pooled(args, args.len(), st) ==> gen_args(args, k, st).pool == st.pool,
    decreases args, args.len() - k,
{
    if k < args.len() {
        lemma_args_keep(args, k + 1, st);
        let st1 = gen_args(args, k + 1, st);
        lemma_node_keeps(args[k as int], st1);
        if all_pooled(args, args.len(), st) {
            assert forall|s: Seq<char>| mentions(args[k as int], s) implies holds(st.pool, s) by {
                lemma_mentions_at(args, args.len(), k as int, s);
            }
        }
    }
}

/// The same for the top-level trees of one kind.
pub proof fn lemma_top_keeps(nodes: Seq<Ast>, k: nat, functions: bool, st: GenState)
    requires
        k <= nodes.len(),
    ensures
        st.vars.no_duplicates() ==> gen_top(nodes, k, functions, st).vars.no_duplicates(),
        st.pool.no_duplicates() ==> gen_top(nodes, k, functions, st).pool.no_duplicates(),
        all_pooled(nodes, nodes.len(), st) ==> gen_top(nodes, k, functions, st).pool == st.pool,
    decreases k,
{
    if k != 0 {
        lemma_top_keeps(nodes, (k - 1) as nat, functions, st);
        let st1 = gen_top(nodes, (k - 1) as nat, functions, st);
        lemma_node_keeps(nodes[k - 1], st1);
        if all_pooled(nodes, nodes.len(), st) {
            assert forall|s: Seq<char>| mentions(nodes[k - 1], s) implies holds(st.pool, s) by {
                lemma_mentions_at(nodes, nodes.len(), k - 1, s);
            }
        }
    }
}

/// Every identifier has one slot, and every pooled text one label: a run of
/// the generator leaves slots and a pool that hold nothing twice.
pub proof fn lemma_generate_distinct(st: GenState, nodes: Seq<Ast>)
    ensures
        generate(st, nodes).vars.no_duplicates(),
        generate(st, nodes).pool.no_duplicates(),
{
    lemma_generate_pool(st, nodes);
    let pool = collect_nodes(nodes, nodes.len(), Seq::empty());
    let st1 = begin(st.main_file, nodes);
    let st2 = gen_data_section(st1);
    lemma_data_keeps(emit(st1, ".section .data"@), pool.len());
    let st3 = emit(emit(st2, ""@), ".section .text"@);
    lemma_top_keeps(nodes, nodes.len(), true, st3);
    let st4 = gen_top(nodes, nodes.len(), true, st3);
    if st.main_file {
        let st5 = emit(emit(emit(emit(st4, ""@), ".global _start"@), ""@), "_start:"@);
        lemma_top_keeps(nodes, nodes.len(), false, gen_prologue(st5));
    } else {
        let st5 = emit(GenState { labels: st4.labels + 1, ..st4 }, ""@);
        let st6 = emit(st5, number_line("__init_"@, st4.labels, ":"@));
        lemma_top_keeps(nodes, nodes.len(), false, gen_prologue(st6));
    }
}

/// The pool of a run holds each distinct string literal of the program once
/// and nothing else, it is complete before the first instruction is emitted,
/// and emission leaves it as it is: every use of a literal refers to the one
/// label `str<K>` where `K` is the literal's index in the pool.
pub proof fn lemma_generate_pool(st: GenState, nodes: Seq<Ast>)
    ensures
        ({
            let pool = collect_nodes(nodes, nodes.len(), Seq::empty());
            &&& pool.no_duplicates()
            &&& forall|s: Seq<char>| #[trigger]
                holds(pool, s) <==> mentions_any(nodes, nodes.len(), s)
            &&& generate(st, nodes).pool == pool
            &&& forall|s: Seq<char>, at: GenState|
                holds(pool, s) && at.pool == pool ==> #[trigger] gen_node(
                    Ast::StringLiteral(s),
                    at,
                ) == emit(
                    emit(at, number_line("    leaq str"@, position(pool, s), "(%rip), %rax"@)),
                    "    pushq %rax"@,
                )
        }),
{
    let pool = collect_nodes(nodes, nodes.len(), Seq::empty());
    lemma_collect_nodes(nodes, nodes.len(), Seq::empty());
    assert forall|s: Seq<char>| #[trigger] holds(pool, s) <==> mentions_any(
        nodes,
        nodes.len(),
        s,
    ) by {
        assert(!holds(Seq::<Seq<char>>::empty(), s));
    }
    let st1 = begin(st.main_file, nodes);
    let st2 = gen_data_section(st1);
    lemma_data_keeps(emit(st1, ".section .data"@), pool.len());
    let st3 = emit(emit(st2, ""@), ".section .text"@);
    assert(all_pooled(nodes, nodes.len(), st3));
    lemma_top_keeps(nodes, nodes.len(), true, st3);
    let st4 = gen_top(nodes, nodes.len(), true, st3);
    if st.main_file {
        let st5 = emit(emit(emit(emit(st4, ""@), ".global _start"@), ""@), "_start:"@);
        lemma_top_keeps(nodes, nodes.len(), false, gen_prologue(st5));
    } else {
        let st5 = emit(GenState { labels: st4.labels + 1, ..st4 }, ""@);
        let st6 = emit(st5, number_line("__init_"@, st4.labels, ":"@));
        lemma_top_keeps(nodes, nodes.len(), false, gen_prologue(st6));
    }
}

/// A program without string literals has no data section: its output is the
/// text section alone.
pub proof fn lemma_no_literals_no_data(st: GenState, nodes: Seq<Ast>)
    requires
        forall|s: Seq<char>| !mentions_any(nodes, nodes.len(), s),
    ensures
        collect_nodes(nodes, nodes.len(), Seq::empty()).len() == 0,
        generate(st, nodes) == generate_text(
            GenState {
                out: Seq::empty(),
                labels: 0,
                vars: Seq::empty(),
                pool: Seq::empty(),
                main_file: st.main_file,
            },
            nodes,
        ),
{
    let pool = collect_nodes(nodes, nodes.len(), Seq::empty());
    lemma_generate_pool(st, nodes);
    if pool.len() > 0 {
        lemma_holds(pool, pool[0]);
        assert(holds(pool, pool[0]));
    }
    assert(pool =~= Seq::empty());
}

/// Code generation is a function of its input: whatever two generators of
/// one kind of file have emitted before, for the same trees they emit the
/// same text, label for label and `str` index for `str` index.
pub proof fn lemma_generate_deterministic(a: GenState, b: GenState, nodes: Seq<Ast>)
    requires
        a.main_file == b.main_file,
    ensures
        generate(a, nodes) == generate(b, nodes),
{
}

/// A second run of one generator gives what the first run gave.
pub proof fn lemma_generate_again(st: GenState, nodes: Seq<Ast>)
    ensures
        generate(generate(st, nodes), nodes) == generate(st, nodes),
{
    lemma_generate_labels(st, nodes);
}

/// Labels are numbered from zero in the order in which the traversal takes
/// them: a run takes exactly `labels_needed` labels.
pub proof fn lemma_generate_labels(st: GenState, nodes: Seq<Ast>)
    ensures
        generate(st, nodes).labels == labels_needed(nodes, st.main_file),
        generate(st, nodes).main_file == st.main_file,
{
    let pool = collect_nodes(nodes, nodes.len(), Seq::empty());
    let st1 = begin(st.main_file, nodes);
    let st2 = gen_data_section(st1);
    lemma_data_keeps(emit(st1, ".section .data"@), pool.len());
    let st3 = emit(emit(st2, ""@), ".section .text"@);
    lemma_top_labels(nodes, nodes.len(), true, st3);
    let st4 = gen_top(nodes, nodes.len(), true, st3);
    assert(st4.labels == labels_in_top(nodes, nodes.len(), true));
    if st.main_file {
        let st5 = emit(emit(emit(emit(st4, ""@), ".global _start"@), ""@), "_start:"@);
        lemma_top_labels(nodes, nodes.len(), false, gen_prologue(st5));
    } else if has_statements(nodes) {
        let st5 = emit(GenState { labels: st4.labels + 1, ..st4 }, ""@);
        let st6 = emit(st5, number_line("__init_"@, st4.labels, ":"@));
        lemma_top_labels(nodes, nodes.len(), false, gen_prologue(st6));
    } else {
        lemma_no_statements(nodes, nodes.len());
    }
}

/// A file of function definitions alone has no top-level statement to
/// generate code for.
pub proof fn lemma_no_statements(nodes: Seq<Ast>, k: nat)
    requires
        !has_statements(nodes),
        k <= nodes.len(),
    ensures
        labels_in_top(nodes, k, false) == 0,
    decreases k,
{
    if k != 0 {
        lemma_no_statements(nodes, (k - 1) as nat);
        assert(nodes[k - 1] is FunctionDecl);
    }
}

} // verus!
