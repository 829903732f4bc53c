//! Lowering of a syntax tree to x86_64 assembly (AT&T syntax, System V AMD64).
//!
//! Every expression leaves its value on the machine stack and operators pop
//! their operands. The model of the generator is [`GenState`]; the functions
//! `gen_*` below say, line by line, what is emitted for a tree.
//!
//! A frame reserves 256 bytes. The stack pointer is not aligned to 16 bytes
//! before a call, and arguments beyond the sixth stay on the stack.

use vstd::prelude::*;
use vstd::string::*;
use crate::ast::{asts, lemma_children, Ast, AstNode, BinaryOperator};
use crate::text::{
    chars_of, decimal, decimal_int, lines_of, push_decimal, push_decimal_int, push_trimmed, find,
    intern, lemma_texts_push, position, split_lines, text_pairs, texts, trim,
};

verus! {

/// What a code generator holds, as mathematics.
pub struct GenState {
    /// The assembly text emitted so far.
    pub out: Seq<char>,
    /// The number of the next label.
    pub labels: nat,
    /// The identifiers of the current frame in slot order: the slot of
    /// `vars[i]` lies at offset `-8 * (i + 1)` from the frame pointer. The
    /// first use of an identifier takes the next slot. Blocks have no scope
    /// of their own: a function's body shares one frame, and so do the
    /// top-level statements.
    pub vars: Seq<Seq<char>>,
    /// The string pool: entry `i` is labelled `str<i>`.
    pub pool: Seq<Seq<char>>,
    /// Whether the file is the program's entry file.
    pub main_file: bool,
}

/// The text after one more line.
pub open spec fn emit(st: GenState, line: Seq<char>) -> GenState {
    GenState { out: (st.out + line).push('\n'), ..st }
}

/// The frame offset of slot `i`, as written in an operand.
pub open spec fn slot_text(i: nat) -> Seq<char> {
    seq!['-'] + decimal(8 * (i + 1))
}

/// A line made of a prefix, the offset of a slot, and a suffix.
pub open spec fn slot_line(before: Seq<char>, slot: nat, after: Seq<char>) -> Seq<char> {
    before + slot_text(slot) + after
}

/// A line made of a prefix, a number, and a suffix.
pub open spec fn number_line(before: Seq<char>, n: nat, after: Seq<char>) -> Seq<char> {
    before + decimal(n) + after
}

/// The slot of an identifier, allocating the next free one on first use.
pub open spec fn locate(st: GenState, name: Seq<char>) -> GenState {
    if position(st.vars, name) < st.vars.len() {
        st
    } else {
        GenState { vars: st.vars.push(name), ..st }
    }
}

/// What an operator emits between popping its operands and pushing its result.
pub open spec fn gen_operator(op: BinaryOperator, st: GenState) -> GenState {
    match op {
        BinaryOperator::Add => emit(st, "    addq %rcx, %rax"@),
        BinaryOperator::Subtract => emit(st, "    subq %rcx, %rax"@),
        BinaryOperator::Multiply => emit(st, "    imulq %rcx, %rax"@),
        BinaryOperator::Divide => emit(emit(st, "    cqo"@), "    idivq %rcx"@),
        BinaryOperator::Equals => gen_compare(st, "    sete %al"@),
        BinaryOperator::NotEquals => gen_compare(st, "    setne %al"@),
        BinaryOperator::Less => gen_compare(st, "    setl %al"@),
        BinaryOperator::Greater => gen_compare(st, "    setg %al"@),
        BinaryOperator::LessEqual => gen_compare(st, "    setle %al"@),
        BinaryOperator::GreaterEqual => gen_compare(st, "    setge %al"@),
        BinaryOperator::And => gen_logical(st, "    jz .L"@),
        BinaryOperator::Or => gen_logical(st, "    jnz .L"@),
    }
}

/// A comparison: compare, set the low byte on the condition, widen.
pub open spec fn gen_compare(st: GenState, set: Seq<char>) -> GenState {
    emit(emit(emit(st, "    cmpq %rcx, %rax"@), set), "    movzbq %al, %rax"@)
}

/// `&&` and `||`. Both operands have been evaluated and popped when the
/// test begins, so an operand with a side effect has it in either case; only
/// the result is short-circuited: the first operand is tested, and the jump
/// passes over the test of the second.
pub open spec fn gen_logical(st: GenState, jump: Seq<char>) -> GenState {
    let st1 = emit(st, "    testq %rax, %rax"@);
    let skip = st1.labels;
    let st2 = GenState { labels: skip + 1, ..st1 };
    let st3 = emit(st2, number_line(jump, skip, ""@));
    let st4 = emit(st3, "    testq %rcx, %rcx"@);
    let st5 = emit(st4, "    setne %al"@);
    let st6 = emit(st5, "    movzbq %al, %rax"@);
    emit(st6, number_line(".L"@, skip, ":"@))
}

/// The frame set-up at the head of every routine.
pub open spec fn gen_prologue(st: GenState) -> GenState {
    emit(emit(emit(st, "    pushq %rbp"@), "    movq %rsp, %rbp"@), "    subq $256, %rsp"@)
}

/// The frame tear-down and return.
pub open spec fn gen_epilogue(st: GenState) -> GenState {
    emit(emit(emit(st, "    movq %rbp, %rsp"@), "    popq %rbp"@), "    ret"@)
}

/// The register that carries argument `i`, for `i < 6`.
pub open spec fn argument_register(i: nat) -> Seq<char> {
    if i == 0 {
        "rdi"@
    } else if i == 1 {
        "rsi"@
    } else if i == 2 {
        "rdx"@
    } else if i == 3 {
        "rcx"@
    } else if i == 4 {
        "r8"@
    } else {
        "r9"@
    }
}

/// Copies parameter `i` into a slot of its own: from its register for the
/// first six, from the caller's frame at offset `(i - 6 + 2) * 8` for the rest.
pub open spec fn gen_param(st: GenState, name: Seq<char>, i: nat) -> GenState {
    let slot = position(st.vars, name);
    let st1 = locate(st, name);
    if i < 6 {
        emit(st1, slot_line("    movq %"@ + argument_register(i) + ", "@, slot, "(%rbp)"@))
    } else {
        let st2 = emit(st1, number_line("    movq "@, ((i - 4) * 8) as nat, "(%rbp), %rax"@));
        emit(st2, slot_line("    movq %rax, "@, slot, "(%rbp)"@))
    }
}

/// The state after the first `k` parameters were copied.
pub open spec fn gen_params(st: GenState, params: Seq<Seq<char>>, k: nat) -> GenState
    decreases k,
{
    if k == 0 || k > params.len() {
        st
    } else {
        gen_param(gen_params(st, params, (k - 1) as nat), params[k - 1], (k - 1) as nat)
    }
}

/// The state after the first `k` arguments of a call were popped into registers.
pub open spec fn gen_pops(st: GenState, k: nat) -> GenState
    decreases k,
{
    if k == 0 {
        st
    } else if k > 6 {
        gen_pops(st, (k - 1) as nat)
    } else {
        emit(gen_pops(st, (k - 1) as nat), "    popq %"@ + argument_register((k - 1) as nat))
    }
}

/// The register that carries operand `i` of an inline assembly block.
pub open spec fn operand_register(i: nat) -> Seq<char> {
    if i == 0 {
        "rax"@
    } else if i == 1 {
        "rbx"@
    } else if i == 2 {
        "rcx"@
    } else {
        "rdx"@
    }
}

/// The register of the operand at position `i`: taken from the table when the
/// constraint is the expected one, `rax` otherwise.
pub open spec fn constrained_register(
    constraint: Seq<char>,
    expected: Seq<char>,
    i: nat,
) -> Seq<char> {
    if constraint == expected {
        operand_register(i)
    } else {
        "rax"@
    }
}

/// Whether a clobber names a register to save: `memory` and `cc` do not.
pub open spec fn is_saved(clobber: Seq<char>) -> bool {
    clobber != "memory"@ && clobber != "cc"@
}

/// The state after the first `k` clobbered registers were saved.
pub open spec fn gen_saves(st: GenState, clobbers: Seq<Seq<char>>, k: nat) -> GenState
    decreases k,
{
    if k == 0 || k > clobbers.len() {
        st
    } else {
        let st1 = gen_saves(st, clobbers, (k - 1) as nat);
        if is_saved(clobbers[k - 1]) {
            emit(st1, "    pushq %"@ + clobbers[k - 1])
        } else {
            st1
        }
    }
}

/// The state after the clobbered registers from the last down to the one at
/// `k` were restored.
pub open spec fn gen_restores(st: GenState, clobbers: Seq<Seq<char>>, k: nat) -> GenState
    decreases clobbers.len() - k,
{
    if k >= clobbers.len() {
        st
    } else {
        let st1 = gen_restores(st, clobbers, k + 1);
        if is_saved(clobbers[k as int]) {
            emit(st1, "    popq %"@ + clobbers[k as int])
        } else {
            st1
        }
    }
}

/// The state after the first `k` input operands were loaded. An operand whose
/// identifier has no slot is passed over.
pub open spec fn gen_loads(
    st: GenState,
    inputs: Seq<(Seq<char>, Seq<char>)>,
    k: nat,
) -> GenState
    decreases k,
{
    if k == 0 || k > inputs.len() {
        st
    } else {
        let st1 = gen_loads(st, inputs, (k - 1) as nat);
        let (constraint, name) = inputs[k - 1];
        let slot = position(st1.vars, name);
        if slot < st1.vars.len() {
            emit(
                st1,
                slot_line("    movq "@, slot, "(%rbp), %"@) + constrained_register(
                    constraint,
                    "r"@,
                    (k - 1) as nat,
                ),
            )
        } else {
            st1
        }
    }
}

/// The state after the first `k` output operands were stored. An operand whose
/// identifier has no slot is passed over.
pub open spec fn gen_stores(
    st: GenState,
    outputs: Seq<(Seq<char>, Seq<char>)>,
    k: nat,
) -> GenState
    decreases k,
{
    if k == 0 || k > outputs.len() {
        st
    } else {
        let st1 = gen_stores(st, outputs, (k - 1) as nat);
        let (constraint, name) = outputs[k - 1];
        let slot = position(st1.vars, name);
        if slot < st1.vars.len() {
            emit(
                st1,
                slot_line(
                    "    movq %"@ + constrained_register(constraint, "=r"@, (k - 1) as nat) + ", "@,
                    slot,
                    "(%rbp)"@,
                ),
            )
        } else {
            st1
        }
    }
}

/// The state after the first `k` lines of a template were emitted, each
/// trimmed and indented.
pub open spec fn gen_template(st: GenState, lines: Seq<Seq<char>>, k: nat) -> GenState
    decreases k,
{
    if k == 0 || k > lines.len() {
        st
    } else {
        emit(gen_template(st, lines, (k - 1) as nat), "    "@ + trim(lines[k - 1]))
    }
}

/// What an inline assembly block emits.
pub open spec fn gen_asm(
    st: GenState,
    template: Seq<char>,
    outputs: Seq<(Seq<char>, Seq<char>)>,
    inputs: Seq<(Seq<char>, Seq<char>)>,
    clobbers: Seq<Seq<char>>,
) -> GenState {
    let st1 = emit(st, "    # Begin inline assembly"@);
    let st2 = gen_saves(st1, clobbers, clobbers.len());
    let st3 = gen_loads(st2, inputs, inputs.len());
    let st4 = gen_template(st3, lines_of(template), lines_of(template).len());
    let st5 = gen_stores(st4, outputs, outputs.len());
    let st6 = gen_restores(st5, clobbers, 0);
    emit(st6, "    # End inline assembly"@)
}

/// The state after the code for a tree was emitted.
pub open spec fn gen_node(a: Ast, st: GenState) -> GenState
    decreases a, 0nat,
{
    match a {
        Ast::Number(n) => emit(st, "    pushq $"@ + decimal_int(n as int)),
        Ast::Variable(name) => emit(
            locate(st, name),
            slot_line("    pushq "@, position(st.vars, name), "(%rbp)"@),
        ),
        Ast::StringLiteral(s) => {
            let st1 = GenState { pool: intern(st.pool, s), ..st };
            let st2 = emit(st1, number_line("    leaq str"@, position(st.pool, s), "(%rip), %rax"@));
            emit(st2, "    pushq %rax"@)
        },
        Ast::Assignment(name, value) => {
            let st1 = gen_node(*value, st);
            let st2 = emit(locate(st1, name), "    popq %rax"@);
            emit(st2, slot_line("    movq %rax, "@, position(st1.vars, name), "(%rbp)"@))
        },
        Ast::BinaryOp(l, op, r) => {
            let st1 = gen_node(*r, gen_node(*l, st));
            let st2 = emit(emit(st1, "    popq %rcx"@), "    popq %rax"@);
            emit(gen_operator(op, st2), "    pushq %rax"@)
        },
        Ast::If(c, t, e) => {
            let else_label = st.labels;
            let end_label = st.labels + 1;
            let st1 = gen_node(*c, GenState { labels: st.labels + 2, ..st });
            let st2 = emit(emit(st1, "    popq %rax"@), "    testq %rax, %rax"@);
            let st3 = emit(st2, number_line("    je .L"@, else_label, ""@));
            let st4 = gen_node(*t, st3);
            let st5 = emit(st4, number_line("    jmp .L"@, end_label, ""@));
            let st6 = emit(st5, number_line(".L"@, else_label, ":"@));
            let st7 = match e {
                Some(b) => gen_node(*b, st6),
                None => st6,
            };
            emit(st7, number_line(".L"@, end_label, ":"@))
        },
        Ast::While(c, b) => {
            let start_label = st.labels;
            let end_label = st.labels + 1;
            let st1 = emit(
                GenState { labels: st.labels + 2, ..st },
                number_line(".L"@, start_label, ":"@),
            );
            let st2 = gen_node(*c, st1);
            let st3 = emit(emit(st2, "    popq %rax"@), "    testq %rax, %rax"@);
            let st4 = emit(st3, number_line("    je .L"@, end_label, ""@));
            let st5 = gen_node(*b, st4);
            let st6 = emit(st5, number_line("    jmp .L"@, start_label, ""@));
            emit(st6, number_line(".L"@, end_label, ":"@))
        },
        Ast::Block(statements) => gen_nodes(statements, statements.len(), st),
        Ast::FunctionDecl(name, params, body) => {
            let st1 = emit(GenState { vars: Seq::empty(), ..st }, name + ":"@);
            let st2 = gen_params(gen_prologue(st1), params, params.len());
            let st3 = gen_epilogue(gen_node(*body, st2));
            GenState { vars: st.vars, ..st3 }
        },
        Ast::FunctionPredecl(_, _) => st,
        Ast::FunctionCall(name, args) => {
            let st1 = gen_pops(gen_args(args, 0, st), args.len());
            emit(emit(st1, "    call "@ + name), "    pushq %rax"@)
        },
        Ast::Return(value) => {
            let st1 = match value {
                Some(b) => emit(gen_node(*b, st), "    popq %rax"@),
                None => st,
            };
            gen_epilogue(st1)
        },
        Ast::ArrayIndex(array, index) => {
            let st1 = gen_node(*index, gen_node(*array, st));
            let st2 = emit(emit(st1, "    popq %rcx        # index"@), "    popq %rax        # array base"@);
            let st3 = emit(emit(st2, "    leaq (%rax,%rcx), %rax"@), "    movzbq (%rax), %rax"@);
            emit(st3, "    pushq %rax"@)
        },
        Ast::ArrayAssignment(array, index, value) => {
            let st1 = gen_node(*index, gen_node(*array, gen_node(*value, st)));
            let st2 = emit(emit(st1, "    popq %rcx        # index"@), "    popq %rax        # array base"@);
            emit(emit(st2, "    popq %rdx        # value"@), "    movb %dl, (%rax,%rcx)"@)
        },
        Ast::InlineAsm { template, outputs, inputs, clobbers } => gen_asm(
            st,
            template,
            outputs,
            inputs,
            clobbers,
        ),
    }
}

/// The state after the code for the first `k` trees of a list was emitted.
pub open spec fn gen_nodes(nodes: Seq<Ast>, k: nat, st: GenState) -> GenState
    decreases nodes, k,
{
    if k == 0 || k > nodes.len() {
        st
    } else {
        gen_node(nodes[k - 1], gen_nodes(nodes, (k - 1) as nat, st))
    }
}

/// The state after the code for the arguments from the last down to the one
/// at `k` was emitted: the first argument ends up on top of the stack.
pub open spec fn gen_args(args: Seq<Ast>, k: nat, st: GenState) -> GenState
    decreases args, args.len() - k,
{
    if k >= args.len() {
        st
    } else {
        gen_node(args[k as int], gen_args(args, k + 1, st))
    }
}

/// The number of labels that the code for a tree takes.
pub open spec fn labels_in(a: Ast) -> nat
    decreases a, 0nat,
{
    match a {
        Ast::Assignment(_, value) => labels_in(*value),
        Ast::BinaryOp(l, op, r) => labels_in(*l) + labels_in(*r) + if op == BinaryOperator::And
            || op == BinaryOperator::Or {
            1nat
        } else {
            0nat
        },
        Ast::If(c, t, e) => 2 + labels_in(*c) + labels_in(*t) + match e {
            Some(b) => labels_in(*b),
            None => 0,
        },
        Ast::While(c, b) => 2 + labels_in(*c) + labels_in(*b),
        Ast::Block(statements) => labels_in_nodes(statements, statements.len()),
        Ast::FunctionDecl(_, _, body) => labels_in(*body),
        Ast::FunctionCall(_, args) => labels_in_nodes(args, args.len()),
        Ast::Return(value) => match value {
            Some(b) => labels_in(*b),
            None => 0,
        },
        Ast::ArrayIndex(array, index) => labels_in(*array) + labels_in(*index),
        Ast::ArrayAssignment(array, index, value) => labels_in(*array) + labels_in(*index)
            + labels_in(*value),
        _ => 0,
    }
}

/// The number of labels that the code for the first `k` trees of a list takes.
pub open spec fn labels_in_nodes(nodes: Seq<Ast>, k: nat) -> nat
    decreases nodes, k,
{
    if k == 0 || k > nodes.len() {
        0
    } else {
        labels_in_nodes(nodes, (k - 1) as nat) + labels_in(nodes[k - 1])
    }
}

/// Whether every operand of an inline assembly block that asks for a register
/// of the table stands at one of its four positions.
pub open spec fn operands_fit(operands: Seq<(Seq<char>, Seq<char>)>, expected: Seq<char>) -> bool {
    forall|i: int| 0 <= i < operands.len() && (#[trigger] operands[i]).0 == expected ==> i < 4
}

/// Whether code can be generated for a tree: every inline assembly block in
/// it keeps its register operands within the table.
pub open spec fn supported(a: Ast) -> bool
    decreases a, 0nat,
{
    match a {
        Ast::Assignment(_, value) => supported(*value),
        Ast::BinaryOp(l, _, r) => supported(*l) && supported(*r),
        Ast::If(c, t, e) => supported(*c) && supported(*t) && match e {
            Some(b) => supported(*b),
            None => true,
        },
        Ast::While(c, b) => supported(*c) && supported(*b),
        Ast::Block(statements) => all_supported(statements, statements.len()),
        Ast::FunctionDecl(_, _, body) => supported(*body),
        Ast::FunctionCall(_, args) => all_supported(args, args.len()),
        Ast::Return(value) => match value {
            Some(b) => supported(*b),
            None => true,
        },
        Ast::ArrayIndex(array, index) => supported(*array) && supported(*index),
        Ast::ArrayAssignment(array, index, value) => supported(*array) && supported(*index)
            && supported(*value),
        Ast::InlineAsm { template, outputs, inputs, clobbers } => operands_fit(inputs, "r"@)
            && operands_fit(outputs, "=r"@),
        _ => true,
    }
}

/// Whether code can be generated for each of the first `k` trees of a list.
pub open spec fn all_supported(nodes: Seq<Ast>, k: nat) -> bool
    decreases nodes, k,
{
    if k == 0 || k > nodes.len() {
        true
    } else {
        all_supported(nodes, (k - 1) as nat) && supported(nodes[k - 1])
    }
}

/// The pool after the string literals of a tree were added to it, each
/// distinct text once, in the order in which the tree holds them.
pub open spec fn collect(a: Ast, pool: Seq<Seq<char>>) -> Seq<Seq<char>>
    decreases a, 0nat,
{
    match a {
        Ast::StringLiteral(s) => intern(pool, s),
        Ast::Block(statements) => collect_nodes(statements, statements.len(), pool),
        Ast::If(c, t, e) => {
            let p = collect(*t, collect(*c, pool));
            match e {
                Some(b) => collect(*b, p),
                None => p,
            }
        },
        Ast::While(c, b) => collect(*b, collect(*c, pool)),
        Ast::FunctionDecl(_, _, body) => collect(*body, pool),
        Ast::BinaryOp(l, _, r) => collect(*r, collect(*l, pool)),
        Ast::Assignment(_, value) => collect(*value, pool),
        Ast::FunctionCall(_, args) => collect_nodes(args, args.len(), pool),
        Ast::Return(value) => match value {
            Some(b) => collect(*b, pool),
            None => pool,
        },
        Ast::ArrayIndex(array, index) => collect(*index, collect(*array, pool)),
        Ast::ArrayAssignment(array, index, value) => collect(
            *value,
            collect(*index, collect(*array, pool)),
        ),
        _ => pool,
    }
}

/// The pool after the string literals of the first `k` trees of a list were
/// added to it.
pub open spec fn collect_nodes(nodes: Seq<Ast>, k: nat, pool: Seq<Seq<char>>) -> Seq<Seq<char>>
    decreases nodes, k,
{
    if k == 0 || k > nodes.len() {
        pool
    } else {
        collect(nodes[k - 1], collect_nodes(nodes, (k - 1) as nat, pool))
    }
}

/// The state after the first `k` entries of the pool were declared.
pub open spec fn gen_data(st: GenState, k: nat) -> GenState
    decreases k,
{
    if k == 0 || k > st.pool.len() {
        st
    } else {
        let st1 = emit(gen_data(st, (k - 1) as nat), number_line("str"@, (k - 1) as nat, ":"@));
        emit(st1, "    .string \""@ + st.pool[k - 1] + "\""@)
    }
}

/// The data section: one labelled `.string` for each entry of the pool, and
/// nothing at all when the pool is empty.
pub open spec fn gen_data_section(st: GenState) -> GenState {
    if st.pool.len() > 0 {
        gen_data(emit(st, ".section .data"@), st.pool.len())
    } else {
        st
    }
}

/// The state after the code for those of the first `k` top-level trees was
/// emitted that are function definitions (`functions`) or that are not.
pub open spec fn gen_top(nodes: Seq<Ast>, k: nat, functions: bool, st: GenState) -> GenState
    decreases k,
{
    if k == 0 || k > nodes.len() {
        st
    } else {
        let st1 = gen_top(nodes, (k - 1) as nat, functions, st);
        if (nodes[k - 1] is FunctionDecl) == functions {
            gen_node(nodes[k - 1], st1)
        } else {
            st1
        }
    }
}

/// The number of labels that `gen_top` takes.
pub open spec fn labels_in_top(nodes: Seq<Ast>, k: nat, functions: bool) -> nat
    decreases k,
{
    if k == 0 || k > nodes.len() {
        0
    } else {
        labels_in_top(nodes, (k - 1) as nat, functions) + if (nodes[k - 1] is FunctionDecl)
            == functions {
            labels_in(nodes[k - 1])
        } else {
            0
        }
    }
}

/// Whether a file holds top-level code besides function definitions.
pub open spec fn has_statements(nodes: Seq<Ast>) -> bool {
    exists|i: int| 0 <= i < nodes.len() && !(#[trigger] nodes[i] is FunctionDecl)
}

/// The entry routine of the program: `_start` runs the top-level statements
/// in source order and leaves through the exit system call with status 0.
pub open spec fn gen_entry(nodes: Seq<Ast>, st: GenState) -> GenState {
    let st1 = emit(emit(emit(emit(st, ""@), ".global _start"@), ""@), "_start:"@);
    let st2 = gen_top(nodes, nodes.len(), false, gen_prologue(st1));
    let st3 = emit(emit(emit(st2, ""@), "    movq %rbp, %rsp"@), "    popq %rbp"@);
    emit(emit(emit(st3, "    movq $60, %rax"@), "    xorq %rdi, %rdi"@), "    syscall"@)
}

/// The initialisation routine of an included file: `__init_<n>` runs the
/// top-level statements and returns. A file without such statements has
/// none. No call of the routine is emitted: calling it is left to whoever
/// links the files.
pub open spec fn gen_init(nodes: Seq<Ast>, st: GenState) -> GenState {
    if has_statements(nodes) {
        let st1 = emit(GenState { labels: st.labels + 1, ..st }, ""@);
        let st2 = emit(st1, number_line("__init_"@, st.labels, ":"@));
        gen_epilogue(gen_top(nodes, nodes.len(), false, gen_prologue(st2)))
    } else {
        st
    }
}

/// The text section of a file: the functions, then the entry routine or the
/// initialisation routine.
pub open spec fn generate_text(st: GenState, nodes: Seq<Ast>) -> GenState {
    let st1 = emit(emit(st, ""@), ".section .text"@);
    let st2 = gen_top(nodes, nodes.len(), true, st1);
    if st.main_file {
        gen_entry(nodes, st2)
    } else {
        gen_init(nodes, st2)
    }
}

/// The state in which the generation of a file starts: nothing is emitted,
/// labels count from zero, no slot is taken, and the pool holds the string
/// literals of the file.
pub open spec fn begin(main_file: bool, nodes: Seq<Ast>) -> GenState {
    GenState {
        out: Seq::empty(),
        labels: 0,
        vars: Seq::empty(),
        pool: collect_nodes(nodes, nodes.len(), Seq::empty()),
        main_file,
    }
}

/// The state after a whole file was generated. Every run starts afresh:
/// what a generator emitted before has no part in it, so the text, the
/// label numbers and the `str` indices depend on the trees and on the kind
/// of file alone.
pub open spec fn generate(st: GenState, nodes: Seq<Ast>) -> GenState {
    generate_text(gen_data_section(begin(st.main_file, nodes)), nodes)
}

/// The number of labels that generating a whole file takes.
pub open spec fn labels_needed(nodes: Seq<Ast>, main_file: bool) -> nat {
    labels_in_top(nodes, nodes.len(), true) + labels_in_top(nodes, nodes.len(), false) + if !main_file
        && has_statements(nodes) {
        1nat
    } else {
        0nat
    }
}

/// Appends the frame offset of a slot.
fn push_slot(out: &mut String, slot: usize)
    ensures
        final(out)@ == old(out)@ + slot_text(slot as nat),
{
    out.push('-');
    push_decimal(out, 8 * (slot as u128 + 1));
    assert(final(out)@ =~= old(out)@ + slot_text(slot as nat));
}

/// The name of the register that carries argument `i`.
fn argument_register_name(i: usize) -> (name: &'static str)
    requires
        i < 6,
    ensures
        name@ == argument_register(i as nat),
{
    if i == 0 {
        "rdi"
    } else if i == 1 {
        "rsi"
    } else if i == 2 {
        "rdx"
    } else if i == 3 {
        "rcx"
    } else if i == 4 {
        "r8"
    } else {
        "r9"
    }
}

/// The name of the register of the operand at position `i`.
fn constrained_register_name(constraint: &str, expected: &str, i: usize) -> (name: &'static str)
    requires
        constraint@ == expected@ ==> i < 4,
    ensures
        name@ == constrained_register(constraint@, expected@, i as nat),
{
    if *constraint == *expected {
        if i == 0 {
            "rax"
        } else if i == 1 {
            "rbx"
        } else if i == 2 {
            "rcx"
        } else {
            "rdx"
        }
    } else {
        "rax"
    }
}

/// The context of one emission run: the output buffer, the label counter,
/// the slots of the current frame and the string pool.
pub struct CodeGenerator {
    assembly: String,
    label_count: usize,
    var_map: Vec<String>,
    string_literals: Vec<String>,
    is_main_file: bool,
}

impl View for CodeGenerator {
    type V = GenState;

    closed spec fn view(&self) -> GenState {
        GenState {
            out: self.assembly@,
            labels: self.label_count as nat,
            vars: texts(self.var_map@),
            pool: texts(self.string_literals@),
            main_file: self.is_main_file,
        }
    }
}

impl CodeGenerator {
    /// A generator that has emitted nothing.
    pub fn new(is_main_file: bool) -> (g: Self)
        ensures
            g@ == (GenState {
                out: Seq::empty(),
                labels: 0,
                vars: Seq::empty(),
                pool: Seq::empty(),
                main_file: is_main_file,
            }),
    {
        let g = CodeGenerator {
            assembly: String::new(),
            label_count: 0,
            var_map: Vec::new(),
            string_literals: Vec::new(),
            is_main_file,
        };
        assert(texts(g.var_map@) =~= Seq::empty());
        assert(texts(g.string_literals@) =~= Seq::empty());
        g
    }

    /// Emits one line.
    fn emit(&mut self, line: &str)
        ensures
            final(self)@ == emit(old(self)@, line@),
    {
        self.assembly.append(line);
        self.assembly.push('\n');
    }

    /// Emits a line made of a prefix, the offset of a slot, and a suffix.
    fn emit_slot_line(&mut self, before: &str, slot: usize, after: &str)
        ensures
            final(self)@ == emit(old(self)@, slot_line(before@, slot as nat, after@)),
    {
        let mut line = String::from_str(before);
        push_slot(&mut line, slot);
        line.append(after);
        self.emit(line.as_str());
    }

    /// Emits a line made of a prefix, a number, and a suffix.
    fn emit_number_line(&mut self, before: &str, n: u128, after: &str)
        ensures
            final(self)@ == emit(old(self)@, number_line(before@, n as nat, after@)),
    {
        let mut line = String::from_str(before);
        push_decimal(&mut line, n);
        line.append(after);
        self.emit(line.as_str());
    }

    /// Emits a line made of a prefix and a text.
    fn emit_joined(&mut self, before: &str, text: &str)
        ensures
            final(self)@ == emit(old(self)@, before@ + text@),
    {
        let mut line = String::from_str(before);
        line.append(text);
        self.emit(line.as_str());
    }

    /// Takes the next label number.
    fn get_new_label(&mut self) -> (label: usize)
        requires
            old(self)@.labels < usize::MAX,
        ensures
            label == old(self)@.labels,
            final(self)@ == (GenState { labels: old(self)@.labels + 1, ..old(self)@ }),
    {
        let label = self.label_count;
        self.label_count = label + 1;
        label
    }

    /// The slot of an identifier; its first use allocates the next free slot.
    fn get_var_location(&mut self, name: &str) -> (slot: usize)
        ensures
            slot == position(old(self)@.vars, name@),
            final(self)@ == locate(old(self)@, name@),
    {
        let slot = find(&self.var_map, name);
        if slot == self.var_map.len() {
            let owned = name.to_owned();
            proof {
                lemma_texts_push(self.var_map@, owned);
            }
            self.var_map.push(owned);
        }
        slot
    }

    /// The index of a literal in the pool, adding it at the end if it is new.
    fn add_string_literal(&mut self, s: &str) -> (index: usize)
        ensures
            index == position(old(self)@.pool, s@),
            final(self)@ == (GenState { pool: intern(old(self)@.pool, s@), ..old(self)@ }),
    {
        let index = find(&self.string_literals, s);
        if index == self.string_literals.len() {
            let owned = s.to_owned();
            proof {
                lemma_texts_push(self.string_literals@, owned);
            }
            self.string_literals.push(owned);
        }
        index
    }
}

/// Each of the first `k` trees of a supported list is supported.
pub proof fn lemma_supported_at(nodes: Seq<Ast>, k: nat, i: int)
    requires
        all_supported(nodes, k),
        0 <= i < k <= nodes.len(),
    ensures
        supported(nodes[i]),
    decreases k,
{
    if i < k - 1 {
        lemma_supported_at(nodes, (k - 1) as nat, i);
    }
}

/// A longer prefix of a list takes at least as many labels.
pub proof fn lemma_labels_grow(nodes: Seq<Ast>, i: nat, k: nat)
    requires
        i <= k <= nodes.len(),
    ensures
        labels_in_nodes(nodes, i) <= labels_in_nodes(nodes, k),
    decreases k,
{
    if i < k {
        lemma_labels_grow(nodes, i, (k - 1) as nat);
    }
}

/// Arguments beyond the sixth are not popped.
pub proof fn lemma_pops_beyond(st: GenState, k: nat)
    requires
        k >= 6,
    ensures
        gen_pops(st, k) == gen_pops(st, 6),
    decreases k,
{
    if k > 6 {
        lemma_pops_beyond(st, (k - 1) as nat);
    }
}

impl CodeGenerator {
    /// Emits the code for a tree.
    fn generate_node(&mut self, node: &AstNode)
        requires
            supported(node@),
            old(self)@.labels + labels_in(node@) <= usize::MAX,
        ensures
            final(self)@ == gen_node(node@, old(self)@),
            final(self)@.labels == old(self)@.labels + labels_in(node@),
        decreases node, 1nat,
    {
        match node {
            AstNode::Number(n) => {
                let mut line = String::from_str("    pushq $");
                push_decimal_int(&mut line, *n);
                self.emit(line.as_str());
            },
            AstNode::Variable(name) => {
                let slot = self.get_var_location(name.as_str());
                self.emit_slot_line("    pushq ", slot, "(%rbp)");
            },
            AstNode::StringLiteral(s) => {
                let index = self.add_string_literal(s.as_str());
                self.emit_number_line("    leaq str", index as u128, "(%rip), %rax");
                self.emit("    pushq %rax");
            },
            AstNode::Assignment(name, value) => {
                self.generate_node(value);
                let slot = self.get_var_location(name.as_str());
                self.emit("    popq %rax");
                self.emit_slot_line("    movq %rax, ", slot, "(%rbp)");
            },
            AstNode::BinaryOp(left, op, right) => {
                self.generate_node(left);
                self.generate_node(right);
                self.emit("    popq %rcx");
                self.emit("    popq %rax");
                self.generate_operator(*op);
                self.emit("    pushq %rax");
            },
            AstNode::If(_, _, _) => {
                self.generate_if(node);
            },
            AstNode::While(_, _) => {
                self.generate_while(node);
            },
            AstNode::Block(_) => {
                self.generate_block(node);
            },
            AstNode::FunctionDecl(_, _, _) => {
                self.generate_function(node);
            },
            AstNode::FunctionPredecl(_, _) => {},
            AstNode::FunctionCall(_, _) => {
                self.generate_call(node);
            },
            AstNode::Return(value) => {
                if let Some(expr) = value {
                    self.generate_node(expr);
                    self.emit("    popq %rax");
                }
                self.emit_epilogue();
            },
            AstNode::ArrayIndex(array, index) => {
                self.generate_node(array);
                self.generate_node(index);
                self.emit("    popq %rcx        # index");
                self.emit("    popq %rax        # array base");
                self.emit("    leaq (%rax,%rcx), %rax");
                self.emit("    movzbq (%rax), %rax");
                self.emit("    pushq %rax");
            },
            AstNode::ArrayAssignment(array, index, value) => {
                self.generate_node(value);
                self.generate_node(array);
                self.generate_node(index);
                self.emit("    popq %rcx        # index");
                self.emit("    popq %rax        # array base");
                self.emit("    popq %rdx        # value");
                self.emit("    movb %dl, (%rax,%rcx)");
            },
            AstNode::InlineAsm { template, outputs, inputs, clobbers } => {
                self.generate_asm(template, outputs, inputs, clobbers);
            },
        }
    }

    /// Emits the frame set-up.
    fn emit_prologue(&mut self)
        ensures
            final(self)@ == gen_prologue(old(self)@),
    {
        self.emit("    pushq %rbp");
        self.emit("    movq %rsp, %rbp");
        self.emit("    subq $256, %rsp");
    }

    /// Emits the frame tear-down and return.
    fn emit_epilogue(&mut self)
        ensures
            final(self)@ == gen_epilogue(old(self)@),
    {
        self.emit("    movq %rbp, %rsp");
        self.emit("    popq %rbp");
        self.emit("    ret");
    }

    /// Emits a comparison that sets the low byte with `set`.
    fn generate_compare(&mut self, set: &str)
        ensures
            final(self)@ == gen_compare(old(self)@, set@),
    {
        self.emit("    cmpq %rcx, %rax");
        self.emit(set);
        self.emit("    movzbq %al, %rax");
    }

    /// Emits `&&` or `||`, which differ in the jump past the second test.
    fn generate_logical(&mut self, jump: &str)
        requires
            old(self)@.labels < usize::MAX,
        ensures
            final(self)@ == gen_logical(old(self)@, jump@),
            final(self)@.labels == old(self)@.labels + 1,
    {
        self.emit("    testq %rax, %rax");
        let skip = self.get_new_label();
        self.emit_number_line(jump, skip as u128, "");
        self.emit("    testq %rcx, %rcx");
        self.emit("    setne %al");
        self.emit("    movzbq %al, %rax");
        self.emit_number_line(".L", skip as u128, ":");
    }

    /// Emits what an operator does to its popped operands.
    fn generate_operator(&mut self, op: BinaryOperator)
        requires
            op == BinaryOperator::And || op == BinaryOperator::Or ==> old(self)@.labels
                < usize::MAX,
        ensures
            final(self)@ == gen_operator(op, old(self)@),
            final(self)@.labels == old(self)@.labels + if op == BinaryOperator::And || op
                == BinaryOperator::Or {
                1nat
            } else {
                0nat
            },
    {
        match op {
            BinaryOperator::Add => self.emit("    addq %rcx, %rax"),
            BinaryOperator::Subtract => self.emit("    subq %rcx, %rax"),
            BinaryOperator::Multiply => self.emit("    imulq %rcx, %rax"),
            BinaryOperator::Divide => {
                self.emit("    cqo");
                self.emit("    idivq %rcx");
            },
            BinaryOperator::Equals => self.generate_compare("    sete %al"),
            BinaryOperator::NotEquals => self.generate_compare("    setne %al"),
            BinaryOperator::Less => self.generate_compare("    setl %al"),
            BinaryOperator::Greater => self.generate_compare("    setg %al"),
            BinaryOperator::LessEqual => self.generate_compare("    setle %al"),
            BinaryOperator::GreaterEqual => self.generate_compare("    setge %al"),
            BinaryOperator::And => self.generate_logical("    jz .L"),
            BinaryOperator::Or => self.generate_logical("    jnz .L"),
        }
    }

    /// Emits a conditional: the else label comes first, the end label second.
    fn generate_if(&mut self, node: &AstNode)
        requires
            node is If,
            supported(node@),
            old(self)@.labels + labels_in(node@) <= usize::MAX,
        ensures
            final(self)@ == gen_node(node@, old(self)@),
            final(self)@.labels == old(self)@.labels + labels_in(node@),
        decreases node, 0nat,
    {
        if let AstNode::If(condition, then_branch, else_branch) = node {
            let else_label = self.get_new_label();
            let end_label = self.get_new_label();
            self.generate_node(condition);
            self.emit("    popq %rax");
            self.emit("    testq %rax, %rax");
            self.emit_number_line("    je .L", else_label as u128, "");
            self.generate_node(then_branch);
            self.emit_number_line("    jmp .L", end_label as u128, "");
            self.emit_number_line(".L", else_label as u128, ":");
            if let Some(else_node) = else_branch {
                self.generate_node(else_node);
            }
            self.emit_number_line(".L", end_label as u128, ":");
        }
    }

    /// Emits a loop: the start label comes first, the end label second.
    fn generate_while(&mut self, node: &AstNode)
        requires
            node is While,
            supported(node@),
            old(self)@.labels + labels_in(node@) <= usize::MAX,
        ensures
            final(self)@ == gen_node(node@, old(self)@),
            final(self)@.labels == old(self)@.labels + labels_in(node@),
        decreases node, 0nat,
    {
        if let AstNode::While(condition, body) = node {
            let start_label = self.get_new_label();
            let end_label = self.get_new_label();
            self.emit_number_line(".L", start_label as u128, ":");
            self.generate_node(condition);
            self.emit("    popq %rax");
            self.emit("    testq %rax, %rax");
            self.emit_number_line("    je .L", end_label as u128, "");
            self.generate_node(body);
            self.emit_number_line("    jmp .L", start_label as u128, "");
            self.emit_number_line(".L", end_label as u128, ":");
        }
    }

    /// Emits the statements of a block in order.
    fn generate_block(&mut self, node: &AstNode)
        requires
            node is Block,
            supported(node@),
            old(self)@.labels + labels_in(node@) <= usize::MAX,
        ensures
            final(self)@ == gen_node(node@, old(self)@),
            final(self)@.labels == old(self)@.labels + labels_in(node@),
        decreases node, 0nat,
    {
        if let AstNode::Block(statements) = node {
            proof {
                lemma_children(*node);
            }
            let ghost trees = asts(statements@);
            let n = statements.len();
            let mut i: usize = 0;
            while i < n
                invariant
                    i <= n == statements.len(),
                    *node == AstNode::Block(*statements),
                    trees == asts(statements@),
                    all_supported(trees, n as nat),
                    old(self)@.labels + labels_in_nodes(trees, n as nat) <= usize::MAX,
                    self@ == gen_nodes(trees, i as nat, old(self)@),
                    self@.labels == old(self)@.labels + labels_in_nodes(trees, i as nat),
                decreases n - i,
            {
                proof {
                    lemma_supported_at(trees, n as nat, i as int);
                    lemma_labels_grow(trees, (i + 1) as nat, n as nat);
                    vstd::std_specs::vec::axiom_vec_index_decreases(*statements, i as int);
                    assert(decreases_to!(*node => node->Block_0));
                }
                self.generate_node(&statements[i]);
                i += 1;
            }
        }
    }

    /// Emits a function: a frame of its own, the parameters copied into
    /// slots, the body, and the return.
    fn generate_function(&mut self, node: &AstNode)
        requires
            node is FunctionDecl,
            supported(node@),
            old(self)@.labels + labels_in(node@) <= usize::MAX,
        ensures
            final(self)@ == gen_node(node@, old(self)@),
            final(self)@.labels == old(self)@.labels + labels_in(node@),
        decreases node, 0nat,
    {
        if let AstNode::FunctionDecl(name, params, body) = node {
            let mut saved: Vec<String> = Vec::new();
            std::mem::swap(&mut self.var_map, &mut saved);
            assert(texts(self.var_map@) =~= Seq::empty());
            self.emit_joined(name.as_str(), ":");
            self.emit_prologue();
            let ghost start = self@;
            let ghost names = texts(params@);
            let n = params.len();
            let mut i: usize = 0;
            while i < n
                invariant
                    i <= n == params.len(),
                    names == texts(params@),
                    self@ == gen_params(start, names, i as nat),
                decreases n - i,
            {
                let slot = self.get_var_location(params[i].as_str());
                if i < 6 {
                    let mut before = String::from_str("    movq %");
                    before.append(argument_register_name(i));
                    before.append(", ");
                    self.emit_slot_line(before.as_str(), slot, "(%rbp)");
                } else {
                    self.emit_number_line("    movq ", (i as u128 - 4) * 8, "(%rbp), %rax");
                    self.emit_slot_line("    movq %rax, ", slot, "(%rbp)");
                }
                i += 1;
            }
            proof {
                lemma_params_frame(start, names, n as nat);
            }
            self.generate_node(body);
            self.emit_epilogue();
            self.var_map = saved;
        }
    }

    /// Emits a call: the arguments from the last to the first, up to six of
    /// them popped into registers, the call, and the result pushed.
    fn generate_call(&mut self, node: &AstNode)
        requires
            node is FunctionCall,
            supported(node@),
            old(self)@.labels + labels_in(node@) <= usize::MAX,
        ensures
            final(self)@ == gen_node(node@, old(self)@),
            final(self)@.labels == old(self)@.labels + labels_in(node@),
        decreases node, 0nat,
    {
        if let AstNode::FunctionCall(name, args) = node {
            proof {
                lemma_children(*node);
            }
            let ghost trees = asts(args@);
            let n = args.len();
            let mut i: usize = n;
            while i > 0
                invariant
                    i <= n == args.len(),
                    *node == AstNode::FunctionCall(*name, *args),
                    trees == asts(args@),
                    all_supported(trees, n as nat),
                    old(self)@.labels + labels_in_nodes(trees, n as nat) <= usize::MAX,
                    self@ == gen_args(trees, i as nat, old(self)@),
                    self@.labels + labels_in_nodes(trees, i as nat) == old(self)@.labels
                        + labels_in_nodes(trees, n as nat),
                decreases i,
            {
                proof {
                    lemma_supported_at(trees, n as nat, i - 1);
                    lemma_labels_grow(trees, i as nat, n as nat);
                    vstd::std_specs::vec::axiom_vec_index_decreases(*args, i - 1);
                    assert(decreases_to!(*node => node->FunctionCall_1));
                }
                self.generate_node(&args[i - 1]);
                i -= 1;
            }
            let ghost pushed = self@;
            let mut k: usize = 0;
            while k < n && k < 6
                invariant
                    k <= n,
                    k <= 6,
                    self@ == gen_pops(pushed, k as nat),
                decreases n - k,
            {
                self.emit_joined("    popq %", argument_register_name(k));
                k += 1;
            }
            proof {
                if n > 6 {
                    lemma_pops_beyond(pushed, n as nat);
                }
                lemma_pops_frame(pushed, k as nat);
            }
            self.emit_joined("    call ", name.as_str());
            self.emit("    pushq %rax");
        }
    }

    /// Emits an inline assembly block.
    fn generate_asm(
        &mut self,
        template: &String,
        outputs: &Vec<(String, String)>,
        inputs: &Vec<(String, String)>,
        clobbers: &Vec<String>,
    )
        requires
            operands_fit(text_pairs(inputs@), "r"@),
            operands_fit(text_pairs(outputs@), "=r"@),
        ensures
            final(self)@ == gen_asm(
                old(self)@,
                template@,
                text_pairs(outputs@),
                text_pairs(inputs@),
                texts(clobbers@),
            ),
            final(self)@.labels == old(self)@.labels,
    {
        self.emit("    # Begin inline assembly");
        self.save_clobbers(clobbers);
        self.load_inputs(inputs);
        self.emit_template(template);
        self.store_outputs(outputs);
        self.restore_clobbers(clobbers);
        self.emit("    # End inline assembly");
    }

    /// Saves the clobbered registers in the order in which they are declared.
    fn save_clobbers(&mut self, clobbers: &Vec<String>)
        ensures
            final(self)@ == gen_saves(old(self)@, texts(clobbers@), clobbers.len() as nat),
            final(self)@.labels == old(self)@.labels,
    {
        let n = clobbers.len();
        let mut i: usize = 0;
        while i < n
            invariant
                i <= n == clobbers.len(),
                self@ == gen_saves(old(self)@, texts(clobbers@), i as nat),
                self@.labels == old(self)@.labels,
            decreases n - i,
        {
            let clobber = clobbers[i].as_str();
            if !(*clobber == *"memory") && !(*clobber == *"cc") {
                self.emit_joined("    pushq %", clobber);
            }
            i += 1;
        }
    }

    /// Restores the clobbered registers in the reverse order.
    fn restore_clobbers(&mut self, clobbers: &Vec<String>)
        ensures
            final(self)@ == gen_restores(old(self)@, texts(clobbers@), 0),
            final(self)@.labels == old(self)@.labels,
    {
        let n = clobbers.len();
        let mut i: usize = n;
        while i > 0
            invariant
                i <= n == clobbers.len(),
                self@ == gen_restores(old(self)@, texts(clobbers@), i as nat),
                self@.labels == old(self)@.labels,
            decreases i,
        {
            let clobber = clobbers[i - 1].as_str();
            if !(*clobber == *"memory") && !(*clobber == *"cc") {
                self.emit_joined("    popq %", clobber);
            }
            i -= 1;
        }
    }

    /// Loads each input operand that has a slot into its register.
    fn load_inputs(&mut self, inputs: &Vec<(String, String)>)
        requires
            operands_fit(text_pairs(inputs@), "r"@),
        ensures
            final(self)@ == gen_loads(old(self)@, text_pairs(inputs@), inputs.len() as nat),
            final(self)@.labels == old(self)@.labels,
    {
        let n = inputs.len();
        let mut i: usize = 0;
        while i < n
            invariant
                i <= n == inputs.len(),
                operands_fit(text_pairs(inputs@), "r"@),
                self@ == gen_loads(old(self)@, text_pairs(inputs@), i as nat),
                self@.labels == old(self)@.labels,
            decreases n - i,
        {
            assert(text_pairs(inputs@)[i as int] == (inputs@[i as int].0@, inputs@[i as int].1@));
            let register = constrained_register_name(inputs[i].0.as_str(), "r", i);
            let slot = find(&self.var_map, inputs[i].1.as_str());
            if slot < self.var_map.len() {
                let mut line = String::from_str("    movq ");
                push_slot(&mut line, slot);
                line.append("(%rbp), %");
                line.append(register);
                self.emit(line.as_str());
            }
            i += 1;
        }
    }

    /// Stores each output operand that has a slot from its register.
    fn store_outputs(&mut self, outputs: &Vec<(String, String)>)
        requires
            operands_fit(text_pairs(outputs@), "=r"@),
        ensures
            final(self)@ == gen_stores(old(self)@, text_pairs(outputs@), outputs.len() as nat),
            final(self)@.labels == old(self)@.labels,
    {
        let n = outputs.len();
        let mut i: usize = 0;
        while i < n
            invariant
                i <= n == outputs.len(),
                operands_fit(text_pairs(outputs@), "=r"@),
                self@ == gen_stores(old(self)@, text_pairs(outputs@), i as nat),
                self@.labels == old(self)@.labels,
            decreases n - i,
        {
            assert(text_pairs(outputs@)[i as int] == (outputs@[i as int].0@, outputs@[i as int].1@));
            let register = constrained_register_name(outputs[i].0.as_str(), "=r", i);
            let slot = find(&self.var_map, outputs[i].1.as_str());
            if slot < self.var_map.len() {
                let mut before = String::from_str("    movq %");
                before.append(register);
                before.append(", ");
                self.emit_slot_line(before.as_str(), slot, "(%rbp)");
            }
            i += 1;
        }
    }

    /// Emits the lines of a template, each trimmed and indented.
    fn emit_template(&mut self, template: &String)
        ensures
            final(self)@ == gen_template(
                old(self)@,
                lines_of(template@),
                lines_of(template@).len(),
            ),
            final(self)@.labels == old(self)@.labels,
    {
        let chars = chars_of(template.as_str());
        let lines = split_lines(&chars);
        let n = lines.len();
        let mut i: usize = 0;
        while i < n
            invariant
                i <= n == lines.len(),
                lines@.len() == lines_of(template@).len(),
                forall|k: int| 0 <= k < lines@.len() ==> (#[trigger] lines@[k])@ == lines_of(template@)[k],
                self@ == gen_template(old(self)@, lines_of(template@), i as nat),
                self@.labels == old(self)@.labels,
            decreases n - i,
        {
            let mut line = String::from_str("    ");
            push_trimmed(&mut line, &lines[i]);
            self.emit(line.as_str());
            i += 1;
        }
    }
}

/// Whether two states differ in their output alone.
pub open spec fn same_context(a: GenState, b: GenState) -> bool {
    a.labels == b.labels && a.vars == b.vars && a.pool == b.pool && a.main_file == b.main_file
}

pub proof fn lemma_saves_frame(st: GenState, clobbers: Seq<Seq<char>>, k: nat)
    ensures
        same_context(gen_saves(st, clobbers, k), st),
    decreases k,
{
    if k != 0 && k <= clobbers.len() {
        lemma_saves_frame(st, clobbers, (k - 1) as nat);
    }
}

pub proof fn lemma_restores_frame(st: GenState, clobbers: Seq<Seq<char>>, k: nat)
    ensures
        same_context(gen_restores(st, clobbers, k), st),
    decreases clobbers.len() - k,
{
    if k < clobbers.len() {
        lemma_restores_frame(st, clobbers, k + 1);
    }
}

pub proof fn lemma_loads_frame(st: GenState, inputs: Seq<(Seq<char>, Seq<char>)>, k: nat)
    ensures
        same_context(gen_loads(st, inputs, k), st),
    decreases k,
{
    if k != 0 && k <= inputs.len() {
        lemma_loads_frame(st, inputs, (k - 1) as nat);
    }
}

pub proof fn lemma_stores_frame(st: GenState, outputs: Seq<(Seq<char>, Seq<char>)>, k: nat)
    ensures
        same_context(gen_stores(st, outputs, k), st),
    decreases k,
{
    if k != 0 && k <= outputs.len() {
        lemma_stores_frame(st, outputs, (k - 1) as nat);
    }
}

pub proof fn lemma_template_frame(st: GenState, lines: Seq<Seq<char>>, k: nat)
    ensures
        same_context(gen_template(st, lines, k), st),
    decreases k,
{
    if k != 0 && k <= lines.len() {
        lemma_template_frame(st, lines, (k - 1) as nat);
    }
}

/// An inline assembly block changes nothing but the output.
pub proof fn lemma_asm_frame(
    st: GenState,
    template: Seq<char>,
    outputs: Seq<(Seq<char>, Seq<char>)>,
    inputs: Seq<(Seq<char>, Seq<char>)>,
    clobbers: Seq<Seq<char>>,
)
    ensures
        same_context(gen_asm(st, template, outputs, inputs, clobbers), st),
{
    let st1 = emit(st, "    # Begin inline assembly"@);
    let st2 = gen_saves(st1, clobbers, clobbers.len());
    let st3 = gen_loads(st2, inputs, inputs.len());
    let st4 = gen_template(st3, lines_of(template), lines_of(template).len());
    let st5 = gen_stores(st4, outputs, outputs.len());
    lemma_saves_frame(st1, clobbers, clobbers.len());
    lemma_loads_frame(st2, inputs, inputs.len());
    lemma_template_frame(st3, lines_of(template), lines_of(template).len());
    lemma_stores_frame(st4, outputs, outputs.len());
    lemma_restores_frame(st5, clobbers, 0);
}

/// Copying parameters changes the output and the slots alone.
pub proof fn lemma_params_frame(st: GenState, params: Seq<Seq<char>>, k: nat)
    ensures
        gen_params(st, params, k).labels == st.labels,
        gen_params(st, params, k).pool == st.pool,
        gen_params(st, params, k).main_file == st.main_file,
    decreases k,
{
    if k != 0 && k <= params.len() {
        lemma_params_frame(st, params, (k - 1) as nat);
    }
}

/// Popping arguments changes nothing but the output.
pub proof fn lemma_pops_frame(st: GenState, k: nat)
    ensures
        same_context(gen_pops(st, k), st),
    decreases k,
{
    if k != 0 {
        lemma_pops_frame(st, (k - 1) as nat);
    }
}

/// Generating a tree takes exactly `labels_in` labels and leaves the kind of
/// file as it is.
pub proof fn lemma_node_labels(a: Ast, st: GenState)
    ensures
        gen_node(a, st).labels == st.labels + labels_in(a),
        gen_node(a, st).main_file == st.main_file,
    decreases a, 0nat,
{
    match a {
        Ast::Assignment(_, value) => {
            lemma_node_labels(*value, st);
        },
        Ast::BinaryOp(l, _, r) => {
            lemma_node_labels(*l, st);
            lemma_node_labels(*r, gen_node(*l, st));
        },
        Ast::If(c, t, e) => {
            let st1 = gen_node(*c, GenState { labels: st.labels + 2, ..st });
            lemma_node_labels(*c, GenState { labels: st.labels + 2, ..st });
            let st2 = emit(emit(st1, "    popq %rax"@), "    testq %rax, %rax"@);
            let st3 = emit(st2, number_line("    je .L"@, st.labels, ""@));
            lemma_node_labels(*t, st3);
            let st4 = gen_node(*t, st3);
            let st5 = emit(st4, number_line("    jmp .L"@, st.labels + 1, ""@));
            let st6 = emit(st5, number_line(".L"@, st.labels, ":"@));
            match e {
                Some(b) => {
                    lemma_node_labels(*b, st6);
                },
                None => {},
            }
        },
        Ast::While(c, b) => {
            let st1 = emit(
                GenState { labels: st.labels + 2, ..st },
                number_line(".L"@, st.labels, ":"@),
            );
            lemma_node_labels(*c, st1);
            let st2 = gen_node(*c, st1);
            let st3 = emit(emit(st2, "    popq %rax"@), "    testq %rax, %rax"@);
            let st4 = emit(st3, number_line("    je .L"@, st.labels + 1, ""@));
            lemma_node_labels(*b, st4);
        },
        Ast::Block(statements) => {
            lemma_nodes_labels(statements, statements.len(), st);
        },
        Ast::FunctionDecl(name, params, body) => {
            let st1 = emit(GenState { vars: Seq::empty(), ..st }, name + ":"@);
            lemma_params_frame(gen_prologue(st1), params, params.len());
            lemma_node_labels(*body, gen_params(gen_prologue(st1), params, params.len()));
        },
        Ast::FunctionCall(_, args) => {
            lemma_args_labels(args, 0, st);
            lemma_pops_frame(gen_args(args, 0, st), args.len());
        },
        Ast::Return(value) => {
            match value {
                Some(b) => {
                    lemma_node_labels(*b, st);
                },
                None => {},
            }
        },
        Ast::ArrayIndex(array, index) => {
            lemma_node_labels(*array, st);
            lemma_node_labels(*index, gen_node(*array, st));
        },
        Ast::ArrayAssignment(array, index, value) => {
            lemma_node_labels(*value, st);
            lemma_node_labels(*array, gen_node(*value, st));
            lemma_node_labels(*index, gen_node(*array, gen_node(*value, st)));
        },
        Ast::InlineAsm { template, outputs, inputs, clobbers } => {
            lemma_asm_frame(st, template, outputs, inputs, clobbers);
        },
        _ => {},
    }
}

/// The same for the first `k` trees of a list.
pub proof fn lemma_nodes_labels(nodes: Seq<Ast>, k: nat, st: GenState)
    ensures
        gen_nodes(nodes, k, st).labels == st.labels + labels_in_nodes(nodes, k),
        gen_nodes(nodes, k, st).main_file == st.main_file,
    decreases nodes, k,
{
    if k != 0 && k <= nodes.len() {
        lemma_nodes_labels(nodes, (k - 1) as nat, st);
        lemma_node_labels(nodes[k - 1], gen_nodes(nodes, (k - 1) as nat, st));
    }
}

/// The same for the arguments of a call from the last down to the one at `k`.
pub proof fn lemma_args_labels(args: Seq<Ast>, k: nat, st: GenState)
    ensures
        k <= args.len() ==> gen_args(args, k, st).labels + labels_in_nodes(args, k) == st.labels
            + labels_in_nodes(args, args.len()),
        gen_args(args, k, st).main_file == st.main_file,
    decreases args, args.len() - k,
{
    if k < args.len() {
        lemma_args_labels(args, k + 1, st);
        lemma_node_labels(args[k as int], gen_args(args, k + 1, st));
    }
}

/// The same for the top-level trees of one kind.
pub proof fn lemma_top_labels(nodes: Seq<Ast>, k: nat, functions: bool, st: GenState)
    ensures
        gen_top(nodes, k, functions, st).labels == st.labels + labels_in_top(nodes, k, functions),
        gen_top(nodes, k, functions, st).main_file == st.main_file,
    decreases k,
{
    if k != 0 && k <= nodes.len() {
        lemma_top_labels(nodes, (k - 1) as nat, functions, st);
        lemma_node_labels(nodes[k - 1], gen_top(nodes, (k - 1) as nat, functions, st));
    }
}

/// Each of the first `k` trees of a supported list is supported, also when
/// only some of them are looked at.
pub proof fn lemma_top_grow(nodes: Seq<Ast>, i: nat, k: nat, functions: bool)
    requires
        i <= k <= nodes.len(),
    ensures
        labels_in_top(nodes, i, functions) <= labels_in_top(nodes, k, functions),
    decreases k,
{
    if i < k {
        lemma_top_grow(nodes, i, (k - 1) as nat, functions);
    }
}

/// Declaring the pool takes no label and leaves the pool as it is.
pub proof fn lemma_data_keeps(st: GenState, k: nat)
    ensures
        gen_data(st, k).labels == st.labels,
        gen_data(st, k).pool == st.pool,
        gen_data(st, k).vars == st.vars,
        gen_data(st, k).main_file == st.main_file,
    decreases k,
{
    if k != 0 && k <= st.pool.len() {
        lemma_data_keeps(st, (k - 1) as nat);
    }
}

impl CodeGenerator {
    /// Adds the string literals of a tree to the pool.
    fn collect_string_literals(&mut self, node: &AstNode)
        ensures
            final(self)@ == (GenState { pool: collect(node@, old(self)@.pool), ..old(self)@ }),
        decreases node, 1nat,
    {
        match node {
            AstNode::StringLiteral(s) => {
                self.add_string_literal(s.as_str());
            },
            AstNode::Block(statements) => {
                proof {
                    lemma_children(*node);
                }
                self.collect_list(node, statements);
            },
            AstNode::If(cond, then_branch, else_branch) => {
                self.collect_string_literals(cond);
                self.collect_string_literals(then_branch);
                if let Some(else_node) = else_branch {
                    self.collect_string_literals(else_node);
                }
            },
            AstNode::While(cond, body) => {
                self.collect_string_literals(cond);
                self.collect_string_literals(body);
            },
            AstNode::FunctionDecl(_, _, body) => {
                self.collect_string_literals(body);
            },
            AstNode::BinaryOp(left, _, right) => {
                self.collect_string_literals(left);
                self.collect_string_literals(right);
            },
            AstNode::Assignment(_, value) => {
                self.collect_string_literals(value);
            },
            AstNode::FunctionCall(_, args) => {
                proof {
                    lemma_children(*node);
                }
                self.collect_list(node, args);
            },
            AstNode::Return(value) => {
                if let Some(expr) = value {
                    self.collect_string_literals(expr);
                }
            },
            AstNode::ArrayIndex(array, index) => {
                self.collect_string_literals(array);
                self.collect_string_literals(index);
            },
            AstNode::ArrayAssignment(array, index, value) => {
                self.collect_string_literals(array);
                self.collect_string_literals(index);
                self.collect_string_literals(value);
            },
            _ => {},
        }
    }

    /// Adds the string literals of the children `list` of `parent` to the pool.
    fn collect_list(&mut self, parent: &AstNode, list: &Vec<AstNode>)
        requires
            (parent matches AstNode::Block(v) && v == list) || (parent matches AstNode::FunctionCall(
                _,
                v,
            ) && v == list),
        ensures
            final(self)@ == (GenState {
                pool: collect_nodes(asts(list@), list.len() as nat, old(self)@.pool),
                ..old(self)@
            }),
        decreases parent, 0nat,
    {
        let n = list.len();
        let mut i: usize = 0;
        while i < n
            invariant
                i <= n == list.len(),
                (parent matches AstNode::Block(v) && v == list) || (parent matches AstNode::FunctionCall(
                    _,
                    v,
                ) && v == list),
                self@ == (GenState {
                    pool: collect_nodes(asts(list@), i as nat, old(self)@.pool),
                    ..old(self)@
                }),
            decreases n - i,
        {
            proof {
                vstd::std_specs::vec::axiom_vec_index_decreases(*list, i as int);
                if parent is Block {
                    assert(decreases_to!(*parent => parent->Block_0));
                } else {
                    assert(decreases_to!(*parent => parent->FunctionCall_1));
                }
            }
            self.collect_string_literals(&list[i]);
            i += 1;
        }
    }

    /// Emits the data section for the pool as it stands.
    fn emit_data_section(&mut self)
        ensures
            final(self)@ == gen_data_section(old(self)@),
            final(self)@.labels == old(self)@.labels,
    {
        let n = self.string_literals.len();
        if n > 0 {
            self.emit(".section .data");
            let ghost start = self@;
            let mut i: usize = 0;
            while i < n
                invariant
                    i <= n == self.string_literals.len(),
                    start.pool == texts(self.string_literals@),
                    self@ == gen_data(start, i as nat),
                decreases n - i,
            {
                self.emit_number_line("str", i as u128, ":");
                let mut line = String::from_str("    .string \"");
                line.append(self.string_literals[i].as_str());
                line.append("\"");
                proof {
                    lemma_data_keeps(start, i as nat);
                }
                self.emit(line.as_str());
                i += 1;
            }
            proof {
                lemma_data_keeps(start, n as nat);
            }
        }
    }

    /// Emits the top-level trees that are function definitions (`functions`)
    /// or those that are not, in source order.
    fn generate_top(&mut self, ast: &[AstNode], functions: bool)
        requires
            all_supported(asts(ast@), ast@.len()),
            old(self)@.labels + labels_in_top(asts(ast@), ast@.len(), functions) <= usize::MAX,
        ensures
            final(self)@ == gen_top(asts(ast@), ast@.len(), functions, old(self)@),
            final(self)@.labels == old(self)@.labels + labels_in_top(
                asts(ast@),
                ast@.len(),
                functions,
            ),
    {
        let ghost trees = asts(ast@);
        let n = ast.len();
        let mut i: usize = 0;
        while i < n
            invariant
                i <= n == ast@.len(),
                trees == asts(ast@),
                all_supported(trees, n as nat),
                old(self)@.labels + labels_in_top(trees, n as nat, functions) <= usize::MAX,
                self@ == gen_top(trees, i as nat, functions, old(self)@),
                self@.labels == old(self)@.labels + labels_in_top(trees, i as nat, functions),
            decreases n - i,
        {
            proof {
                lemma_supported_at(trees, n as nat, i as int);
                lemma_top_grow(trees, (i + 1) as nat, n as nat, functions);
            }
            let is_function = match &ast[i] {
                AstNode::FunctionDecl(_, _, _) => true,
                _ => false,
            };
            if is_function == functions {
                self.generate_node(&ast[i]);
            }
            i += 1;
        }
    }

    /// Tells whether a file holds top-level code besides function definitions.
    fn any_statement(ast: &[AstNode]) -> (found: bool)
        ensures
            found == has_statements(asts(ast@)),
    {
        let mut i: usize = 0;
        while i < ast.len()
            invariant
                i <= ast@.len(),
                forall|j: int| 0 <= j < i ==> asts(ast@)[j] is FunctionDecl,
            decreases ast@.len() - i,
        {
            let is_function = match &ast[i] {
                AstNode::FunctionDecl(_, _, _) => true,
                _ => false,
            };
            if !is_function {
                assert(!(asts(ast@)[i as int] is FunctionDecl));
                return true;
            }
            i += 1;
        }
        false
    }

    /// Generates the assembly of a whole file and returns it.
    ///
    /// The data section comes first and is left out when the file holds no
    /// string literal. The text section holds the functions, then `_start` for
    /// the entry file, or for an included file with top-level statements the
    /// routine `__init_<n>`. Every run starts afresh, with labels from zero
    /// and no slot taken: two runs on the same trees give the same text.
    pub fn generate(&mut self, ast: &[AstNode]) -> (out: String)
        requires
            all_supported(asts(ast@), ast@.len()),
            labels_needed(asts(ast@), old(self)@.main_file) <= usize::MAX,
        ensures
            final(self)@ == generate(old(self)@, asts(ast@)),
            out@ == final(self)@.out,
            final(self)@.labels == labels_needed(asts(ast@), old(self)@.main_file),
            final(self)@.main_file == old(self)@.main_file,
            final(self)@.vars.no_duplicates(),
            final(self)@.pool.no_duplicates(),
    {
        self.label_count = 0;
        self.var_map = Vec::new();
        assert(texts(self.var_map@) =~= Seq::empty());
        self.generate_file(ast)
    }

    /// Generates a file with a generator whose labels and slots are fresh.
    fn generate_file(&mut self, ast: &[AstNode]) -> (out: String)
        requires
            all_supported(asts(ast@), ast@.len()),
            old(self)@.labels == 0,
            old(self)@.vars == Seq::<Seq<char>>::empty(),
            labels_needed(asts(ast@), old(self)@.main_file) <= usize::MAX,
        ensures
            final(self)@ == generate(old(self)@, asts(ast@)),
            out@ == final(self)@.out,
            final(self)@.labels == labels_needed(asts(ast@), old(self)@.main_file),
            final(self)@.main_file == old(self)@.main_file,
            final(self)@.vars.no_duplicates(),
            final(self)@.pool.no_duplicates(),
    {
        let ghost trees = asts(ast@);
        proof {
            crate::codegen_laws::lemma_generate_distinct(old(self)@, trees);
            crate::codegen_laws::lemma_generate_labels(old(self)@, trees);
        }
        self.assembly = String::new();
        self.string_literals = Vec::new();
        assert(texts(self.string_literals@) =~= Seq::empty());
        let n = ast.len();
        let mut i: usize = 0;
        while i < n
            invariant
                i <= n == ast@.len(),
                trees == asts(ast@),
                self@ == (GenState {
                    out: Seq::empty(),
                    pool: collect_nodes(trees, i as nat, Seq::empty()),
                    ..old(self)@
                }),
            decreases n - i,
        {
            self.collect_string_literals(&ast[i]);
            i += 1;
        }
        let ghost st1 = GenState {
            out: Seq::empty(),
            pool: collect_nodes(trees, trees.len(), Seq::empty()),
            ..old(self)@
        };
        assert(self@ == st1);
        self.emit_data_section();
        self.emit("");
        self.emit(".section .text");
        let ghost st2 = emit(emit(gen_data_section(st1), ""@), ".section .text"@);
        assert(self@ == st2);
        assert(st2.labels == old(self)@.labels);
        assert(gen_data_section(st1).main_file == st1.main_file) by {
            lemma_data_keeps(emit(st1, ".section .data"@), st1.pool.len());
        }
        self.generate_top(ast, true);
        let ghost st3 = gen_top(trees, trees.len(), true, st2);
        proof {
            lemma_data_keeps(emit(st1, ".section .data"@), st1.pool.len());
            lemma_top_labels(trees, trees.len(), true, st2);
        }
        if self.is_main_file {
            self.emit("");
            self.emit(".global _start");
            self.emit("");
            self.emit("_start:");
            self.emit_prologue();
            self.generate_top(ast, false);
            self.emit("");
            self.emit("    movq %rbp, %rsp");
            self.emit("    popq %rbp");
            self.emit("    movq $60, %rax");
            self.emit("    xorq %rdi, %rdi");
            self.emit("    syscall");
        } else if Self::any_statement(ast) {
            let init = self.get_new_label();
            self.emit("");
            self.emit_number_line("__init_", init as u128, ":");
            self.emit_prologue();
            self.generate_top(ast, false);
            self.emit_epilogue();
        }
        self.assembly.clone()
    }
}

/// The labels of the top-level trees of both kinds are those of all of them.
pub proof fn lemma_top_split(nodes: Seq<Ast>, k: nat)
    requires
        k <= nodes.len(),
    ensures
        labels_in_top(nodes, k, true) + labels_in_top(nodes, k, false) == labels_in_nodes(nodes, k),
    decreases k,
{
    if k != 0 {
        lemma_top_split(nodes, (k - 1) as nat);
    }
}

/// Tells whether the operands that ask for a register of the table stand at
/// one of its four positions.
fn operands_in_table(operands: &Vec<(String, String)>, expected: &str) -> (ok: bool)
    ensures
        ok == operands_fit(text_pairs(operands@), expected@),
{
    let mut i: usize = 4;
    while i < operands.len()
        invariant
            4 <= i,
            forall|j: int|
                4 <= j < i && j < operands.len() ==> (#[trigger] text_pairs(operands@)[j]).0
                    != expected@,
        decreases operands.len() - i,
    {
        if *operands[i].0.as_str() == *expected {
            assert(text_pairs(operands@)[i as int].0 == expected@);
            return false;
        }
        i += 1;
    }
    true
}

/// The number of labels that the code for a tree takes, or nothing where
/// the tree is not supported or the number does not fit.
fn labels_of(node: &AstNode) -> (r: Option<usize>)
    ensures
        match r {
            Some(n) => supported(node@) && n == labels_in(node@),
            None => !supported(node@) || labels_in(node@) > usize::MAX,
        },
    decreases node, 1nat,
{
    match node {
        AstNode::Assignment(_, value) => labels_of(value),
        AstNode::BinaryOp(left, op, right) => {
            let extra: usize = match op {
                BinaryOperator::And => 1,
                BinaryOperator::Or => 1,
                _ => 0,
            };
            sum3(labels_of(left), labels_of(right), Some(extra))
        },
        AstNode::If(condition, then_branch, else_branch) => {
            let last = match else_branch {
                Some(b) => labels_of(b),
                None => Some(0),
            };
            sum3(sum3(Some(2), labels_of(condition), labels_of(then_branch)), last, Some(0))
        },
        AstNode::While(condition, body) => sum3(Some(2), labels_of(condition), labels_of(body)),
        AstNode::Block(statements) => {
            proof {
                lemma_children(*node);
            }
            labels_of_list(node, statements)
        },
        AstNode::FunctionDecl(_, _, body) => labels_of(body),
        AstNode::FunctionCall(_, args) => {
            proof {
                lemma_children(*node);
            }
            labels_of_list(node, args)
        },
        AstNode::Return(value) => match value {
            Some(b) => labels_of(b),
            None => Some(0),
        },
        AstNode::ArrayIndex(array, index) => sum3(labels_of(array), labels_of(index), Some(0)),
        AstNode::ArrayAssignment(array, index, value) => sum3(
            labels_of(array),
            labels_of(index),
            labels_of(value),
        ),
        AstNode::InlineAsm { template, outputs, inputs, clobbers } => {
            if operands_in_table(inputs, "r") && operands_in_table(outputs, "=r") {
                Some(0)
            } else {
                None
            }
        },
        _ => Some(0),
    }
}

/// The sum of three numbers, where all three are given and the sum fits.
fn sum3(a: Option<usize>, b: Option<usize>, c: Option<usize>) -> (r: Option<usize>)
    ensures
        match r {
            Some(n) => a is Some && b is Some && c is Some && n == a->0 + b->0 + c->0,
            None => a is None || b is None || c is None || a->0 + b->0 + c->0 > usize::MAX,
        },
{
    match (a, b, c) {
        (Some(x), Some(y), Some(z)) => {
            if x > usize::MAX - y {
                None
            } else if x + y > usize::MAX - z {
                None
            } else {
                Some(x + y + z)
            }
        },
        _ => None,
    }
}

/// The same for the children `list` of `parent`.
fn labels_of_list(parent: &AstNode, list: &Vec<AstNode>) -> (r: Option<usize>)
    requires
        (parent matches AstNode::Block(v) && v == list) || (parent matches AstNode::FunctionCall(
            _,
            v,
        ) && v == list),
    ensures
        match r {
            Some(n) => all_supported(asts(list@), list@.len()) && n == labels_in_nodes(
                asts(list@),
                list@.len(),
            ),
            None => !all_supported(asts(list@), list@.len()) || labels_in_nodes(
                asts(list@),
                list@.len(),
            ) > usize::MAX,
        },
    decreases parent, 0nat,
{
    let ghost trees = asts(list@);
    let mut total: usize = 0;
    let mut i: usize = 0;
    while i < list.len()
        invariant
            i <= list.len(),
            trees == asts(list@),
            (parent matches AstNode::Block(v) && v == list) || (parent matches AstNode::FunctionCall(
                _,
                v,
            ) && v == list),
            all_supported(trees, i as nat),
            total == labels_in_nodes(trees, i as nat),
        decreases list.len() - i,
    {
        proof {
            vstd::std_specs::vec::axiom_vec_index_decreases(*list, i as int);
            if parent is Block {
                assert(decreases_to!(*parent => parent->Block_0));
            } else {
                assert(decreases_to!(*parent => parent->FunctionCall_1));
            }
            lemma_labels_grow(trees, (i + 1) as nat, trees.len());
        }
        match sum3(Some(total), labels_of(&list[i]), Some(0)) {
            Some(n) => {
                total = n;
            },
            None => {
                proof {
                    if all_supported(trees, trees.len()) {
                        lemma_supported_at(trees, trees.len(), i as int);
                    }
                }
                return None;
            },
        }
        i += 1;
    }
    Some(total)
}

impl CodeGenerator {
    /// Tells whether `generate` can be called on these trees: whether every
    /// inline assembly block keeps its register operands within the table,
    /// and the labels that the run takes can be counted.
    pub fn can_generate(&self, ast: &[AstNode]) -> (ok: bool)
        ensures
            ok == (all_supported(asts(ast@), ast@.len()) && labels_needed(
                asts(ast@),
                self@.main_file,
            ) <= usize::MAX),
    {
        let ghost trees = asts(ast@);
        let mut total: usize = 0;
        let mut i: usize = 0;
        while i < ast.len()
            invariant
                i <= ast@.len(),
                trees == asts(ast@),
                all_supported(trees, i as nat),
                total == labels_in_nodes(trees, i as nat),
            decreases ast@.len() - i,
        {
            proof {
                lemma_labels_grow(trees, (i + 1) as nat, trees.len());
                lemma_top_split(trees, trees.len());
            }
            match sum3(Some(total), labels_of(&ast[i]), Some(0)) {
                Some(n) => {
                    total = n;
                },
                None => {
                    proof {
                        if all_supported(trees, trees.len()) {
                            lemma_supported_at(trees, trees.len(), i as int);
                        }
                    }
                    return false;
                },
            }
            i += 1;
        }
        proof {
            lemma_top_split(trees, trees.len());
        }
        let init: usize = if !self.is_main_file && Self::any_statement(ast) {
            1
        } else {
            0
        };
        total <= usize::MAX - init
    }
}

} // verus!
