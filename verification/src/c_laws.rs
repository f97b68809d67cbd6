//! Emitted C statements do what the kernel does.
use vstd::prelude::*;

use crate::affine::{terms_value, var_value, AffineView, LoopVar};
use crate::c_expressions::{
    c_expr, lemma_place, lemma_read_ref, lemma_read_scalar, lemma_scalar_value, negates_literals,
    plain_scalar,
};
use crate::c_numbers::{c_terms, lemma_affine_value, lemma_read_affine, lemma_read_name};
use crate::c_reader::{
    read_assignment, read_block, read_head, read_stmt, read_test, run_c, run_c_block, run_c_from,
    statements_in, unspaced, CStmt, Outcome,
};
use crate::c_tokens::{begins, ends_number, lemma_assoc, lemma_not_begins, lemma_past};
use crate::domain::Domain;
use crate::emit_c::{
    affine_c, buffer_decl_c, copy_out_c, flat_results, for_c, kernel_c, main_c, params_c, ref_c,
    scalar_c, source_c, stmt_c, stmts_c, var_c,
};
use crate::interp_loops::{
    allocated, bind, eval_kernel, output_tensor, run_stmt, run_stmts, LoopErrorView, LoopState,
};
use crate::loop_ir::{indent_text, BufferView, KernelView, StmtView};
use crate::loop_laws::{a_loop_is_its_iterations, count_up, run_each};
use crate::seqs::lemma_collect_ok;
use crate::tensor::TensorView;
use crate::text::join;

verus! {

/// The variable has a nonzero coefficient.
pub open spec fn mentions(e: AffineView, var: LoopVar) -> bool {
    exists|i: int| 0 <= i < e.terms.len() && #[trigger] e.terms[i].0 == var && e.terms[i].1 != 0
}

/// Expressions are plain, and no loop takes a variable that is in scope already or uses its own
/// variable in its upper bound.
pub open spec fn plain_stmt(s: StmtView, scope: Set<u32>) -> bool
    decreases s, 0nat,
{
    match s {
        StmtView::Assign { target, value } => plain_scalar(value),
        StmtView::For { var, lo, hi, body } => {
            &&& !scope.contains(var.0)
            &&& !mentions(hi, var)
            &&& plain_stmts(body, scope.insert(var.0))
        },
    }
}

/// Every statement is plain.
pub open spec fn plain_stmts(body: Seq<StmtView>, scope: Set<u32>) -> bool
    decreases body, body.len(),
{
    body.len() == 0 || (plain_stmts(body.drop_last(), scope) && plain_stmt(body.last(), scope))
}

/// What the text of a statement is read as.
pub open spec fn c_stmt(s: StmtView) -> CStmt
    decreases s, 0nat,
{
    match s {
        StmtView::Assign { target, value } => CStmt::Assign {
            buffer: target.buffer.0,
            index: c_terms(target.index),
            value: c_expr(value),
        },
        StmtView::For { var, lo, hi, body } => CStmt::For {
            var: var.0,
            lo: c_terms(lo),
            hi: c_terms(hi),
            body: c_stmts(body),
        },
    }
}

/// What the text of statements is read as.
pub open spec fn c_stmts(body: Seq<StmtView>) -> Seq<CStmt>
    decreases body, body.len(),
{
    if body.len() == 0 {
        Seq::empty()
    } else {
        c_stmts(body.drop_last()).push(c_stmt(body.last()))
    }
}

/// Statements begin with the first one.
proof fn lemma_front(body: Seq<StmtView>, level: nat, scope: Set<u32>)
    requires
        body.len() > 0,
        plain_stmts(body, scope),
    ensures
        plain_stmt(body[0], scope),
        plain_stmts(body.skip(1), scope),
        c_stmts(body) == seq![c_stmt(body[0])] + c_stmts(body.skip(1)),
        stmt_c(body[0], level) is Ok && stmts_c(body.skip(1), level) is Ok ==> stmts_c(
            body,
            level,
        ) is Ok && stmts_c(body, level)->Ok_0 == stmt_c(body[0], level)->Ok_0 + stmts_c(
            body.skip(1),
            level,
        )->Ok_0,
    decreases body.len(),
{
    let (before, tail) = (body.drop_last(), body.skip(1));
    if body.len() == 1 {
        assert(before =~= Seq::<StmtView>::empty());
        assert(tail =~= Seq::<StmtView>::empty());
        assert(body.last() == body[0]);
        assert(c_stmts(before) =~= Seq::<CStmt>::empty());
        assert(c_stmts(body) =~= seq![c_stmt(body[0])] + c_stmts(tail));
        if stmt_c(body[0], level) is Ok {
            let t = stmt_c(body[0], level)->Ok_0;
            assert(Seq::<char>::empty() + t =~= t);
            assert(t + Seq::<char>::empty() =~= t);
        }
    } else {
        lemma_front(before, level, scope);
        assert(before.skip(1) =~= tail.drop_last());
        assert(tail.last() == body.last());
        assert(before[0] == body[0]);
        assert(c_stmts(body) =~= seq![c_stmt(body[0])] + c_stmts(tail));
        if stmt_c(body[0], level) is Ok && stmts_c(tail, level) is Ok {
            let first = stmt_c(body[0], level)->Ok_0;
            let middle = stmts_c(tail.drop_last(), level)->Ok_0;
            let last = stmt_c(body.last(), level)->Ok_0;
            assert((first + middle) + last =~= first + (middle + last));
        }
    }
}

proof fn lemma_unspaced_len(s: Seq<char>)
    ensures
        unspaced(s).len() <= s.len(),
    decreases s.len(),
{
    if s.len() > 0 && s[0] == ' ' {
        lemma_unspaced_len(s.skip(1));
    }
}

/// Indentation does not count.
proof fn lemma_indent(level: nat, t: Seq<char>)
    ensures
        unspaced(indent_text(level) + t) == unspaced(t),
    decreases level,
{
    if level == 0 {
        assert(indent_text(level) + t =~= t);
    } else {
        reveal_strlit("  ");
        let before = indent_text((level - 1) as nat);
        let two = "  "@ + t;
        let one = two.skip(1);
        assert(indent_text(level) + t =~= before + two);
        lemma_indent((level - 1) as nat, two);
        assert(two[0] == ' ');
        assert(one[0] == ' ');
        assert(one.skip(1) =~= t);
        assert(unspaced(two) == unspaced(one));
        assert(unspaced(one) == unspaced(t));
    }
}

/// The test and the step of a loop are read back.
#[verifier::rlimit(60)]
#[verifier::spinoff_prover]
proof fn lemma_read_test(var: LoopVar, hi: AffineView, rest: Seq<char>)
    ensures
        read_test(
            var_c(var) + (" < "@ + (affine_c(hi) + ("; "@ + (var_c(var) + ("++) {\n"@ + rest))))),
            var.0,
        ) == Some((c_terms(hi), rest)),
{
    reveal_strlit("i");
    reveal_strlit(" < ");
    reveal_strlit("; ");
    reveal_strlit("++) {\n");
    reveal_strlit(" + ");
    let end = "++) {\n"@ + rest;
    let step = var_c(var) + end;
    let semi = "; "@ + step;
    let bound = affine_c(hi) + semi;
    let less = " < "@ + bound;
    lemma_read_name("i"@, var.0, less);
    lemma_past(" < "@, bound);
    assert(semi[0] == ';');
    lemma_not_begins(semi, " + "@, 0);
    lemma_read_affine(hi, semi);
    lemma_past("; "@, step);
    lemma_read_name("i"@, var.0, end);
    lemma_past("++) {\n"@, rest);
}

/// The head of a loop, without its indentation.
spec fn head_text(var: LoopVar, lo: AffineView, hi: AffineView, rest: Seq<char>) -> Seq<char> {
    "for (long "@ + (var_c(var) + (" = "@ + (affine_c(lo) + ("; "@ + (var_c(var) + (" < "@ + (
    affine_c(hi) + ("; "@ + (var_c(var) + ("++) {\n"@ + rest))))))))))
}

/// The head of a loop is read back.
#[verifier::rlimit(60)]
#[verifier::spinoff_prover]
proof fn lemma_read_head(var: LoopVar, lo: AffineView, hi: AffineView, rest: Seq<char>)
    ensures
        read_head(head_text(var, lo, hi, rest)) == Some(
            ((var.0, c_terms(lo), c_terms(hi)), rest),
        ),
        begins(head_text(var, lo, hi, rest), "for (long "@),
        head_text(var, lo, hi, rest).len() > rest.len(),
        head_text(var, lo, hi, rest)[0] == 'f',
{
    reveal_strlit("i");
    reveal_strlit("for (long ");
    reveal_strlit(" = ");
    reveal_strlit("; ");
    reveal_strlit(" + ");
    let test = var_c(var) + (" < "@ + (affine_c(hi) + ("; "@ + (var_c(var) + ("++) {\n"@
        + rest)))));
    let semi = "; "@ + test;
    let bound = affine_c(lo) + semi;
    let set = " = "@ + bound;
    let name = var_c(var) + set;
    lemma_past("for (long "@, name);
    lemma_read_name("i"@, var.0, set);
    lemma_past(" = "@, bound);
    assert(semi[0] == ';');
    lemma_not_begins(semi, " + "@, 0);
    lemma_read_affine(lo, semi);
    lemma_past("; "@, test);
    lemma_read_test(var, hi, rest);
}

/// The head of a loop begins with its indentation.
proof fn lemma_head_text(level: nat, var: LoopVar, lo: AffineView, hi: AffineView, rest: Seq<char>)
    ensures
        for_c(level, var, lo, hi) + rest == indent_text(level) + head_text(var, lo, hi, rest),
{
    let name = var_c(var);
    let a0 = indent_text(level);
    let a1 = a0 + "for (long "@;
    let a2 = a1 + name;
    let a3 = a2 + " = "@;
    let a4 = a3 + affine_c(lo);
    let a5 = a4 + "; "@;
    let a6 = a5 + name;
    let a7 = a6 + " < "@;
    let a8 = a7 + affine_c(hi);
    let a9 = a8 + "; "@;
    let a10 = a9 + name;
    let r10 = "++) {\n"@ + rest;
    let r9 = name + r10;
    let r8 = "; "@ + r9;
    let r7 = affine_c(hi) + r8;
    let r6 = " < "@ + r7;
    let r5 = name + r6;
    let r4 = "; "@ + r5;
    let r3 = affine_c(lo) + r4;
    let r2 = " = "@ + r3;
    let r1 = name + r2;
    lemma_assoc(a10, "++) {\n"@, rest);
    lemma_assoc(a9, name, r10);
    lemma_assoc(a8, "; "@, r9);
    lemma_assoc(a7, affine_c(hi), r8);
    lemma_assoc(a6, " < "@, r7);
    lemma_assoc(a5, name, r6);
    lemma_assoc(a4, "; "@, r5);
    lemma_assoc(a3, affine_c(lo), r4);
    lemma_assoc(a2, " = "@, r3);
    lemma_assoc(a1, name, r2);
    lemma_assoc(a0, "for (long "@, r1);
}

/// A loop is read back, given how its body is read.
proof fn lemma_read_loop(
    var: LoopVar,
    lo: AffineView,
    hi: AffineView,
    block: Seq<char>,
    body: Seq<CStmt>,
    rest: Seq<char>,
)
    requires
        read_block(block) == Some((body, "}\n"@ + rest)),
    ensures
        read_stmt(head_text(var, lo, hi, block)) == Some(
            (CStmt::For { var: var.0, lo: c_terms(lo), hi: c_terms(hi), body }, rest),
        ),
{
    lemma_read_head(var, lo, hi, block);
    lemma_past("}\n"@, rest);
}

/// The text of an assignment is read back.
#[verifier::rlimit(60)]
#[verifier::spinoff_prover]
proof fn lemma_read_assignment(s: StmtView, level: nat, scope: Set<u32>, rest: Seq<char>)
    requires
        s is Assign,
        plain_stmt(s, scope),
    ensures
        stmt_c(s, level) is Ok,
        read_stmt(unspaced(stmt_c(s, level)->Ok_0 + rest)) == Some((c_stmt(s), rest)),
        unspaced(stmt_c(s, level)->Ok_0 + rest).len() > rest.len(),
        unspaced(stmt_c(s, level)->Ok_0 + rest)[0] == 'b',
{
    let (target, value) = (s->Assign_target, s->Assign_value);
    let end = ";\n"@ + rest;
    assert(ends_number(end, 10)) by {
        reveal_strlit(";\n");
        assert(end[0] == ';');
    }
    lemma_read_scalar(value, end);
    let t = scalar_c(value)->Ok_0;
    let set = " = "@ + (t + end);
    let core = ref_c(target) + set;
    lemma_read_ref(target, set);
    lemma_past(" = "@, t + end);
    lemma_past(";\n"@, rest);
    assert(read_assignment(core) == Some((c_stmt(s), rest)));
    assert(core[0] == 'b');
    lemma_no_loop(core);
    let indent = indent_text(level);
    lemma_assoc(indent + ref_c(target) + " = "@ + t, ";\n"@, rest);
    lemma_assoc(indent + ref_c(target) + " = "@, t, end);
    lemma_assoc(indent + ref_c(target), " = "@, t + end);
    lemma_assoc(indent, ref_c(target), set);
    lemma_indent(level, core);
    assert(unspaced(core) == core);
}

/// A text that begins with the name of a buffer is no loop.
proof fn lemma_no_loop(core: Seq<char>)
    requires
        core.len() > 0,
        core[0] == 'b',
    ensures
        !begins(core, "for (long "@),
{
    reveal_strlit("for (long ");
    lemma_not_begins(core, "for (long "@, 0);
}

proof fn lemma_loop_len(
    var: LoopVar,
    lo: AffineView,
    hi: AffineView,
    inner: Seq<char>,
    closing: Seq<char>,
    rest: Seq<char>,
    level: nat,
)
    requires
        closing == indent_text(level) + ("}\n"@ + rest),
    ensures
        head_text(var, lo, hi, inner + closing).len() > rest.len(),
{
    lemma_read_head(var, lo, hi, inner + closing);
}

/// The text of a statement is read back.
#[verifier::rlimit(60)]
#[verifier::spinoff_prover]
proof fn lemma_read_stmt(s: StmtView, level: nat, scope: Set<u32>, rest: Seq<char>)
    requires
        plain_stmt(s, scope),
    ensures
        stmt_c(s, level) is Ok,
        read_stmt(unspaced(stmt_c(s, level)->Ok_0 + rest)) == Some((c_stmt(s), rest)),
        unspaced(stmt_c(s, level)->Ok_0 + rest).len() > rest.len(),
        unspaced(stmt_c(s, level)->Ok_0 + rest)[0] != '}',
    decreases s, 0nat,
{
    match s {
        StmtView::Assign { target, value } => {
            lemma_read_assignment(s, level, scope, rest);
        },
        StmtView::For { var, lo, hi, body } => {
            let brace = "}\n"@ + rest;
            let closing = indent_text(level) + brace;
            assert(brace[0] == '}') by {
                reveal_strlit("}\n");
            }
            lemma_indent(level, brace);
            assert(unspaced(brace) == brace);
            lemma_read_block(body, (level + 1) as nat, scope.insert(var.0), closing);
            let inner = stmts_c(body, (level + 1) as nat)->Ok_0;
            let rest2 = inner + closing;
            let core = head_text(var, lo, hi, rest2);
            lemma_read_head(var, lo, hi, rest2);
            lemma_head_text(level, var, lo, hi, rest2);
            let head = for_c(level, var, lo, hi);
            lemma_assoc(head + inner + indent_text(level), "}\n"@, rest);
            lemma_assoc(head + inner, indent_text(level), brace);
            lemma_assoc(head, inner, closing);
            lemma_indent(level, core);
            assert(unspaced(core) == core);
            lemma_read_loop(var, lo, hi, rest2, c_stmts(body), rest);
            lemma_loop_len(var, lo, hi, inner, closing, rest, level);
        },
    }
}

/// The text of statements is read back, up to a closing brace or the end.
pub proof fn lemma_read_block(body: Seq<StmtView>, level: nat, scope: Set<u32>, rest: Seq<char>)
    requires
        plain_stmts(body, scope),
        unspaced(rest).len() == 0 || unspaced(rest)[0] == '}',
    ensures
        stmts_c(body, level) is Ok,
        read_block(stmts_c(body, level)->Ok_0 + rest) == Some((c_stmts(body), unspaced(rest))),
    decreases body, body.len(),
{
    if body.len() == 0 {
        lemma_unspaced_len(rest);
        assert(stmts_c(body, level)->Ok_0 + rest =~= rest);
    } else {
        let tail = body.skip(1);
        lemma_front(body, level, scope);
        lemma_read_block(tail, level, scope, rest);
        let more = stmts_c(tail, level)->Ok_0 + rest;
        lemma_read_stmt(body[0], level, scope, more);
        let first = stmt_c(body[0], level)->Ok_0;
        let s = stmts_c(body, level)->Ok_0 + rest;
        assert(s =~= first + more);
        lemma_unspaced_len(s);
    }
}

/// The C run comes out as the run of the kernel: with the same error, or with the same buffers and
/// the variables as they were.
pub open spec fn same_outcome<V>(
    c: Outcome<Seq<Seq<V>>>,
    run: Result<LoopState<V>, LoopErrorView>,
    env: Map<u32, i64>,
) -> bool {
    match run {
        Err(e) => c == Some(Err::<Seq<Seq<V>>, LoopErrorView>(e)),
        Ok(after) => after.env == env && c == Some(
            Ok::<Seq<Seq<V>>, LoopErrorView>(after.buffers),
        ),
    }
}

/// A variable that is not mentioned does not count.
proof fn lemma_unmentioned(e: AffineView, var: LoopVar, env: Map<u32, i64>, x: i64, n: nat)
    requires
        !mentions(e, var),
        n <= e.terms.len(),
    ensures
        terms_value(e, env.insert(var.0, x), n) == terms_value(e, env, n),
    decreases n,
{
    if n > 0 {
        lemma_unmentioned(e, var, env, x, (n - 1) as nat);
        let (v, coeff) = e.terms[n - 1];
        assert(e.terms[n - 1].0 == v);
        let (a, b) = (var_value(env.insert(var.0, x), v) as int, var_value(env, v) as int);
        if v == var {
            assert(coeff == 0);
            assert(coeff * a == 0 && coeff * b == 0) by (nonlinear_arith)
                requires
                    coeff == 0,
            ;
        } else {
            assert(v.0 != var.0);
        }
    }
}

/// Wherever C gives a statement a meaning, it does what the statement does.
pub proof fn lemma_run_stmt<D: Domain>(s: StmtView, st: LoopState<D::V>)
    requires
        plain_stmt(s, st.env.dom()),
        negates_literals::<D>(),
    ensures
        run_c::<D>(c_stmt(s), st.env, st.buffers) is Some ==> same_outcome(
            run_c::<D>(c_stmt(s), st.env, st.buffers),
            run_stmt::<D>(s, st),
            st.env,
        ),
    decreases s, 0nat, 0int,
{
    match s {
        StmtView::Assign { target, value } => {
            lemma_scalar_value::<D>(value, st);
            lemma_place(target, st);
        },
        StmtView::For { var, lo, hi, body } => {
            if run_c::<D>(c_stmt(s), st.env, st.buffers) is Some {
                lemma_affine_value(lo, st.env);
                let start = lo.value(st.env);
                assert(st.env.remove(var.0) =~= st.env);
                a_loop_is_its_iterations::<D>(var, lo, hi, body, st);
                lemma_run_from::<D>(var, hi, body, start, st.env, st);
            }
        },
    }
}

proof fn lemma_run_from<D: Domain>(
    var: LoopVar,
    hi: AffineView,
    body: Seq<StmtView>,
    at: i64,
    env: Map<u32, i64>,
    st: LoopState<D::V>,
)
    requires
        !env.dom().contains(var.0),
        !mentions(hi, var),
        plain_stmts(body, env.dom().insert(var.0)),
        negates_literals::<D>(),
        st.env.remove(var.0) == env,
    ensures
        ({
            let c = run_c_from::<D>(
                var.0,
                c_terms(hi),
                c_stmts(body),
                at as int,
                env,
                st.buffers,
            );
            c is Some ==> match run_each::<D>(var, body, count_up(at, hi.value(env)), st) {
                Err(e) => c == Some(Err::<Seq<Seq<D::V>>, LoopErrorView>(e)),
                Ok(after) => after.env.remove(var.0) == env && c == Some(
                    Ok::<Seq<Seq<D::V>>, LoopErrorView>(after.buffers),
                ),
            }
        }),
    decreases body, 1nat, hi.value(env) - at,
{
    let c = run_c_from::<D>(var.0, c_terms(hi), c_stmts(body), at as int, env, st.buffers);
    let end = hi.value(env);
    let inner = env.insert(var.0, at);
    if c is Some {
        lemma_affine_value(hi, inner);
        lemma_unmentioned(hi, var, env, at, hi.terms.len());
        if at < end {
            let now = bind(st, var, at);
            assert(now.env =~= inner);
            assert(inner.dom() =~= env.dom().insert(var.0));
            lemma_run_stmts::<D>(body, now);
            let values = count_up(at, end);
            assert(values[0] == at);
            assert(values.skip(1) =~= count_up((at + 1) as i64, end));
            match run_stmts::<D>(body, now) {
                Err(e) => {},
                Ok(next) => {
                    assert(next.env.remove(var.0) =~= env);
                    lemma_run_from::<D>(var, hi, body, (at + 1) as i64, env, next);
                },
            }
        }
    }
}

/// Wherever C gives statements a meaning, they do what the statements do.
pub proof fn lemma_run_stmts<D: Domain>(body: Seq<StmtView>, st: LoopState<D::V>)
    requires
        plain_stmts(body, st.env.dom()),
        negates_literals::<D>(),
    ensures
        run_c_block::<D>(c_stmts(body), st.env, st.buffers) is Some ==> same_outcome(
            run_c_block::<D>(c_stmts(body), st.env, st.buffers),
            run_stmts::<D>(body, st),
            st.env,
        ),
    decreases body, 0nat, body.len() as int,
{
    if body.len() > 0 {
        lemma_run_stmts::<D>(body.drop_last(), st);
        assert(c_stmts(body).drop_last() =~= c_stmts(body.drop_last()));
        match run_stmts::<D>(body.drop_last(), st) {
            Err(e) => {},
            Ok(before) => {
                if before.env == st.env {
                    lemma_run_stmt::<D>(body.last(), before);
                }
            },
        }
    }
}

/// The C text of a kernel's statements, read and run as C, does what the statements do: wherever C
/// gives the run a meaning, it ends with the same error or with the same buffers.
pub proof fn emitted_statements_do_what_the_kernel_does<D: Domain>(
    body: Seq<StmtView>,
    level: nat,
    st: LoopState<D::V>,
)
    requires
        plain_stmts(body, st.env.dom()),
        negates_literals::<D>(),
    ensures
        stmts_c(body, level) is Ok,
        statements_in(stmts_c(body, level)->Ok_0) is Some,
        ({
            let program = statements_in(stmts_c(body, level)->Ok_0)->Some_0;
            run_c_block::<D>(program, st.env, st.buffers) is Some ==> same_outcome(
                run_c_block::<D>(program, st.env, st.buffers),
                run_stmts::<D>(body, st),
                st.env,
            )
        }),
{
    let none = Seq::<char>::empty();
    lemma_read_block(body, level, st.env.dom(), none);
    assert(stmts_c(body, level)->Ok_0 + none =~= stmts_c(body, level)->Ok_0);
    lemma_run_stmts::<D>(body, st);
}

/// The emitted source of a kernel holds the text of the kernel's statements.
pub proof fn the_source_holds_the_statements(k: KernelView)
    requires
        source_c(k) is Ok,
    ensures
        stmts_c(k.body, 1) is Ok,
        exists|before: Seq<char>, after: Seq<char>|
            source_c(k)->Ok_0 == #[trigger] (before + stmts_c(k.body, 1)->Ok_0 + after),
{
    let text = stmts_c(k.body, 1)->Ok_0;
    let copies = flat_results(Seq::new(k.outputs.len(), |i: int| copy_out_c(k, i)))->Ok_0;
    let decls = flat_results(k.buffers.map_values(|b: BufferView| buffer_decl_c(b)))->Ok_0;
    let head = "static void vtc_kernel("@ + join(params_c(k), ", "@) + ") {\n"@ + decls;
    let kernel = head + text + copies + "}\n\n"@;
    assert(kernel_c(k)->Ok_0 == kernel);
    let start = "#pragma STDC FP_CONTRACT OFF\n#include <stdint.h>\n#include <stdio.h>\n#include <stdlib.h>\n#include <string.h>\n\n"@;
    let main = main_c(k)->Ok_0;
    let before = start + head;
    let after = copies + ("}\n\n"@ + main);
    lemma_assoc(head + text, copies, "}\n\n"@);
    lemma_assoc(start, head + text, copies + "}\n\n"@);
    lemma_assoc(start + (head + text), copies + "}\n\n"@, main);
    lemma_assoc(copies, "}\n\n"@, main);
    lemma_assoc(start, head, text);
    assert(source_c(k)->Ok_0 == before + text + after);
}

/// A kernel's outputs are what its emitted statements leave in the output buffers, run as C from
/// the buffers that the kernel starts from, wherever C gives that run a meaning.
pub proof fn emitted_kernels_leave_their_outputs<D: Domain>(
    k: KernelView,
    inputs: Map<Seq<char>, TensorView<D::V>>,
    i: int,
)
    requires
        plain_stmts(k.body, Set::empty()),
        negates_literals::<D>(),
        eval_kernel::<D>(k, inputs) is Ok,
        0 <= i < k.outputs.len(),
    ensures
        allocated::<D>(k.buffers, inputs) is Ok,
        stmts_c(k.body, 1) is Ok,
        statements_in(stmts_c(k.body, 1)->Ok_0) is Some,
        ({
            let program = statements_in(stmts_c(k.body, 1)->Ok_0)->Some_0;
            let run = run_c_block::<D>(
                program,
                Map::empty(),
                allocated::<D>(k.buffers, inputs)->Ok_0,
            );
            run is Some ==> {
                &&& run->Some_0 is Ok
                &&& eval_kernel::<D>(k, inputs)->Ok_0[i].shape == k.output_shapes[i]
                &&& eval_kernel::<D>(k, inputs)->Ok_0[i].data
                    == run->Some_0->Ok_0[k.outputs[i].0 as int]
            }
        }),
{
    let buffers = allocated::<D>(k.buffers, inputs)->Ok_0;
    let st = LoopState { buffers, env: Map::empty() };
    assert(st.env.dom() =~= Set::<u32>::empty());
    emitted_statements_do_what_the_kernel_does::<D>(k.body, 1, st);
    let after = run_stmts::<D>(k.body, st)->Ok_0;
    let results = Seq::new(
        k.outputs.len(),
        |i: int| output_tensor(k, after.buffers, k.outputs[i], k.output_shapes[i]),
    );
    lemma_collect_ok(results);
    assert(results[i] == output_tensor(k, after.buffers, k.outputs[i], k.output_shapes[i]));
}

} // verus!
