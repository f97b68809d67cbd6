//! C source for affine loop kernels.
use vstd::prelude::*;

use crate::affine::{AffineExpr, AffineView, LoopVar};
use crate::eval::EvalErrorView;
use crate::float::{
    exponent64, finite64, fraction64, from_int64, int_double, negative64, HIDDEN, SIGN,
};
use crate::loop_ir::{
    indent_text, lemma_for_view, stmt_views, Buffer, BufferId, BufferRef, BufferRole, BufferView,
    Kernel, KernelView, RefView, RoleView, ScalarExpr, ScalarView, Stmt, StmtView,
};
use crate::seqs::{collect, lemma_collect_error, lemma_collect_step};
use crate::shape::{checked_numel, numel, Shape};
use crate::tensor::{data_error, doubles_finite, doubles_of, size_error, TensorF64};
use crate::text::{
    decimal, decimal_text, hex_digits, hex_text, index_text, join, join_text, signed_decimal,
    signed_text, string_views,
};

verus! {

/// Errors produced by C emission.
#[derive(Debug, Clone, PartialEq, Eq)]
pub enum CodegenError {
    /// The kernel holds what C source cannot express.
    Unsupported(String),
    /// The kernel is inconsistent.
    Internal(String),
}

/// The contents of a [`CodegenError`].
pub enum CodegenErrorView {
    Unsupported(Seq<char>),
    Internal(Seq<char>),
}

impl View for CodegenError {
    type V = CodegenErrorView;

    open spec fn view(&self) -> CodegenErrorView {
        match *self {
            CodegenError::Unsupported(m) => CodegenErrorView::Unsupported(m@),
            CodegenError::Internal(m) => CodegenErrorView::Internal(m@),
        }
    }
}

impl CodegenErrorView {
    /// The message of this error.
    pub open spec fn text(self) -> Seq<char> {
        match self {
            CodegenErrorView::Unsupported(m) => "unsupported codegen construct: "@ + m,
            CodegenErrorView::Internal(m) => "internal codegen error: "@ + m,
        }
    }
}

impl CodegenError {
    /// Renders the message of this error.
    pub fn to_text(&self) -> (r: String)
        ensures
            r@ == self@.text(),
    {
        match self {
            CodegenError::Unsupported(m) => String::from_str(
                "unsupported codegen construct: ",
            ).concat(m.as_str()),
            CodegenError::Internal(m) => String::from_str("internal codegen error: ").concat(
                m.as_str(),
            ),
        }
    }
}

/// The text or the error.
pub type TextResult = Result<Seq<char>, CodegenErrorView>;

/// The C name of a buffer.
pub open spec fn buffer_c(id: BufferId) -> Seq<char> {
    "b"@ + decimal(id.0 as nat)
}

/// The C name of a loop variable.
pub open spec fn var_c(var: LoopVar) -> Seq<char> {
    "i"@ + decimal(var.0 as nat)
}

/// The C text of one term with a nonzero coefficient.
pub open spec fn term_c(var: LoopVar, coeff: i64) -> Seq<char> {
    if coeff == 1 {
        var_c(var)
    } else if coeff == -1 {
        "-"@ + var_c(var)
    } else {
        signed_decimal(coeff as int) + "*"@ + var_c(var)
    }
}

/// The C texts of the terms with a nonzero coefficient among the first `n`.
pub open spec fn terms_c(terms: Seq<(LoopVar, i64)>, n: nat) -> Seq<Seq<char>>
    decreases n,
{
    if n == 0 {
        Seq::empty()
    } else {
        let before = terms_c(terms, (n - 1) as nat);
        let (var, coeff) = terms[n - 1];
        if coeff == 0 {
            before
        } else {
            before.push(term_c(var, coeff))
        }
    }
}

/// The C text of an affine expression: its terms and a nonzero constant, or zero.
pub open spec fn affine_c(e: AffineView) -> Seq<char> {
    let terms = terms_c(e.terms, e.terms.len());
    join(
        if e.constant != 0 || terms.len() == 0 {
            terms.push(signed_decimal(e.constant as int))
        } else {
            terms
        },
        " + "@,
    )
}

/// A number with its sign, also above zero.
pub open spec fn plus_decimal(i: int) -> Seq<char> {
    if i < 0 {
        signed_decimal(i)
    } else {
        "+"@ + decimal(i as nat)
    }
}

/// The C literal of a finite double, in hexadecimal floating point.
pub open spec fn double_c(bits: u64) -> Seq<char> {
    let sign = if negative64(bits) { "-"@ } else { ""@ };
    if exponent64(bits) == 0 && fraction64(bits) == 0 {
        sign + "0x0p+0"@
    } else if exponent64(bits) == 0 {
        sign + "0x0."@ + hex_digits(fraction64(bits) as nat, 13) + "p-1022"@
    } else {
        sign + "0x1."@ + hex_digits(fraction64(bits) as nat, 13) + "p"@ + plus_decimal(
            exponent64(bits) - 1023,
        )
    }
}

/// The C text of a load.
pub open spec fn ref_c(r: RefView) -> Seq<char> {
    buffer_c(r.buffer) + "["@ + affine_c(r.index) + "]"@
}

/// The C text of a scalar expression. Only integer literals within `i64` have one.
pub open spec fn scalar_c(e: ScalarView) -> TextResult
    decreases e,
{
    match e {
        ScalarView::Load(r) => Ok(ref_c(r)),
        ScalarView::ConstScalar { numer, denom } => if denom != 1 {
            Err(
                CodegenErrorView::Unsupported(
                    "non-integer scalar literal cannot be emitted exactly yet"@,
                ),
            )
        } else if !(i64::MIN <= numer <= i64::MAX) {
            Err(CodegenErrorView::Unsupported("scalar literal is outside supported range"@))
        } else {
            Ok(double_c(int_double(numer)))
        },
        ScalarView::Add(l, r) => pair_c(scalar_c(*l), " + "@, scalar_c(*r)),
        ScalarView::Sub(l, r) => pair_c(scalar_c(*l), " - "@, scalar_c(*r)),
        ScalarView::Mul(l, r) => pair_c(scalar_c(*l), " * "@, scalar_c(*r)),
        ScalarView::Neg(x) => match scalar_c(*x) {
            Err(e) => Err(e),
            Ok(t) => Ok("(-"@ + t + ")"@),
        },
        ScalarView::Relu(x) => match scalar_c(*x) {
            Err(e) => Err(e),
            Ok(t) => Ok("(("@ + t + ") > 0.0 ? ("@ + t + ") : 0.0)"@),
        },
    }
}

/// The C text of a binary operation; of two errors the left one is reported.
pub open spec fn pair_c(l: TextResult, op: Seq<char>, r: TextResult) -> TextResult {
    match l {
        Err(e) => Err(e),
        Ok(a) => match r {
            Err(e) => Err(e),
            Ok(b) => Ok("("@ + a + op + b + ")"@),
        },
    }
}

/// The texts one after the other.
pub open spec fn flat(parts: Seq<Seq<char>>) -> Seq<char>
    decreases parts.len(),
{
    if parts.len() == 0 {
        Seq::empty()
    } else {
        flat(parts.drop_last()) + parts.last()
    }
}

/// The texts one after the other, or the first error.
pub open spec fn flat_results(parts: Seq<TextResult>) -> TextResult {
    match collect(parts) {
        Err(e) => Err(e),
        Ok(texts) => Ok(flat(texts)),
    }
}

/// The opening line of a C loop.
pub open spec fn for_c(level: nat, var: LoopVar, lo: AffineView, hi: AffineView) -> Seq<char> {
    indent_text(level) + "for (long "@ + var_c(var) + " = "@ + affine_c(lo) + "; "@ + var_c(var)
        + " < "@ + affine_c(hi) + "; "@ + var_c(var) + "++) {\n"@
}

/// The C text of a statement.
pub open spec fn stmt_c(s: StmtView, level: nat) -> TextResult
    decreases s, 0nat,
{
    match s {
        StmtView::For { var, lo, hi, body } => match stmts_c(body, level + 1) {
            Err(e) => Err(e),
            Ok(inner) => Ok(for_c(level, var, lo, hi) + inner + indent_text(level) + "}\n"@),
        },
        StmtView::Assign { target, value } => match scalar_c(value) {
            Err(e) => Err(e),
            Ok(t) => Ok(indent_text(level) + ref_c(target) + " = "@ + t + ";\n"@),
        },
    }
}

/// The C text of statements in order.
pub open spec fn stmts_c(body: Seq<StmtView>, level: nat) -> TextResult
    decreases body, body.len(),
{
    if body.len() == 0 {
        Ok(Seq::empty())
    } else {
        match stmts_c(body.drop_last(), level) {
            Err(e) => Err(e),
            Ok(before) => match stmt_c(body.last(), level) {
                Err(e) => Err(e),
                Ok(t) => Ok(before + t),
            },
        }
    }
}

/// The element count of a C array, which is not empty.
pub open spec fn count_c(shape: Seq<nat>) -> Result<usize, CodegenErrorView> {
    match checked_numel(shape) {
        Err(_) => Err(CodegenErrorView::Internal("shape element count overflow"@)),
        Ok(n) => if n == 0 {
            Err(
                CodegenErrorView::Unsupported("zero-sized buffers are not supported by C backend"@),
            )
        } else {
            Ok(n)
        },
    }
}

/// The error of a constant that has no doubles.
pub open spec fn unlifted(e: EvalErrorView) -> CodegenErrorView {
    CodegenErrorView::Unsupported("constant cannot be lifted: "@ + e.text())
}

/// The C declaration of a buffer within the kernel function. Inputs are parameters.
pub open spec fn buffer_decl_c(b: BufferView) -> TextResult {
    match b.role {
        RoleView::Input(_) => Ok(Seq::empty()),
        RoleView::Const(data) => match data_error(data) {
            Some(e) => Err(unlifted(e)),
            None => match size_error(b.shape, doubles_of(data).len()) {
                Some(e) => Err(unlifted(e)),
                None => match count_c(b.shape) {
                    Err(e) => Err(e),
                    Ok(n) => Ok(
                        "  static const double "@ + buffer_c(b.id) + "["@ + decimal(n as nat)
                            + "] = {"@ + join(
                            doubles_of(data).map_values(|bits: u64| double_c(bits)),
                            ", "@,
                        ) + "};\n"@,
                    ),
                },
            },
        },
        RoleView::Temp | RoleView::Output => match count_c(b.shape) {
            Err(e) => Err(e),
            Ok(n) => Ok("  double "@ + buffer_c(b.id) + "["@ + decimal(n as nat) + "];\n"@),
        },
    }
}

/// The C name of an output array.
pub open spec fn out_c(index: nat) -> Seq<char> {
    "out"@ + decimal(index)
}

/// The opening line of a C loop over elements.
pub open spec fn element_loop_c(count: nat) -> Seq<char> {
    "  for (long j = 0; j < "@ + decimal(count) + "; j++) {\n"@
}

/// The C loop that copies a buffer to an output.
pub open spec fn copy_out_c(k: KernelView, index: int) -> TextResult {
    match count_c(k.output_shapes[index]) {
        Err(e) => Err(e),
        Ok(n) => Ok(
            element_loop_c(n as nat) + "    "@ + out_c(index as nat) + "[j] = "@ + buffer_c(
                k.outputs[index],
            ) + "[j];\n  }\n"@,
        ),
    }
}

/// The parameters of the kernel function.
pub open spec fn params_c(k: KernelView) -> Seq<Seq<char>> {
    k.inputs.map_values(|id: BufferId| "const double *"@ + buffer_c(id)) + Seq::new(
        k.outputs.len(),
        |i: int| "double *"@ + out_c(i as nat),
    )
}

/// The arguments of the call of the kernel function.
pub open spec fn args_c(k: KernelView) -> Seq<Seq<char>> {
    k.inputs.map_values(|id: BufferId| buffer_c(id)) + Seq::new(
        k.outputs.len(),
        |i: int| out_c(i as nat),
    )
}

/// The C kernel function: declarations, then statements, then copies of the outputs.
pub open spec fn kernel_c(k: KernelView) -> TextResult {
    match flat_results(k.buffers.map_values(|b: BufferView| buffer_decl_c(b))) {
        Err(e) => Err(e),
        Ok(decls) => match stmts_c(k.body, 1) {
            Err(e) => Err(e),
            Ok(body) => if k.outputs.len() != k.output_shapes.len() {
                Err(CodegenErrorView::Internal("kernel output shape metadata length mismatch"@))
            } else {
                match flat_results(Seq::new(k.outputs.len(), |i: int| copy_out_c(k, i))) {
                    Err(e) => Err(e),
                    Ok(copies) => Ok(
                        "static void vtc_kernel("@ + join(params_c(k), ", "@) + ") {\n"@ + decls
                            + body + copies + "}\n\n"@,
                    ),
                }
            },
        },
    }
}

/// The C text that declares an input array and reads its bits.
pub open spec fn read_input_c(k: KernelView, id: BufferId) -> TextResult {
    if id.0 >= k.buffers.len() {
        Err(CodegenErrorView::Internal("missing input buffer "@ + id.text()))
    } else {
        match count_c(k.buffers[id.0 as int].shape) {
            Err(e) => Err(e),
            Ok(n) => Ok(
                "  double "@ + buffer_c(id) + "["@ + decimal(n as nat) + "];\n"@ + element_loop_c(
                    n as nat,
                )
                    + "    unsigned long long bits = 0;\n    if (fscanf(input, \"%llx\", &bits) != 1) { return 3; }\n    memcpy(&"@
                    + buffer_c(id) + "[j], &bits, sizeof(double));\n  }\n"@,
            ),
        }
    }
}

/// The C declaration of an output array.
pub open spec fn out_decl_c(k: KernelView, index: int) -> TextResult {
    match count_c(k.output_shapes[index]) {
        Err(e) => Err(e),
        Ok(n) => Ok(
            "  double "@ + out_c(index as nat) + "["@ + decimal(n as nat) + "];\n"@,
        ),
    }
}

/// The C loop that prints the bits of an output.
pub open spec fn write_output_c(k: KernelView, index: int) -> TextResult {
    match count_c(k.output_shapes[index]) {
        Err(e) => Err(e),
        Ok(n) => Ok(
            element_loop_c(n as nat) + "    unsigned long long bits = 0;\n    memcpy(&bits, &"@
                + out_c(index as nat)
                + "[j], sizeof(double));\n    printf(\"%016llx\\n\", bits);\n  }\n"@,
        ),
    }
}

/// The head of the C main function.
pub open spec fn main_head_c() -> Seq<char> {
    "int main(int argc, char **argv) {\n  FILE *input = stdin;\n  unsigned long reps = 1;\n  if (argc > 1 && strcmp(argv[1], \"-\") != 0) {\n    input = fopen(argv[1], \"r\");\n    if (input == NULL) { return 2; }\n  }\n  if (argc > 2) { reps = strtoul(argv[2], NULL, 10); }\n  if (reps == 0) { reps = 1; }\n"@
}

/// The C main function: it reads the inputs, runs the kernel and prints the outputs.
pub open spec fn main_c(k: KernelView) -> TextResult {
    match flat_results(k.inputs.map_values(|id: BufferId| read_input_c(k, id))) {
        Err(e) => Err(e),
        Ok(reads) => match flat_results(
            Seq::new(k.output_shapes.len(), |i: int| out_decl_c(k, i)),
        ) {
            Err(e) => Err(e),
            Ok(decls) => match flat_results(
                Seq::new(k.output_shapes.len(), |i: int| write_output_c(k, i)),
            ) {
                Err(e) => Err(e),
                Ok(writes) => Ok(
                    main_head_c() + reads + decls
                        + "  for (unsigned long r = 0; r < reps; r++) {\n    vtc_kernel("@ + join(
                        args_c(k),
                        ", "@,
                    ) + ");\n  }\n"@ + writes
                        + "  if (input != stdin) { fclose(input); }\n  return 0;\n}\n"@,
                ),
            },
        },
    }
}

/// The whole C source of a kernel.
pub open spec fn source_c(k: KernelView) -> TextResult {
    match kernel_c(k) {
        Err(e) => Err(e),
        Ok(kernel) => match main_c(k) {
            Err(e) => Err(e),
            Ok(main) => Ok(
                "#pragma STDC FP_CONTRACT OFF\n#include <stdint.h>\n#include <stdio.h>\n#include <stdlib.h>\n#include <string.h>\n\n"@
                    + kernel + main,
            ),
        },
    }
}

fn buffer_name(id: BufferId) -> (r: String)
    ensures
        r@ == buffer_c(id),
{
    String::from_str("b").concat(decimal_text(id.0 as u64).as_str())
}

fn var_name(var: LoopVar) -> (r: String)
    ensures
        r@ == var_c(var),
{
    String::from_str("i").concat(decimal_text(var.0 as u64).as_str())
}

fn out_name(index: usize) -> (r: String)
    ensures
        r@ == out_c(index as nat),
{
    String::from_str("out").concat(index_text(index).as_str())
}

fn affine_text(e: &AffineExpr) -> (r: String)
    ensures
        r@ == affine_c(e@),
{
    let mut parts: Vec<String> = Vec::new();
    proof {
        assert(string_views(parts@) =~= Seq::empty());
    }
    let mut i: usize = 0;
    while i < e.terms.len()
        invariant
            i <= e@.terms.len(),
            string_views(parts@) == terms_c(e@.terms, i as nat),
        decreases e@.terms.len() - i,
    {
        let term: (LoopVar, i64) = e.terms[i];
        let ghost before = parts@;
        if term.1 != 0 {
            let part = if term.1 == 1 {
                var_name(term.0)
            } else if term.1 == -1 {
                String::from_str("-").concat(var_name(term.0).as_str())
            } else {
                signed_text(term.1).concat("*").concat(var_name(term.0).as_str())
            };
            let ghost text = part@;
            parts.push(part);
            proof {
                assert(string_views(parts@) =~= string_views(before).push(text));
            }
        }
        i += 1;
    }
    if e.constant != 0 || parts.len() == 0 {
        let ghost before = parts@;
        let part = signed_text(e.constant);
        let ghost text = part@;
        parts.push(part);
        proof {
            assert(string_views(parts@) =~= string_views(before).push(text));
        }
    }
    join_text(&parts, " + ")
}

/// Returns the C literal of a finite double.
fn double_literal(bits: u64) -> (r: String)
    requires
        finite64(bits),
    ensures
        r@ == double_c(bits),
{
    let sign = if bits >= SIGN { "-" } else { "" };
    let exponent: u64 = (bits / HIDDEN) % 2048;
    let fraction: u64 = bits % HIDDEN;
    if exponent == 0 && fraction == 0 {
        return String::from_str(sign).concat("0x0p+0");
    }
    let digits = hex_text(fraction, 13);
    if exponent == 0 {
        return String::from_str(sign).concat("0x0.").concat(digits.as_str()).concat("p-1022");
    }
    let power: i64 = exponent as i64 - 1023;
    let power_text = if power < 0 {
        signed_text(power)
    } else {
        String::from_str("+").concat(decimal_text(power as u64).as_str())
    };
    String::from_str(sign)
        .concat("0x1.")
        .concat(digits.as_str())
        .concat("p")
        .concat(power_text.as_str())
}

fn reference_text(r: &BufferRef) -> (t: String)
    ensures
        t@ == ref_c(r@),
{
    buffer_name(r.buffer).concat("[").concat(affine_text(&r.index).as_str()).concat("]")
}

fn scalar_text(value: &ScalarExpr) -> (r: Result<String, CodegenError>)
    ensures
        match r {
            Ok(t) => scalar_c(value@) == Ok::<Seq<char>, CodegenErrorView>(t@),
            Err(e) => scalar_c(value@) == Err::<Seq<char>, CodegenErrorView>(e@),
        },
    decreases value,
{
    match value {
        ScalarExpr::Load(reference) => Ok(reference_text(reference)),
        ScalarExpr::ConstScalar(value) => {
            if !value.is_integer() {
                return Err(
                    CodegenError::Unsupported(
                        String::from_str(
                            "non-integer scalar literal cannot be emitted exactly yet",
                        ),
                    ),
                );
            }
            match value.to_i64() {
                None => Err(
                    CodegenError::Unsupported(
                        String::from_str("scalar literal is outside supported range"),
                    ),
                ),
                Some(integer) => Ok(double_literal(from_int64(integer))),
            }
        }
        ScalarExpr::Add(left, right) => match scalar_text(left) {
            Err(e) => Err(e),
            Ok(a) => match scalar_text(right) {
                Err(e) => Err(e),
                Ok(b) => Ok(paired(a, " + ", b)),
            },
        },
        ScalarExpr::Sub(left, right) => match scalar_text(left) {
            Err(e) => Err(e),
            Ok(a) => match scalar_text(right) {
                Err(e) => Err(e),
                Ok(b) => Ok(paired(a, " - ", b)),
            },
        },
        ScalarExpr::Mul(left, right) => match scalar_text(left) {
            Err(e) => Err(e),
            Ok(a) => match scalar_text(right) {
                Err(e) => Err(e),
                Ok(b) => Ok(paired(a, " * ", b)),
            },
        },
        ScalarExpr::Neg(input) => match scalar_text(input) {
            Err(e) => Err(e),
            Ok(t) => Ok(String::from_str("(-").concat(t.as_str()).concat(")")),
        },
        ScalarExpr::Relu(input) => match scalar_text(input) {
            Err(e) => Err(e),
            Ok(t) => Ok(
                String::from_str("((")
                    .concat(t.as_str())
                    .concat(") > 0.0 ? (")
                    .concat(t.as_str())
                    .concat(") : 0.0)"),
            ),
        },
    }
}

fn paired(a: String, op: &str, b: String) -> (r: String)
    ensures
        r@ == "("@ + a@ + op@ + b@ + ")"@,
{
    String::from_str("(").concat(a.as_str()).concat(op).concat(b.as_str()).concat(")")
}

fn emit_stmt(stmt: &Stmt, pad: &String, Ghost(level): Ghost<nat>) -> (r: Result<
    String,
    CodegenError,
>)
    requires
        pad@ == indent_text(level),
    ensures
        match r {
            Ok(t) => stmt_c(stmt@, level) == Ok::<Seq<char>, CodegenErrorView>(t@),
            Err(e) => stmt_c(stmt@, level) == Err::<Seq<char>, CodegenErrorView>(e@),
        },
    decreases stmt, 0nat,
{
    match stmt {
        Stmt::For { var, lo, hi, body } => {
            proof {
                lemma_for_view(*var, *lo, *hi, *body);
            }
            let deeper = pad.clone().concat("  ");
            let inner = match emit_stmts(body, &deeper, Ghost(level + 1)) {
                Ok(inner) => inner,
                Err(e) => {
                    return Err(e);
                }
            };
            let name = var_name(*var);
            let head = pad.clone()
                .concat("for (long ")
                .concat(name.as_str())
                .concat(" = ")
                .concat(affine_text(lo).as_str())
                .concat("; ")
                .concat(name.as_str())
                .concat(" < ")
                .concat(affine_text(hi).as_str())
                .concat("; ")
                .concat(name.as_str())
                .concat("++) {\n");
            Ok(head.concat(inner.as_str()).concat(pad.as_str()).concat("}\n"))
        }
        Stmt::Assign { target, value } => match scalar_text(value) {
            Err(e) => Err(e),
            Ok(t) => Ok(
                pad.clone()
                    .concat(reference_text(target).as_str())
                    .concat(" = ")
                    .concat(t.as_str())
                    .concat(";\n"),
            ),
        },
    }
}

fn emit_stmts(body: &Vec<Stmt>, pad: &String, Ghost(level): Ghost<nat>) -> (r: Result<
    String,
    CodegenError,
>)
    requires
        pad@ == indent_text(level),
    ensures
        match r {
            Ok(t) => stmts_c(stmt_views(body@), level) == Ok::<Seq<char>, CodegenErrorView>(t@),
            Err(e) => stmts_c(stmt_views(body@), level) == Err::<Seq<char>, CodegenErrorView>(e@),
        },
    decreases body, 1nat,
{
    let ghost views = stmt_views(body@);
    let mut out = String::new();
    proof {
        assert(views.take(0) =~= Seq::empty());
    }
    let mut i: usize = 0;
    while i < body.len()
        invariant
            i <= body@.len(),
            views == stmt_views(body@),
            pad@ == indent_text(level),
            stmts_c(views.take(i as int), level) == Ok::<Seq<char>, CodegenErrorView>(out@),
        decreases body@.len() - i,
    {
        proof {
            assert(views.take(i as int + 1).drop_last() =~= views.take(i as int));
            assert(views.take(i as int + 1).last() == body@[i as int]@);
        }
        match emit_stmt(&body[i], pad, Ghost(level)) {
            Ok(t) => {
                out.append(t.as_str());
            }
            Err(e) => {
                proof {
                    lemma_stmts_error(views, level, i as int + 1);
                }
                return Err(e);
            }
        }
        i += 1;
    }
    proof {
        assert(views.take(i as int) =~= views);
    }
    Ok(out)
}

/// An error among the first statements is the error of the whole.
proof fn lemma_stmts_error(body: Seq<StmtView>, level: nat, n: int)
    requires
        0 <= n <= body.len(),
        stmts_c(body.take(n), level) is Err,
    ensures
        stmts_c(body, level) == stmts_c(body.take(n), level),
    decreases body.len() - n,
{
    if n < body.len() {
        assert(body.take(n + 1).drop_last() =~= body.take(n));
        lemma_stmts_error(body, level, n + 1);
    } else {
        assert(body.take(n) =~= body);
    }
}

fn array_count(shape: &Shape) -> (r: Result<usize, CodegenError>)
    ensures
        match r {
            Ok(n) => count_c(shape@) == Ok::<usize, CodegenErrorView>(n),
            Err(e) => count_c(shape@) == Err::<usize, CodegenErrorView>(e@),
        },
{
    match shape.numel() {
        Err(_) => Err(CodegenError::Internal(String::from_str("shape element count overflow"))),
        Ok(n) => {
            if n == 0 {
                Err(
                    CodegenError::Unsupported(
                        String::from_str("zero-sized buffers are not supported by C backend"),
                    ),
                )
            } else {
                Ok(n)
            }
        }
    }
}

fn buffer_decl(b: &Buffer) -> (r: Result<String, CodegenError>)
    ensures
        match r {
            Ok(t) => buffer_decl_c(b@) == Ok::<Seq<char>, CodegenErrorView>(t@),
            Err(e) => buffer_decl_c(b@) == Err::<Seq<char>, CodegenErrorView>(e@),
        },
{
    match &b.role {
        BufferRole::Input(_) => Ok(String::new()),
        BufferRole::Const(data) => {
            let tensor = match TensorF64::from_data(data, &b.shape) {
                Ok(tensor) => tensor,
                Err(e) => {
                    return Err(
                        CodegenError::Unsupported(
                            String::from_str("constant cannot be lifted: ").concat(
                                e.to_text().as_str(),
                            ),
                        ),
                    );
                }
            };
            let n: usize = match array_count(&b.shape) {
                Ok(n) => n,
                Err(e) => {
                    return Err(e);
                }
            };
            let ghost bits = doubles_of(data@);
            let ghost want = bits.map_values(|bits: u64| double_c(bits));
            let mut parts: Vec<String> = Vec::new();
            let mut i: usize = 0;
            while i < tensor.data.len()
                invariant
                    i <= tensor@.data.len(),
                    tensor@.data == bits,
                    bits == doubles_of(data@),
                    doubles_finite(tensor@.data),
                    want == bits.map_values(|bits: u64| double_c(bits)),
                    parts@.len() == i,
                    forall|j: int| 0 <= j < i ==> (#[trigger] parts@[j])@ == want[j],
                decreases tensor@.data.len() - i,
            {
                assert(finite64(tensor@.data[i as int]));
                parts.push(double_literal(tensor.data[i]));
                i += 1;
            }
            proof {
                assert(string_views(parts@) =~= want);
            }
            Ok(
                String::from_str("  static const double ")
                    .concat(buffer_name(b.id).as_str())
                    .concat("[")
                    .concat(index_text(n).as_str())
                    .concat("] = {")
                    .concat(join_text(&parts, ", ").as_str())
                    .concat("};\n"),
            )
        }
        BufferRole::Temp | BufferRole::Output => match array_count(&b.shape) {
            Err(e) => Err(e),
            Ok(n) => Ok(
                String::from_str("  double ")
                    .concat(buffer_name(b.id).as_str())
                    .concat("[")
                    .concat(index_text(n).as_str())
                    .concat("];\n"),
            ),
        },
    }
}

fn element_loop(count: usize) -> (r: String)
    ensures
        r@ == element_loop_c(count as nat),
{
    String::from_str("  for (long j = 0; j < ")
        .concat(index_text(count).as_str())
        .concat("; j++) {\n")
}

/// Renders the kernel function.
fn emit_kernel_function(k: &Kernel) -> (r: Result<String, CodegenError>)
    ensures
        match r {
            Ok(t) => kernel_c(k@) == Ok::<Seq<char>, CodegenErrorView>(t@),
            Err(e) => kernel_c(k@) == Err::<Seq<char>, CodegenErrorView>(e@),
        },
{
    let decls = match emit_decls(k) {
        Ok(t) => t,
        Err(e) => {
            return Err(e);
        }
    };
    let body = match emit_stmts(&k.body, &crate::loop_ir::indent(1), Ghost(1)) {
        Ok(t) => t,
        Err(e) => {
            return Err(e);
        }
    };
    if k.outputs.len() != k.output_shapes.len() {
        return Err(
            CodegenError::Internal(
                String::from_str("kernel output shape metadata length mismatch"),
            ),
        );
    }
    let copies = match emit_copies(k) {
        Ok(t) => t,
        Err(e) => {
            return Err(e);
        }
    };
    let params = kernel_names(k, "const double *", "double *");
    proof {
        assert(string_views(params@) =~= params_c(k@));
    }
    Ok(
        String::from_str("static void vtc_kernel(")
            .concat(join_text(&params, ", ").as_str())
            .concat(") {\n")
            .concat(decls.as_str())
            .concat(body.as_str())
            .concat(copies.as_str())
            .concat("}\n\n"),
    )
}

/// The names of the inputs and outputs, each after a prefix.
fn kernel_names(k: &Kernel, input_prefix: &str, output_prefix: &str) -> (r: Vec<String>)
    ensures
        r@.len() == k@.inputs.len() + k@.outputs.len(),
        forall|i: int|
            0 <= i < k@.inputs.len() ==> (#[trigger] r@[i])@ == input_prefix@ + buffer_c(
                k@.inputs[i],
            ),
        forall|i: int|
            k@.inputs.len() <= i < r@.len() ==> (#[trigger] r@[i])@ == output_prefix@ + out_c(
                (i - k@.inputs.len()) as nat,
            ),
{
    let mut names: Vec<String> = Vec::new();
    let mut i: usize = 0;
    while i < k.inputs.len()
        invariant
            i <= k@.inputs.len(),
            names@.len() == i,
            forall|j: int|
                0 <= j < i ==> (#[trigger] names@[j])@ == input_prefix@ + buffer_c(k@.inputs[j]),
        decreases k@.inputs.len() - i,
    {
        names.push(String::from_str(input_prefix).concat(buffer_name(k.inputs[i]).as_str()));
        i += 1;
    }
    let mut i: usize = 0;
    while i < k.outputs.len()
        invariant
            i <= k@.outputs.len(),
            names@.len() == k@.inputs.len() + i,
            forall|j: int|
                0 <= j < k@.inputs.len() ==> (#[trigger] names@[j])@ == input_prefix@ + buffer_c(
                    k@.inputs[j],
                ),
            forall|j: int|
                k@.inputs.len() <= j < names@.len() ==> (#[trigger] names@[j])@ == output_prefix@
                    + out_c((j - k@.inputs.len()) as nat),
        decreases k@.outputs.len() - i,
    {
        names.push(String::from_str(output_prefix).concat(out_name(i).as_str()));
        i += 1;
    }
    names
}

/// One more text.
proof fn lemma_flat_push(parts: Seq<Seq<char>>, part: Seq<char>)
    ensures
        flat(parts.push(part)) == flat(parts) + part,
{
    assert(parts.push(part).drop_last() =~= parts);
}

fn emit_decls(k: &Kernel) -> (r: Result<String, CodegenError>)
    ensures
        ({
            let want = flat_results(k@.buffers.map_values(|b: BufferView| buffer_decl_c(b)));
            match r {
                Ok(t) => want == Ok::<Seq<char>, CodegenErrorView>(t@),
                Err(e) => want == Err::<Seq<char>, CodegenErrorView>(e@),
            }
        }),
{
    let ghost results = k@.buffers.map_values(|b: BufferView| buffer_decl_c(b));
    let ghost mut texts: Seq<Seq<char>> = Seq::empty();
    let mut out = String::new();
    proof {
        assert(results.take(0) =~= Seq::empty());
    }
    let mut i: usize = 0;
    while i < k.buffers.len()
        invariant
            i <= k@.buffers.len(),
            results == k@.buffers.map_values(|b: BufferView| buffer_decl_c(b)),
            collect(results.take(i as int)) == Ok::<Seq<Seq<char>>, CodegenErrorView>(texts),
            out@ == flat(texts),
        decreases k@.buffers.len() - i,
    {
        proof {
            lemma_collect_step(results, i as int);
            assert(results[i as int] == buffer_decl_c(k.buffers@[i as int]@));
        }
        match buffer_decl(&k.buffers[i]) {
            Ok(t) => {
                out.append(t.as_str());
                proof {
                    lemma_flat_push(texts, t@);
                    texts = texts.push(t@);
                }
            }
            Err(e) => {
                proof {
                    lemma_collect_error(results, i as int + 1);
                }
                return Err(e);
            }
        }
        i += 1;
    }
    proof {
        assert(results.take(i as int) =~= results);
    }
    Ok(out)
}

fn emit_copies(k: &Kernel) -> (r: Result<String, CodegenError>)
    requires
        k@.outputs.len() == k@.output_shapes.len(),
    ensures
        ({
            let want = flat_results(Seq::new(k@.outputs.len(), |i: int| copy_out_c(k@, i)));
            match r {
                Ok(t) => want == Ok::<Seq<char>, CodegenErrorView>(t@),
                Err(e) => want == Err::<Seq<char>, CodegenErrorView>(e@),
            }
        }),
{
    let ghost results = Seq::new(k@.outputs.len(), |i: int| copy_out_c(k@, i));
    let ghost mut texts: Seq<Seq<char>> = Seq::empty();
    let mut out = String::new();
    proof {
        assert(results.take(0) =~= Seq::empty());
    }
    let mut i: usize = 0;
    while i < k.outputs.len()
        invariant
            i <= k@.outputs.len(),
            k@.outputs.len() == k@.output_shapes.len(),
            results == Seq::new(k@.outputs.len(), |i: int| copy_out_c(k@, i)),
            collect(results.take(i as int)) == Ok::<Seq<Seq<char>>, CodegenErrorView>(texts),
            out@ == flat(texts),
        decreases k@.outputs.len() - i,
    {
        proof {
            lemma_collect_step(results, i as int);
        }
        match array_count(&k.output_shapes[i]) {
            Ok(n) => {
                let t = element_loop(n)
                    .concat("    ")
                    .concat(out_name(i).as_str())
                    .concat("[j] = ")
                    .concat(buffer_name(k.outputs[i]).as_str())
                    .concat("[j];\n  }\n");
                out.append(t.as_str());
                proof {
                    assert(results[i as int] == Ok::<Seq<char>, CodegenErrorView>(t@));
                    lemma_flat_push(texts, t@);
                    texts = texts.push(t@);
                }
            }
            Err(e) => {
                proof {
                    assert(results[i as int] == Err::<Seq<char>, CodegenErrorView>(e@));
                    lemma_collect_error(results, i as int + 1);
                }
                return Err(e);
            }
        }
        i += 1;
    }
    proof {
        assert(results.take(i as int) =~= results);
    }
    Ok(out)
}

fn emit_read_loops(k: &Kernel) -> (r: Result<String, CodegenError>)
    ensures
        ({
            let want = flat_results(k@.inputs.map_values(|id: BufferId| read_input_c(k@, id)));
            match r {
                Ok(t) => want == Ok::<Seq<char>, CodegenErrorView>(t@),
                Err(e) => want == Err::<Seq<char>, CodegenErrorView>(e@),
            }
        }),
{
    let ghost results = k@.inputs.map_values(|id: BufferId| read_input_c(k@, id));
    let ghost mut texts: Seq<Seq<char>> = Seq::empty();
    let mut out = String::new();
    proof {
        assert(results.take(0) =~= Seq::empty());
    }
    let mut i: usize = 0;
    while i < k.inputs.len()
        invariant
            i <= k@.inputs.len(),
            results == k@.inputs.map_values(|id: BufferId| read_input_c(k@, id)),
            collect(results.take(i as int)) == Ok::<Seq<Seq<char>>, CodegenErrorView>(texts),
            out@ == flat(texts),
        decreases k@.inputs.len() - i,
    {
        proof {
            lemma_collect_step(results, i as int);
        }
        match emit_read_loop(k, k.inputs[i]) {
            Ok(t) => {
                out.append(t.as_str());
                proof {
                    lemma_flat_push(texts, t@);
                    texts = texts.push(t@);
                }
            }
            Err(e) => {
                proof {
                    lemma_collect_error(results, i as int + 1);
                }
                return Err(e);
            }
        }
        i += 1;
    }
    proof {
        assert(results.take(i as int) =~= results);
    }
    Ok(out)
}

fn emit_read_loop(k: &Kernel, id: BufferId) -> (r: Result<String, CodegenError>)
    ensures
        match r {
            Ok(t) => read_input_c(k@, id) == Ok::<Seq<char>, CodegenErrorView>(t@),
            Err(e) => read_input_c(k@, id) == Err::<Seq<char>, CodegenErrorView>(e@),
        },
{
    let buffer = match k.buffer(id) {
        Some(buffer) => buffer,
        None => {
            return Err(
                CodegenError::Internal(
                    String::from_str("missing input buffer ").concat(id.to_text().as_str()),
                ),
            );
        }
    };
    match array_count(&buffer.shape) {
        Err(e) => Err(e),
        Ok(n) => {
            let name = buffer_name(id);
            Ok(
                String::from_str("  double ")
                    .concat(name.as_str())
                    .concat("[")
                    .concat(index_text(n).as_str())
                    .concat("];\n")
                    .concat(element_loop(n).as_str())
                    .concat(
                        "    unsigned long long bits = 0;\n    if (fscanf(input, \"%llx\", &bits) != 1) { return 3; }\n    memcpy(&",
                    )
                    .concat(name.as_str())
                    .concat("[j], &bits, sizeof(double));\n  }\n"),
            )
        }
    }
}

fn emit_out_decls(k: &Kernel) -> (r: Result<String, CodegenError>)
    ensures
        ({
            let want = flat_results(Seq::new(k@.output_shapes.len(), |i: int| out_decl_c(k@, i)));
            match r {
                Ok(t) => want == Ok::<Seq<char>, CodegenErrorView>(t@),
                Err(e) => want == Err::<Seq<char>, CodegenErrorView>(e@),
            }
        }),
{
    let ghost results = Seq::new(k@.output_shapes.len(), |i: int| out_decl_c(k@, i));
    let ghost mut texts: Seq<Seq<char>> = Seq::empty();
    let mut out = String::new();
    proof {
        assert(results.take(0) =~= Seq::empty());
    }
    let mut i: usize = 0;
    while i < k.output_shapes.len()
        invariant
            i <= k@.output_shapes.len(),
            results == Seq::new(k@.output_shapes.len(), |i: int| out_decl_c(k@, i)),
            collect(results.take(i as int)) == Ok::<Seq<Seq<char>>, CodegenErrorView>(texts),
            out@ == flat(texts),
        decreases k@.output_shapes.len() - i,
    {
        proof {
            lemma_collect_step(results, i as int);
        }
        match array_count(&k.output_shapes[i]) {
            Ok(n) => {
                let t = String::from_str("  double ")
                    .concat(out_name(i).as_str())
                    .concat("[")
                    .concat(index_text(n).as_str())
                    .concat("];\n");
                out.append(t.as_str());
                proof {
                    assert(results[i as int] == Ok::<Seq<char>, CodegenErrorView>(t@));
                    lemma_flat_push(texts, t@);
                    texts = texts.push(t@);
                }
            }
            Err(e) => {
                proof {
                    assert(results[i as int] == Err::<Seq<char>, CodegenErrorView>(e@));
                    lemma_collect_error(results, i as int + 1);
                }
                return Err(e);
            }
        }
        i += 1;
    }
    proof {
        assert(results.take(i as int) =~= results);
    }
    Ok(out)
}

fn emit_write_loops(k: &Kernel) -> (r: Result<String, CodegenError>)
    ensures
        ({
            let want = flat_results(
                Seq::new(k@.output_shapes.len(), |i: int| write_output_c(k@, i)),
            );
            match r {
                Ok(t) => want == Ok::<Seq<char>, CodegenErrorView>(t@),
                Err(e) => want == Err::<Seq<char>, CodegenErrorView>(e@),
            }
        }),
{
    let ghost results = Seq::new(k@.output_shapes.len(), |i: int| write_output_c(k@, i));
    let ghost mut texts: Seq<Seq<char>> = Seq::empty();
    let mut out = String::new();
    proof {
        assert(results.take(0) =~= Seq::empty());
    }
    let mut i: usize = 0;
    while i < k.output_shapes.len()
        invariant
            i <= k@.output_shapes.len(),
            results == Seq::new(k@.output_shapes.len(), |i: int| write_output_c(k@, i)),
            collect(results.take(i as int)) == Ok::<Seq<Seq<char>>, CodegenErrorView>(texts),
            out@ == flat(texts),
        decreases k@.output_shapes.len() - i,
    {
        proof {
            lemma_collect_step(results, i as int);
        }
        match array_count(&k.output_shapes[i]) {
            Ok(n) => {
                let t = element_loop(n)
                    .concat("    unsigned long long bits = 0;\n    memcpy(&bits, &")
                    .concat(out_name(i).as_str())
                    .concat(
                        "[j], sizeof(double));\n    printf(\"%016llx\\n\", bits);\n  }\n",
                    );
                out.append(t.as_str());
                proof {
                    assert(results[i as int] == Ok::<Seq<char>, CodegenErrorView>(t@));
                    lemma_flat_push(texts, t@);
                    texts = texts.push(t@);
                }
            }
            Err(e) => {
                proof {
                    assert(results[i as int] == Err::<Seq<char>, CodegenErrorView>(e@));
                    lemma_collect_error(results, i as int + 1);
                }
                return Err(e);
            }
        }
        i += 1;
    }
    proof {
        assert(results.take(i as int) =~= results);
    }
    Ok(out)
}

/// Renders the main function.
fn emit_main(k: &Kernel) -> (r: Result<String, CodegenError>)
    ensures
        match r {
            Ok(t) => main_c(k@) == Ok::<Seq<char>, CodegenErrorView>(t@),
            Err(e) => main_c(k@) == Err::<Seq<char>, CodegenErrorView>(e@),
        },
{
    let reads = match emit_read_loops(k) {
        Ok(t) => t,
        Err(e) => {
            return Err(e);
        }
    };
    let decls = match emit_out_decls(k) {
        Ok(t) => t,
        Err(e) => {
            return Err(e);
        }
    };
    let writes = match emit_write_loops(k) {
        Ok(t) => t,
        Err(e) => {
            return Err(e);
        }
    };
    let args = kernel_names(k, "", "");
    proof {
        reveal_strlit("");
        assert forall|i: int| 0 <= i < args@.len() implies (#[trigger] args@[i])@ == args_c(
            k@,
        )[i] by {
            if i < k@.inputs.len() {
                assert(""@ + buffer_c(k@.inputs[i]) =~= buffer_c(k@.inputs[i]));
            } else {
                let j = (i - k@.inputs.len()) as nat;
                assert(""@ + out_c(j) =~= out_c(j));
            }
        }
        assert(string_views(args@) =~= args_c(k@));
    }
    Ok(
        String::from_str(
            "int main(int argc, char **argv) {\n  FILE *input = stdin;\n  unsigned long reps = 1;\n  if (argc > 1 && strcmp(argv[1], \"-\") != 0) {\n    input = fopen(argv[1], \"r\");\n    if (input == NULL) { return 2; }\n  }\n  if (argc > 2) { reps = strtoul(argv[2], NULL, 10); }\n  if (reps == 0) { reps = 1; }\n",
        )
            .concat(reads.as_str())
            .concat(decls.as_str())
            .concat("  for (unsigned long r = 0; r < reps; r++) {\n    vtc_kernel(")
            .concat(join_text(&args, ", ").as_str())
            .concat(");\n  }\n")
            .concat(writes.as_str())
            .concat("  if (input != stdin) { fclose(input); }\n  return 0;\n}\n"),
    )
}

/// Emits a C program for a kernel.
///
/// The program reads the inputs as hexadecimal bit patterns, one per line,
/// and prints the outputs in the same way.
///
/// # Errors
///
/// Returns [`CodegenError`] if a constant or a literal has no C form, a buffer
/// is empty, or the kernel is inconsistent.
pub fn emit_c(kernel: &Kernel) -> (r: Result<String, CodegenError>)
    ensures
        match r {
            Ok(t) => source_c(kernel@) == Ok::<Seq<char>, CodegenErrorView>(t@),
            Err(e) => source_c(kernel@) == Err::<Seq<char>, CodegenErrorView>(e@),
        },
{
    let function = match emit_kernel_function(kernel) {
        Ok(t) => t,
        Err(e) => {
            return Err(e);
        }
    };
    let main = match emit_main(kernel) {
        Ok(t) => t,
        Err(e) => {
            return Err(e);
        }
    };
    Ok(
        String::from_str(
            "#pragma STDC FP_CONTRACT OFF\n#include <stdint.h>\n#include <stdio.h>\n#include <stdlib.h>\n#include <string.h>\n\n",
        )
            .concat(function.as_str())
            .concat(main.as_str()),
    )
}

} // verus!
