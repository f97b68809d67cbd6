//! Integration tests for C emission and the bit-pattern exchange.

use vtc::{
    emit_c, input_bits, lower, parse_outputs, AffineExpr, BenchError, Bindings, Buffer, BufferId,
    BufferRef, BufferRole, DType, Dim, Graph, GraphBuilder, Kernel, LoopVar, NodeId, Rational,
    ScalarExpr, Shape, Stmt, TensorData, TensorF64,
};

fn shape(dims: &[usize]) -> Shape {
    Shape::new(dims.iter().copied().map(Dim::new).collect())
}

fn input_f64(builder: &mut GraphBuilder, name: &str, dims: &[usize]) -> NodeId {
    builder
        .input(name, DType::F64, shape(dims))
        .expect("input is valid")
}

fn const_i64(builder: &mut GraphBuilder, dims: &[usize], values: &[i64]) -> NodeId {
    builder
        .constant(TensorData::I64(values.to_vec()), shape(dims))
        .expect("constant is valid")
}

fn finish(builder: GraphBuilder, output: NodeId) -> Graph {
    let mut builder = builder;
    builder.mark_output(output).expect("output is valid");
    builder.build().expect("graph is valid")
}

fn matmul_graph(size: usize) -> Graph {
    let mut builder = GraphBuilder::new();
    let count = size.checked_mul(size).expect("test size fits");
    let lhs_values = (1..=i64::try_from(count).expect("test count fits")).collect::<Vec<_>>();
    let rhs_values = (1..=i64::try_from(count).expect("test count fits"))
        .rev()
        .collect::<Vec<_>>();
    let lhs = const_i64(&mut builder, &[size, size], &lhs_values);
    let rhs = const_i64(&mut builder, &[size, size], &rhs_values);
    let matmul = builder.matmul(lhs, rhs).expect("matmul is valid");
    finish(builder, matmul)
}

fn add_relu_graph() -> Graph {
    let mut builder = GraphBuilder::new();
    let left = input_f64(&mut builder, "left", &[2, 3]);
    let right = input_f64(&mut builder, "right", &[2, 3]);
    let add = builder.add(left, right).expect("add is valid");
    let relu = builder.relu(add).expect("relu is valid");
    finish(builder, relu)
}

fn tensor(dims: &[usize], values: &[f64]) -> TensorF64 {
    let bits = values.iter().map(|value| value.to_bits()).collect::<Vec<_>>();
    TensorF64::from_f64(shape(dims), &bits).expect("tensor is valid")
}

#[test]
fn emitted_c_is_deterministic_and_contains_concrete_contract() {
    let kernel = lower(&matmul_graph(2)).expect("graph lowers");
    let first = emit_c(&kernel).expect("C emission succeeds");
    let second = emit_c(&kernel).expect("C emission succeeds");

    assert_eq!(first, second);
    assert!(first.contains("#pragma STDC FP_CONTRACT OFF"));
    assert!(first.contains("static void vtc_kernel("));
    println!("{first}");
}

#[test]
fn kernel_inputs_are_rendered_as_bits_in_order() {
    let kernel = lower(&add_relu_graph()).expect("graph lowers");
    let mut inputs = Bindings::new();
    inputs.insert("left".to_owned(), tensor(&[2, 3], &[-0.0, 1.0, 2.0, 0.5, -2.0, 3.0]));
    inputs.insert("right".to_owned(), tensor(&[2, 3], &[0.0; 6]));

    let text = input_bits(&kernel, &inputs).expect("inputs match");

    assert_eq!(
        text,
        "8000000000000000\n3ff0000000000000\n4000000000000000\n3fe0000000000000\n\
         c000000000000000\n4008000000000000\n0000000000000000\n0000000000000000\n\
         0000000000000000\n0000000000000000\n0000000000000000\n0000000000000000\n"
    );
}

#[test]
fn kernel_inputs_that_do_not_match_are_refused() {
    let kernel = lower(&add_relu_graph()).expect("graph lowers");
    let mut inputs = Bindings::new();
    let missing = input_bits(&kernel, &inputs).expect_err("left is missing");
    assert_eq!(missing.to_text(), "C run failed: missing input \"left\"");

    inputs.insert("left".to_owned(), tensor(&[3], &[1.0, 2.0, 3.0]));
    let mismatch = input_bits(&kernel, &inputs).expect_err("left has another shape");
    assert_eq!(
        mismatch.to_text(),
        "C run failed: input \"left\" shape mismatch: expected [2, 3], got [3]"
    );
}

#[test]
fn printed_outputs_read_back_to_the_bit() {
    let kernel = lower(&add_relu_graph()).expect("graph lowers");
    let stdout = "8000000000000000\n\n  3FF0000000000000\r\n+4000000000000000\n7ff8000000000001\n\
                  1\nffffffffffffffff";

    let outputs = parse_outputs(&kernel, stdout).expect("outputs parse");

    assert_eq!(outputs.len(), 1);
    assert_eq!(outputs[0].shape(), &shape(&[2, 3]));
    assert_eq!(
        outputs[0].data(),
        &[
            0x8000_0000_0000_0000,
            0x3ff0_0000_0000_0000,
            0x4000_0000_0000_0000,
            0x7ff8_0000_0000_0001,
            1,
            u64::MAX,
        ]
    );
}

#[test]
fn bad_output_text_is_refused() {
    let kernel = lower(&matmul_graph(1)).expect("graph lowers");
    let cases = [
        ("", "parse error: expected 1 output values, got 0"),
        ("1\n2\n", "parse error: expected 1 output values, got 2"),
        ("12g4", "parse error: invalid digit found in string"),
        ("+", "parse error: invalid digit found in string"),
        ("-1", "parse error: invalid digit found in string"),
        (
            "10000000000000000",
            "parse error: number too large to fit in target type",
        ),
    ];
    for (stdout, message) in cases {
        let error = parse_outputs(&kernel, stdout).expect_err("text is refused");
        assert!(matches!(error, BenchError::Parse(_)));
        assert_eq!(error.to_text(), message);
    }
}

#[test]
fn empty_outputs_are_refused() {
    let mut builder = GraphBuilder::new();
    let x = input_f64(&mut builder, "x", &[0]);
    let neg = builder.neg(x).expect("neg is valid");
    let kernel = lower(&finish(builder, neg)).expect("graph lowers");

    let error = parse_outputs(&kernel, "").expect_err("nothing can be printed");

    assert_eq!(
        error.to_text(),
        "C run failed: zero-sized buffers are not supported"
    );
}

#[test]
fn emitted_c_has_the_documented_text() {
    let mut builder = GraphBuilder::new();
    let x = input_f64(&mut builder, "x", &[2]);
    let c = builder
        .constant(
            TensorData::F64(vec![0.5_f64.to_bits(), (-3.0_f64).to_bits()]),
            shape(&[2]),
        )
        .expect("constant is valid");
    let add = builder.add(x, c).expect("add is valid");
    let relu = builder.relu(add).expect("relu is valid");
    let kernel = lower(&finish(builder, relu)).expect("graph lowers");

    assert_eq!(
        emit_c(&kernel).expect("C emission succeeds"),
        "#pragma STDC FP_CONTRACT OFF
#include <stdint.h>
#include <stdio.h>
#include <stdlib.h>
#include <string.h>

static void vtc_kernel(const double *b0, double *out0) {
  static const double b1[2] = {0x1.0000000000000p-1, -0x1.8000000000000p+1};
  double b2[2];
  double b3[2];
  for (long i0 = 0; i0 < 2; i0++) {
    b2[i0] = (b0[i0] + b1[i0]);
  }
  for (long i1 = 0; i1 < 2; i1++) {
    b3[i1] = ((b2[i1]) > 0.0 ? (b2[i1]) : 0.0);
  }
  for (long j = 0; j < 2; j++) {
    out0[j] = b3[j];
  }
}

int main(int argc, char **argv) {
  FILE *input = stdin;
  unsigned long reps = 1;
  if (argc > 1 && strcmp(argv[1], \"-\") != 0) {
    input = fopen(argv[1], \"r\");
    if (input == NULL) { return 2; }
  }
  if (argc > 2) { reps = strtoul(argv[2], NULL, 10); }
  if (reps == 0) { reps = 1; }
  double b0[2];
  for (long j = 0; j < 2; j++) {
    unsigned long long bits = 0;
    if (fscanf(input, \"%llx\", &bits) != 1) { return 3; }
    memcpy(&b0[j], &bits, sizeof(double));
  }
  double out0[2];
  for (unsigned long r = 0; r < reps; r++) {
    vtc_kernel(b0, out0);
  }
  for (long j = 0; j < 2; j++) {
    unsigned long long bits = 0;
    memcpy(&bits, &out0[j], sizeof(double));
    printf(\"%016llx\\n\", bits);
  }
  if (input != stdin) { fclose(input); }
  return 0;
}
"
    );
}

fn literal_kernel(value: ScalarExpr, shape: Shape) -> Kernel {
    let buffer = Buffer::new(BufferId::new(0), "tmp".to_owned(), shape, BufferRole::Temp);
    let target = BufferRef {
        buffer: BufferId::new(0),
        index: AffineExpr::new(vec![(LoopVar::new(0), -1), (LoopVar::new(1), 0)], -2),
    };
    let body = vec![Stmt::For {
        var: LoopVar::new(0),
        lo: AffineExpr::constant(0),
        hi: AffineExpr::new(vec![(LoopVar::new(1), 3)], 1),
        body: vec![Stmt::Assign { target, value }],
    }];
    Kernel::new(vec![buffer], body, Vec::new(), vec![BufferId::new(0)])
}

#[test]
fn literals_and_indices_are_rendered_exactly() {
    let kernel = literal_kernel(
        ScalarExpr::Neg(Box::new(ScalarExpr::ConstScalar(Rational::from_integer(-10)))),
        shape(&[1]),
    );
    let source = emit_c(&kernel).expect("C emission succeeds");
    assert!(source.contains("  for (long i0 = 0; i0 < 3*i1 + 1; i0++) {\n"));
    assert!(source.contains("    b0[-i0 + -2] = (--0x1.4000000000000p+3);\n"));
}

#[test]
fn kernels_that_c_cannot_express_are_refused() {
    let fraction = literal_kernel(
        ScalarExpr::ConstScalar(Rational::new(1, 2)),
        shape(&[1]),
    );
    assert_eq!(
        emit_c(&fraction).expect_err("no fractions").to_text(),
        "unsupported codegen construct: non-integer scalar literal cannot be emitted exactly yet"
    );
    let big = Rational::from_integer(i64::MAX).plus(&Rational::from_integer(1));
    let huge = literal_kernel(ScalarExpr::ConstScalar(big), shape(&[1]));
    assert_eq!(
        emit_c(&huge).expect_err("out of range").to_text(),
        "unsupported codegen construct: scalar literal is outside supported range"
    );
    let zero = || ScalarExpr::ConstScalar(Rational::from_integer(0));
    let empty = literal_kernel(zero(), shape(&[0]));
    assert_eq!(
        emit_c(&empty).expect_err("empty buffer").to_text(),
        "unsupported codegen construct: zero-sized buffers are not supported by C backend"
    );
    let large = literal_kernel(zero(), shape(&[usize::MAX, 2]));
    assert_eq!(
        emit_c(&large).expect_err("overflow").to_text(),
        "internal codegen error: shape element count overflow"
    );
    let constant = Buffer::new(
        BufferId::new(0),
        "c".to_owned(),
        shape(&[1]),
        BufferRole::Const(TensorData::F64(vec![f64::NAN.to_bits()])),
    );
    let nan = Kernel::new(vec![constant], Vec::new(), Vec::new(), vec![BufferId::new(0)]);
    assert_eq!(
        emit_c(&nan).expect_err("not finite").to_text(),
        "unsupported codegen construct: constant cannot be lifted: non-finite floating-point value"
    );
    let mismatch = Kernel::new_with_output_shapes(
        Vec::new(),
        Vec::new(),
        Vec::new(),
        vec![BufferId::new(0)],
        Vec::new(),
    );
    assert_eq!(
        emit_c(&mismatch).expect_err("no shape").to_text(),
        "internal codegen error: kernel output shape metadata length mismatch"
    );
    let missing = Kernel::new(Vec::new(), Vec::new(), vec![BufferId::new(4)], Vec::new());
    assert_eq!(
        emit_c(&missing).expect_err("no buffer").to_text(),
        "internal codegen error: missing input buffer %b4"
    );
}
