//! The declarations, copies and reads of an emitted program name the right arrays.
use vstd::prelude::*;

use crate::c_numbers::{c_number, lemma_join_front, lemma_read_double, lemma_read_name};
use crate::c_reader::{read_name, read_unary, CExpr};
use crate::c_tokens::{
    ends_number, lemma_assoc, lemma_not_begins, lemma_past, lemma_read_natural, past, read_natural,
};
use crate::data::DataView;
use crate::emit_c::{
    args_c, buffer_c, buffer_decl_c, copy_out_c, double_c, element_loop_c, out_c,
    out_decl_c, params_c, read_input_c, write_output_c,
};
use crate::float::{scale64, significand64, value64};
use crate::loop_ir::{BufferId, BufferView, KernelView, RoleView};
use crate::rational::two_to;
use crate::shape::numel;
use crate::tensor::doubles_of;
use crate::text::{decimal, join};

verus! {

/// A loop that copies elements: their number, the number of the output and the buffer.
pub open spec fn read_copy(s: Seq<char>) -> Option<((nat, nat, u32), Seq<char>)> {
    match past(s, "  for (long j = 0; j < "@) {
        None => None,
        Some(s) => match read_natural(s) {
            None => None,
            Some((count, s)) => match past(s, "; j++) {\n"@) {
                None => None,
                Some(s) => match past(s, "    "@) {
                    None => None,
                    Some(s) => match past(s, "out"@) {
                        None => None,
                        Some(s) => match read_natural(s) {
                            None => None,
                            Some((out, s)) => match read_source(s) {
                                None => None,
                                Some((buffer, s)) => Some(((count, out, buffer), s)),
                            },
                        },
                    },
                },
            },
        },
    }
}

/// The right side of a copy, and the end of its loop.
pub open spec fn read_source(s: Seq<char>) -> Option<(u32, Seq<char>)> {
    match past(s, "[j] = "@) {
        None => None,
        Some(s) => match read_name(s, 'b') {
            None => None,
            Some((buffer, s)) => match past(s, "[j];\n  }\n"@) {
                None => None,
                Some(s) => Some((buffer, s)),
            },
        },
    }
}

proof fn lemma_read_source(k: KernelView, i: int, rest: Seq<char>)
    ensures
        read_source("[j] = "@ + (buffer_c(k.outputs[i]) + ("[j];\n  }\n"@ + rest))) == Some(
            (k.outputs[i].0, rest),
        ),
{
    let end = "[j];\n  }\n"@ + rest;
    lemma_past("[j] = "@, buffer_c(k.outputs[i]) + end);
    assert(ends_number(end, 10) && "b"@.len() == 1 && "b"@[0] == 'b') by {
        reveal_strlit("[j];\n  }\n");
        reveal_strlit("b");
        assert(end[0] == '[');
    }
    lemma_read_name("b"@, k.outputs[i].0, end);
    lemma_past("[j];\n  }\n"@, rest);
}

/// The copy of an output, read as C, copies as many elements as the output's shape holds, from the
/// buffer that the kernel lists for it.
#[verifier::rlimit(60)]
#[verifier::spinoff_prover]
pub proof fn emitted_copies_take_the_listed_buffers(k: KernelView, i: int, rest: Seq<char>)
    requires
        0 <= i < k.outputs.len(),
        copy_out_c(k, i) is Ok,
    ensures
        read_copy(copy_out_c(k, i)->Ok_0 + rest) == Some(
            ((numel(k.output_shapes[i]), i as nat, k.outputs[i].0), rest),
        ),
{
    let n = numel(k.output_shapes[i]);
    crate::shape::lemma_numel_fits_prefix(k.output_shapes[i], 0);
    let s6 = "[j];\n  }\n"@ + rest;
    let s5 = "[j] = "@ + (buffer_c(k.outputs[i]) + s6);
    let s4 = decimal(i as nat) + s5;
    let s3 = "out"@ + s4;
    let s2 = "    "@ + s3;
    let s1 = "; j++) {\n"@ + s2;
    let s0 = decimal(n) + s1;
    lemma_read_source(k, i, rest);
    assert(ends_number(s5, 10)) by {
        reveal_strlit("[j] = ");
        assert(s5[0] == '[');
    }
    assert(ends_number(s1, 10)) by {
        reveal_strlit("; j++) {\n");
        assert(s1[0] == ';');
    }
    lemma_read_natural(i as nat, s5);
    lemma_past("out"@, s4);
    lemma_past("    "@, s3);
    lemma_past("; j++) {\n"@, s2);
    lemma_read_natural(n, s1);
    lemma_past("  for (long j = 0; j < "@, s0);
    let a1 = element_loop_c(n);
    let a2 = a1 + "    "@;
    let a3 = a2 + out_c(i as nat);
    let a4 = a3 + "[j] = "@;
    let a5 = a4 + buffer_c(k.outputs[i]);
    lemma_assoc(a5, "[j];\n  }\n"@, rest);
    lemma_assoc(a4, buffer_c(k.outputs[i]), s6);
    lemma_assoc(a3, "[j] = "@, buffer_c(k.outputs[i]) + s6);
    lemma_assoc(a2, out_c(i as nat), s5);
    lemma_assoc("out"@, decimal(i as nat), s5);
    lemma_assoc(a1, "    "@, s3);
    lemma_assoc("  for (long j = 0; j < "@ + decimal(n), "; j++) {\n"@, s2);
    lemma_assoc("  for (long j = 0; j < "@, decimal(n), s1);
}

/// Expressions with commas between them.
pub open spec fn read_list(s: Seq<char>) -> Option<(Seq<CExpr>, Seq<char>)>
    decreases s.len(),
{
    match read_unary(s) {
        None => None,
        Some((e, rest)) => match past(rest, ", "@) {
            None => Some((seq![e], rest)),
            Some(next) => if next.len() < s.len() {
                match read_list(next) {
                    None => None,
                    Some((more, rest)) => Some((seq![e] + more, rest)),
                }
            } else {
                None
            },
        },
    }
}

/// The declaration of a constant array: its buffer, its length and its elements.
pub open spec fn read_constants(s: Seq<char>) -> Option<((u32, nat, Seq<CExpr>), Seq<char>)> {
    match past(s, "  static const double "@) {
        None => None,
        Some(s) => match read_name(s, 'b') {
            None => None,
            Some((buffer, s)) => match past(s, "["@) {
                None => None,
                Some(s) => match read_natural(s) {
                    None => None,
                    Some((count, s)) => match past(s, "] = {"@) {
                        None => None,
                        Some(s) => match read_list(s) {
                            None => None,
                            Some((elements, s)) => match past(s, "};\n"@) {
                                None => None,
                                Some(s) => Some(((buffer, count, elements), s)),
                            },
                        },
                    },
                },
            },
        },
    }
}

/// The number of a constant expression: a constant, or a minus sign and a constant.
pub open spec fn constant_number(e: CExpr) -> Option<real> {
    match e {
        CExpr::Number(x) => Some(x),
        CExpr::Negative(inner) => match *inner {
            CExpr::Number(x) => Some(-x),
            _ => None,
        },
        _ => None,
    }
}

proof fn lemma_list_step(bits: u64, next: Seq<char>, more: Seq<CExpr>, rest: Seq<char>)
    requires
        read_list(next) == Some((more, rest)),
    ensures
        read_list(double_c(bits) + (", "@ + next)) == Some((seq![c_number(bits)] + more, rest)),
{
    let tail = ", "@ + next;
    assert(ends_number(tail, 10) && ", "@.len() == 2) by {
        reveal_strlit(", ");
        assert(tail[0] == ',');
    }
    lemma_read_double(bits, tail);
    lemma_past(", "@, next);
}

proof fn lemma_list_end(bits: u64, rest: Seq<char>)
    requires
        rest.len() > 0,
        rest[0] == '}',
    ensures
        read_list(double_c(bits) + rest) == Some((seq![c_number(bits)], rest)),
{
    reveal_strlit(", ");
    lemma_read_double(bits, rest);
    lemma_not_begins(rest, ", "@, 0);
}

/// The texts of doubles.
spec fn texts(values: Seq<u64>) -> Seq<Seq<char>> {
    values.map_values(|bits: u64| double_c(bits))
}

proof fn lemma_read_list(values: Seq<u64>, rest: Seq<char>)
    requires
        values.len() > 0,
        rest.len() > 0,
        rest[0] == '}',
    ensures
        read_list(join(texts(values), ", "@) + rest) == Some(
            (values.map_values(|bits: u64| c_number(bits)), rest),
        ),
    decreases values.len(),
{
    let f = |bits: u64| c_number(bits);
    let parts = texts(values);
    if values.len() == 1 {
        lemma_list_end(values[0], rest);
        assert(values.map_values(f) =~= seq![c_number(values[0])]);
    } else {
        let tail = values.skip(1);
        lemma_read_list(tail, rest);
        lemma_join_front(parts, ", "@);
        assert(parts.skip(1) =~= texts(tail));
        let next = join(texts(tail), ", "@) + rest;
        lemma_list_step(values[0], next, tail.map_values(f), rest);
        lemma_assoc(parts[0] + ", "@, join(texts(tail), ", "@), rest);
        lemma_assoc(parts[0], ", "@, next);
        assert(values.map_values(f) =~= seq![c_number(values[0])] + tail.map_values(f));
    }
}

proof fn lemma_constant_number(bits: u64)
    ensures
        constant_number(c_number(bits)) == Some(value64(bits)),
{
    let m = significand64(bits);
    let t = two_to(scale64(bits));
    assert((-m) as real == -(m as real));
    assert(-(m as real) * t == -(m as real * t)) by (nonlinear_arith);
}

/// The declaration of a constant buffer, read as C, declares an array of that buffer's name with as
/// many elements as its shape holds, which are the numbers of the payload's doubles in order.
#[verifier::rlimit(60)]
#[verifier::spinoff_prover]
pub proof fn emitted_constants_hold_the_payload(b: BufferView, data: DataView, rest: Seq<char>, i: int)
    requires
        b.role == RoleView::Const(data),
        buffer_decl_c(b) is Ok,
        0 <= i < numel(b.shape),
    ensures
        read_constants(buffer_decl_c(b)->Ok_0 + rest) is Some,
        ({
            let ((buffer, count, elements), left) = read_constants(
                buffer_decl_c(b)->Ok_0 + rest,
            )->Some_0;
            &&& buffer == b.id.0
            &&& count == numel(b.shape)
            &&& elements.len() == numel(b.shape)
            &&& constant_number(elements[i]) == Some(value64(doubles_of(data)[i]))
            &&& left == rest
        }),
{
    crate::shape::lemma_numel_fits_prefix(b.shape, 0);
    let n = numel(b.shape);
    let values = doubles_of(data);
    let list = join(texts(values), ", "@);
    assert(values.map_values(|bits: u64| double_c(bits)) =~= texts(values));
    let s4 = "};\n"@ + rest;
    let s3 = list + s4;
    let s2 = "] = {"@ + s3;
    let s1 = decimal(n) + s2;
    let s0 = "["@ + s1;
    let name = buffer_c(b.id) + s0;
    assert(s4.len() > 0 && s4[0] == '}') by {
        reveal_strlit("};\n");
    }
    lemma_read_list(values, s4);
    lemma_past("};\n"@, rest);
    lemma_past("] = {"@, s3);
    assert(ends_number(s2, 10)) by {
        reveal_strlit("] = {");
        assert(s2[0] == ']');
    }
    lemma_read_natural(n, s2);
    lemma_past("["@, s1);
    assert(ends_number(s0, 10) && "b"@.len() == 1 && "b"@[0] == 'b') by {
        reveal_strlit("[");
        reveal_strlit("b");
        assert(s0[0] == '[');
    }
    lemma_read_name("b"@, b.id.0, s0);
    lemma_past("  static const double "@, name);
    let a0 = "  static const double "@;
    let a1 = a0 + buffer_c(b.id);
    let a2 = a1 + "["@;
    let a3 = a2 + decimal(n);
    let a4 = a3 + "] = {"@;
    let a5 = a4 + list;
    lemma_assoc(a5, "};\n"@, rest);
    lemma_assoc(a4, list, s4);
    lemma_assoc(a3, "] = {"@, s3);
    lemma_assoc(a2, decimal(n), s2);
    lemma_assoc(a1, "["@, s1);
    lemma_assoc(a0, buffer_c(b.id), s0);
    lemma_constant_number(values[i]);
    assert(buffer_decl_c(b)->Ok_0 + rest == a0 + name);
}

/// The declaration of an array: its length.
pub open spec fn read_length(s: Seq<char>) -> Option<(nat, Seq<char>)> {
    match past(s, "["@) {
        None => None,
        Some(s) => match read_natural(s) {
            None => None,
            Some((count, s)) => match past(s, "];\n"@) {
                None => None,
                Some(s) => Some((count, s)),
            },
        },
    }
}

proof fn lemma_read_length(n: nat, rest: Seq<char>)
    ensures
        read_length("["@ + (decimal(n) + ("];\n"@ + rest))) == Some((n, rest)),
        ends_number("["@ + (decimal(n) + ("];\n"@ + rest)), 10),
{
    let end = "];\n"@ + rest;
    assert(ends_number(end, 10)) by {
        reveal_strlit("];\n");
        assert(end[0] == ']');
    }
    lemma_past("["@, decimal(n) + end);
    lemma_read_natural(n, end);
    lemma_past("];\n"@, rest);
    reveal_strlit("[");
    assert(("["@ + (decimal(n) + end))[0] == '[');
}

/// The part of the main function that fills an input array: its buffer, its length, the number of
/// elements that are read, and the buffer that they are read into.
pub open spec fn read_filling(s: Seq<char>) -> Option<((u32, nat, nat, u32), Seq<char>)> {
    match past(s, "  double "@) {
        None => None,
        Some(s) => match read_name(s, 'b') {
            None => None,
            Some((declared, s)) => match read_length(s) {
                None => None,
                Some((length, s)) => match past(s, "  for (long j = 0; j < "@) {
                    None => None,
                    Some(s) => match read_natural(s) {
                        None => None,
                        Some((count, s)) => match read_target(s) {
                            None => None,
                            Some((filled, s)) => Some(((declared, length, count, filled), s)),
                        },
                    },
                },
            },
        },
    }
}

/// The body of the loop that reads bits: which buffer takes them.
pub open spec fn read_target(s: Seq<char>) -> Option<(u32, Seq<char>)> {
    match past(s, "; j++) {\n"@) {
        None => None,
        Some(s) => match past(
            s,
            "    unsigned long long bits = 0;\n    if (fscanf(input, \"%llx\", &bits) != 1) { return 3; }\n    memcpy(&"@,
        ) {
            None => None,
            Some(s) => match read_name(s, 'b') {
                None => None,
                Some((filled, s)) => match past(s, "[j], &bits, sizeof(double));\n  }\n"@) {
                    None => None,
                    Some(s) => Some((filled, s)),
                },
            },
        },
    }
}

proof fn lemma_read_target(id: BufferId, rest: Seq<char>)
    ensures
        read_target(
            "; j++) {\n"@ + (
            "    unsigned long long bits = 0;\n    if (fscanf(input, \"%llx\", &bits) != 1) { return 3; }\n    memcpy(&"@
                + (buffer_c(id) + ("[j], &bits, sizeof(double));\n  }\n"@ + rest))),
        ) == Some((id.0, rest)),
{
    let s2 = "[j], &bits, sizeof(double));\n  }\n"@ + rest;
    let s1 = buffer_c(id) + s2;
    let copy = "    unsigned long long bits = 0;\n    if (fscanf(input, \"%llx\", &bits) != 1) { return 3; }\n    memcpy(&"@;
    lemma_past("; j++) {\n"@, copy + s1);
    lemma_past(copy, s1);
    assert(ends_number(s2, 10) && "b"@.len() == 1 && "b"@[0] == 'b') by {
        reveal_strlit("[j], &bits, sizeof(double));\n  }\n");
        reveal_strlit("b");
        assert(s2[0] == '[');
    }
    lemma_read_name("b"@, id.0, s2);
    lemma_past("[j], &bits, sizeof(double));\n  }\n"@, rest);
}

/// The main function, read as C, declares each input array with as many elements as the buffer's
/// shape holds, and reads that many into it.
#[verifier::rlimit(60)]
#[verifier::spinoff_prover]
pub proof fn emitted_inputs_are_filled(k: KernelView, id: BufferId, rest: Seq<char>)
    requires
        read_input_c(k, id) is Ok,
    ensures
        id.0 < k.buffers.len(),
        ({
            let n = numel(k.buffers[id.0 as int].shape);
            read_filling(read_input_c(k, id)->Ok_0 + rest) == Some(((id.0, n, n, id.0), rest))
        }),
{
    let shape = k.buffers[id.0 as int].shape;
    crate::shape::lemma_numel_fits_prefix(shape, 0);
    let n = numel(shape);
    let name = buffer_c(id);
    let copy = "    unsigned long long bits = 0;\n    if (fscanf(input, \"%llx\", &bits) != 1) { return 3; }\n    memcpy(&"@;
    let last = "[j], &bits, sizeof(double));\n  }\n"@;
    let s7 = last + rest;
    let s6 = name + s7;
    let s5 = copy + s6;
    let s4 = "; j++) {\n"@ + s5;
    let s3 = decimal(n) + s4;
    let s2 = "  for (long j = 0; j < "@ + s3;
    let s1 = "["@ + (decimal(n) + ("];\n"@ + s2));
    let s0 = name + s1;
    lemma_read_target(id, rest);
    assert(ends_number(s4, 10) && "b"@.len() == 1 && "b"@[0] == 'b') by {
        reveal_strlit("; j++) {\n");
        reveal_strlit("b");
        assert(s4[0] == ';');
    }
    lemma_read_natural(n, s4);
    lemma_past("  for (long j = 0; j < "@, s3);
    lemma_read_length(n, s2);
    lemma_read_name("b"@, id.0, s1);
    lemma_past("  double "@, s0);
    let a0 = "  double "@;
    let a1 = a0 + name;
    let a2 = a1 + "["@;
    let a3 = a2 + decimal(n);
    let a4 = a3 + "];\n"@;
    let a5 = a4 + element_loop_c(n);
    let a6 = a5 + copy;
    let a7 = a6 + name;
    lemma_assoc(a7, last, rest);
    lemma_assoc(a6, name, s7);
    lemma_assoc(a5, copy, s6);
    lemma_assoc(a4, element_loop_c(n), s5);
    lemma_assoc("  for (long j = 0; j < "@ + decimal(n), "; j++) {\n"@, s5);
    lemma_assoc("  for (long j = 0; j < "@, decimal(n), s4);
    lemma_assoc(a3, "];\n"@, s2);
    lemma_assoc(a2, decimal(n), "];\n"@ + s2);
    lemma_assoc(a1, "["@, decimal(n) + ("];\n"@ + s2));
    lemma_assoc(a0, name, s1);
}

/// The call of the kernel function hands over, in order, the arrays that its parameters are named
/// after: first the inputs, which are constant, then the outputs.
pub proof fn arguments_match_parameters(k: KernelView, i: int)
    requires
        0 <= i < k.inputs.len() + k.outputs.len(),
    ensures
        params_c(k).len() == k.inputs.len() + k.outputs.len(),
        args_c(k).len() == params_c(k).len(),
        i < k.inputs.len() ==> args_c(k)[i] == buffer_c(k.inputs[i]) && params_c(k)[i]
            == "const double *"@ + args_c(k)[i],
        i >= k.inputs.len() ==> args_c(k)[i] == out_c((i - k.inputs.len()) as nat) && params_c(
            k,
        )[i] == "double *"@ + args_c(k)[i],
{
}

/// A loop that prints the bits of an output: the number of elements and the number of the output.
pub open spec fn read_printing(s: Seq<char>) -> Option<((nat, nat), Seq<char>)> {
    match past(s, "  for (long j = 0; j < "@) {
        None => None,
        Some(s) => match read_natural(s) {
            None => None,
            Some((count, s)) => match past(s, "; j++) {\n"@) {
                None => None,
                Some(s) => match past(
                    s,
                    "    unsigned long long bits = 0;\n    memcpy(&bits, &"@,
                ) {
                    None => None,
                    Some(s) => match past(s, "out"@) {
                        None => None,
                        Some(s) => match read_natural(s) {
                            None => None,
                            Some((out, s)) => match past(
                                s,
                                "[j], sizeof(double));\n    printf(\"%016llx\\n\", bits);\n  }\n"@,
                            ) {
                                None => None,
                                Some(s) => Some(((count, out), s)),
                            },
                        },
                    },
                },
            },
        },
    }
}

/// The main function, read as C, prints as many elements of each output as its shape holds.
#[verifier::rlimit(60)]
#[verifier::spinoff_prover]
pub proof fn emitted_outputs_are_printed(k: KernelView, i: int, rest: Seq<char>)
    requires
        0 <= i < k.output_shapes.len(),
        write_output_c(k, i) is Ok,
    ensures
        read_printing(write_output_c(k, i)->Ok_0 + rest) == Some(
            ((numel(k.output_shapes[i]), i as nat), rest),
        ),
{
    crate::shape::lemma_numel_fits_prefix(k.output_shapes[i], 0);
    let n = numel(k.output_shapes[i]);
    let copy = "    unsigned long long bits = 0;\n    memcpy(&bits, &"@;
    let last = "[j], sizeof(double));\n    printf(\"%016llx\\n\", bits);\n  }\n"@;
    let s5 = last + rest;
    let s4 = decimal(i as nat) + s5;
    let s3 = "out"@ + s4;
    let s2 = copy + s3;
    let s1 = "; j++) {\n"@ + s2;
    let s0 = decimal(n) + s1;
    assert(ends_number(s5, 10)) by {
        reveal_strlit("[j], sizeof(double));\n    printf(\"%016llx\\n\", bits);\n  }\n");
        assert(s5[0] == '[');
    }
    assert(ends_number(s1, 10)) by {
        reveal_strlit("; j++) {\n");
        assert(s1[0] == ';');
    }
    lemma_past(last, rest);
    lemma_read_natural(i as nat, s5);
    lemma_past("out"@, s4);
    lemma_past(copy, s3);
    lemma_past("; j++) {\n"@, s2);
    lemma_read_natural(n, s1);
    lemma_past("  for (long j = 0; j < "@, s0);
    let a1 = element_loop_c(n) + copy;
    let a2 = a1 + out_c(i as nat);
    lemma_assoc(a2, last, rest);
    lemma_assoc(a1, out_c(i as nat), s5);
    lemma_assoc("out"@, decimal(i as nat), s5);
    lemma_assoc(element_loop_c(n), copy, s3);
    lemma_assoc("  for (long j = 0; j < "@ + decimal(n), "; j++) {\n"@, s2);
    lemma_assoc("  for (long j = 0; j < "@, decimal(n), s1);
}

/// The declaration of an output array: its number and its length.
pub open spec fn read_output_array(s: Seq<char>) -> Option<((nat, nat), Seq<char>)> {
    match past(s, "  double "@) {
        None => None,
        Some(s) => match past(s, "out"@) {
            None => None,
            Some(s) => match read_natural(s) {
                None => None,
                Some((out, s)) => match read_length(s) {
                    None => None,
                    Some((count, s)) => Some(((out, count), s)),
                },
            },
        },
    }
}

/// The main function, read as C, declares each output array with as many elements as its shape
/// holds.
#[verifier::rlimit(60)]
#[verifier::spinoff_prover]
pub proof fn emitted_output_arrays_have_room(k: KernelView, i: int, rest: Seq<char>)
    requires
        0 <= i < k.output_shapes.len(),
        out_decl_c(k, i) is Ok,
    ensures
        read_output_array(out_decl_c(k, i)->Ok_0 + rest) == Some(
            ((i as nat, numel(k.output_shapes[i])), rest),
        ),
{
    crate::shape::lemma_numel_fits_prefix(k.output_shapes[i], 0);
    let n = numel(k.output_shapes[i]);
    let s2 = "["@ + (decimal(n) + ("];\n"@ + rest));
    let s1 = decimal(i as nat) + s2;
    let s0 = "out"@ + s1;
    lemma_read_length(n, rest);
    lemma_read_natural(i as nat, s2);
    lemma_past("out"@, s1);
    lemma_past("  double "@, s0);
    let a0 = "  double "@;
    let a1 = a0 + out_c(i as nat);
    let a2 = a1 + "["@;
    let a3 = a2 + decimal(n);
    lemma_assoc(a3, "];\n"@, rest);
    lemma_assoc(a2, decimal(n), "];\n"@ + rest);
    lemma_assoc(a1, "["@, decimal(n) + ("];\n"@ + rest));
    lemma_assoc(a0, out_c(i as nat), s2);
    lemma_assoc("out"@, decimal(i as nat), s2);
}

} // verus!
