//! The bit-pattern exchange with compiled kernels.
use vstd::prelude::*;

use crate::bindings::Bindings;
use crate::bits_text::{parse_bits, read_bits};
use crate::emit_c::flat;

use crate::loop_ir::{BufferId, BufferRole, Kernel, KernelView, RoleView};
use crate::seqs::{collect, lemma_collect_error, lemma_collect_ok, lemma_collect_step};
use crate::shape::{checked_numel, shape_text};
use crate::tensor::{bit_views, DenseTensor, TensorF64, TensorView};
use crate::text::{decimal, hex_digits, hex_text, index_text, quoted, quoted_text};

verus! {

/// Errors of compiling and running kernels.
#[derive(Debug)]
pub enum BenchError {
    /// No C compiler was found.
    NoCompiler,
    /// Compilation failed.
    CompileFailed(String),
    /// A run failed.
    RunFailed(String),
    /// Input or output failed.
    Io(String),
    /// The output could not be read back.
    Parse(String),
}

/// The contents of a [`BenchError`].
pub enum BenchErrorView {
    NoCompiler,
    CompileFailed(Seq<char>),
    RunFailed(Seq<char>),
    Io(Seq<char>),
    Parse(Seq<char>),
}

impl View for BenchError {
    type V = BenchErrorView;

    open spec fn view(&self) -> BenchErrorView {
        match *self {
            BenchError::NoCompiler => BenchErrorView::NoCompiler,
            BenchError::CompileFailed(m) => BenchErrorView::CompileFailed(m@),
            BenchError::RunFailed(m) => BenchErrorView::RunFailed(m@),
            BenchError::Io(m) => BenchErrorView::Io(m@),
            BenchError::Parse(m) => BenchErrorView::Parse(m@),
        }
    }
}

impl BenchErrorView {
    /// The message of this error.
    pub open spec fn text(self) -> Seq<char> {
        match self {
            BenchErrorView::NoCompiler => "no C compiler found"@,
            BenchErrorView::CompileFailed(m) => "C compilation failed: "@ + m,
            BenchErrorView::RunFailed(m) => "C run failed: "@ + m,
            BenchErrorView::Io(m) => m,
            BenchErrorView::Parse(m) => "parse error: "@ + m,
        }
    }
}

impl BenchError {
    /// Renders the message of this error.
    pub fn to_text(&self) -> (r: String)
        ensures
            r@ == self@.text(),
    {
        match self {
            BenchError::NoCompiler => String::from_str("no C compiler found"),
            BenchError::CompileFailed(m) => String::from_str("C compilation failed: ").concat(
                m.as_str(),
            ),
            BenchError::RunFailed(m) => String::from_str("C run failed: ").concat(m.as_str()),
            BenchError::Io(m) => m.clone(),
            BenchError::Parse(m) => String::from_str("parse error: ").concat(m.as_str()),
        }
    }
}

/// The line of a bit pattern: sixteen hexadecimal digits.
pub open spec fn bits_line(bits: u64) -> Seq<char> {
    hex_digits(bits as nat, 16) + "\n"@
}

/// The lines of bit patterns.
pub open spec fn bits_text(values: Seq<u64>) -> Seq<char>
    decreases values.len(),
{
    if values.len() == 0 {
        Seq::empty()
    } else {
        bits_text(values.drop_last()) + bits_line(values.last())
    }
}

/// The data of one kernel input, or why it has none.
pub open spec fn input_data(
    k: KernelView,
    id: BufferId,
    inputs: Map<Seq<char>, TensorView<u64>>,
) -> Result<Seq<u64>, BenchErrorView> {
    if id.0 >= k.buffers.len() {
        Err(BenchErrorView::RunFailed("missing input buffer "@ + id.text()))
    } else {
        let b = k.buffers[id.0 as int];
        match b.role {
            RoleView::Input(name) => if !inputs.dom().contains(name) {
                Err(BenchErrorView::RunFailed("missing input "@ + quoted_text(name)))
            } else if inputs[name].shape != b.shape {
                Err(
                    BenchErrorView::RunFailed(
                        "input "@ + quoted_text(name) + " shape mismatch: expected "@ + shape_text(
                            b.shape,
                        ) + ", got "@ + shape_text(inputs[name].shape),
                    ),
                )
            } else {
                Ok(inputs[name].data)
            },
            _ => Err(
                BenchErrorView::RunFailed("buffer "@ + id.text() + " is not an input"@),
            ),
        }
    }
}

/// The text that a compiled kernel reads: the bits of its inputs in order.
pub open spec fn kernel_stdin(k: KernelView, inputs: Map<Seq<char>, TensorView<u64>>) -> Result<
    Seq<char>,
    BenchErrorView,
> {
    match collect(k.inputs.map_values(|id: BufferId| input_data(k, id, inputs))) {
        Err(e) => Err(e),
        Ok(data) => Ok(flat(data.map_values(|values: Seq<u64>| bits_text(values)))),
    }
}

/// The tensors bound to names.
pub open spec fn bound_bits(inputs: Bindings<TensorF64>) -> Map<Seq<char>, TensorView<u64>> {
    Map::new(
        |name: Seq<char>| inputs.lookup(name) is Some,
        |name: Seq<char>| inputs.lookup(name)->Some_0@,
    )
}

/// Finds the data of one kernel input.
fn find_input<'a>(k: &Kernel, id: BufferId, inputs: &'a Bindings<TensorF64>) -> (r: Result<
    &'a Vec<u64>,
    BenchError,
>)
    ensures
        match r {
            Ok(data) => input_data(k@, id, bound_bits(*inputs)) == Ok::<Seq<u64>, BenchErrorView>(
                data@,
            ),
            Err(e) => input_data(k@, id, bound_bits(*inputs)) == Err::<Seq<u64>, BenchErrorView>(
                e@,
            ),
        },
{
    let buffer = match k.buffer(id) {
        Some(buffer) => buffer,
        None => {
            return Err(
                BenchError::RunFailed(
                    String::from_str("missing input buffer ").concat(id.to_text().as_str()),
                ),
            );
        }
    };
    match &buffer.role {
        BufferRole::Input(name) => match inputs.get(name.as_str()) {
            None => Err(
                BenchError::RunFailed(
                    String::from_str("missing input ").concat(quoted(name.as_str()).as_str()),
                ),
            ),
            Some(tensor) => {
                if !tensor.shape.same(&buffer.shape) {
                    return Err(
                        BenchError::RunFailed(
                            String::from_str("input ")
                                .concat(quoted(name.as_str()).as_str())
                                .concat(" shape mismatch: expected ")
                                .concat(buffer.shape.to_text().as_str())
                                .concat(", got ")
                                .concat(tensor.shape.to_text().as_str()),
                        ),
                    );
                }
                Ok(&tensor.data)
            }
        },
        _ => Err(
            BenchError::RunFailed(
                String::from_str("buffer ").concat(id.to_text().as_str()).concat(
                    " is not an input",
                ),
            ),
        ),
    }
}

fn values_text(values: &Vec<u64>) -> (r: String)
    ensures
        r@ == bits_text(values@),
{
    let mut out = String::new();
    proof {
        assert(values@.take(0) =~= Seq::empty());
    }
    let mut i: usize = 0;
    while i < values.len()
        invariant
            i <= values@.len(),
            out@ == bits_text(values@.take(i as int)),
        decreases values@.len() - i,
    {
        proof {
            assert(values@.take(i as int + 1).drop_last() =~= values@.take(i as int));
            assert(values@.take(i as int + 1).last() == values@[i as int]);
        }
        let line = hex_text(values[i], 16).concat("\n");
        out.append(line.as_str());
        i += 1;
    }
    proof {
        assert(values@.take(i as int) =~= values@);
    }
    out
}

/// Renders the bits of the inputs of a kernel, one per line.
///
/// # Errors
///
/// Returns [`BenchError::RunFailed`] for a missing or mismatched input.
pub fn input_bits(kernel: &Kernel, inputs: &Bindings<TensorF64>) -> (r: Result<String, BenchError>)
    ensures
        match r {
            Ok(t) => kernel_stdin(kernel@, bound_bits(*inputs)) == Ok::<
                Seq<char>,
                BenchErrorView,
            >(t@),
            Err(e) => kernel_stdin(kernel@, bound_bits(*inputs)) == Err::<
                Seq<char>,
                BenchErrorView,
            >(e@),
        },
{
    let ghost given = bound_bits(*inputs);
    let ghost results = kernel@.inputs.map_values(|id: BufferId| input_data(kernel@, id, given));
    let ghost mut data: Seq<Seq<u64>> = Seq::empty();
    let ghost f = |values: Seq<u64>| bits_text(values);
    let mut out = String::new();
    proof {
        assert(results.take(0) =~= Seq::empty());
        assert(data.map_values(f) =~= Seq::empty());
    }
    let mut i: usize = 0;
    while i < kernel.inputs.len()
        invariant
            i <= kernel@.inputs.len(),
            given == bound_bits(*inputs),
            results == kernel@.inputs.map_values(|id: BufferId| input_data(kernel@, id, given)),
            f == (|values: Seq<u64>| bits_text(values)),
            collect(results.take(i as int)) == Ok::<Seq<Seq<u64>>, BenchErrorView>(data),
            out@ == flat(data.map_values(f)),
        decreases kernel@.inputs.len() - i,
    {
        proof {
            lemma_collect_step(results, i as int);
        }
        match find_input(kernel, kernel.inputs[i], inputs) {
            Ok(values) => {
                out.append(values_text(values).as_str());
                proof {
                    let texts = data.map_values(f);
                    let grown = data.push(values@).map_values(f);
                    assert(grown.drop_last() =~= texts);
                    assert(grown.last() == bits_text(values@));
                    data = data.push(values@);
                }
            }
            Err(e) => {
                proof {
                    lemma_collect_error(results, i as int + 1);
                }
                return Err(e);
            }
        }
        i += 1;
    }
    proof {
        assert(results.take(i as int) =~= results);
    }
    Ok(out)
}

/// The number of values of an output, which is not zero.
pub open spec fn output_count(shape: Seq<nat>) -> Result<nat, BenchErrorView> {
    match checked_numel(shape) {
        Err(_) => Err(BenchErrorView::RunFailed("shape numel overflow"@)),
        Ok(n) => if n == 0 {
            Err(BenchErrorView::RunFailed("zero-sized buffers are not supported"@))
        } else {
            Ok(n as nat)
        },
    }
}

/// The number of values of each output.
pub open spec fn output_counts(k: KernelView) -> Result<Seq<nat>, BenchErrorView> {
    collect(k.output_shapes.map_values(|shape: Seq<nat>| output_count(shape)))
}

/// The sum of counts.
pub open spec fn total(counts: Seq<nat>) -> nat
    decreases counts.len(),
{
    if counts.len() == 0 {
        0
    } else {
        total(counts.drop_last()) + counts.last()
    }
}

/// The output tensors cut from all values in order.
pub open spec fn cut(k: KernelView, counts: Seq<nat>, values: Seq<u64>) -> Seq<TensorView<u64>> {
    Seq::new(
        counts.len(),
        |i: int|
            TensorView {
                shape: k.output_shapes[i],
                data: values.subrange(
                    total(counts.take(i)) as int,
                    total(counts.take(i + 1)) as int,
                ),
            },
    )
}

/// The outputs that a compiled kernel printed.
pub open spec fn printed_outputs(k: KernelView, stdout: Seq<char>) -> Result<
    Seq<TensorView<u64>>,
    BenchErrorView,
> {
    match output_counts(k) {
        Err(e) => Err(e),
        Ok(counts) => if total(counts) > usize::MAX {
            Err(BenchErrorView::RunFailed("shape numel overflow"@))
        } else {
            match parse_bits(stdout) {
                Err(m) => Err(BenchErrorView::Parse(m)),
                Ok(values) => if values.len() != total(counts) {
                    Err(
                        BenchErrorView::Parse(
                            "expected "@ + decimal(total(counts)) + " output values, got "@
                                + decimal(values.len()),
                        ),
                    )
                } else {
                    Ok(cut(k, counts, values))
                },
            }
        },
    }
}

/// Counts the values of each output.
fn count_outputs(k: &Kernel) -> (r: Result<Vec<usize>, BenchError>)
    ensures
        match r {
            Ok(counts) => output_counts(k@) == Ok::<Seq<nat>, BenchErrorView>(
                counts@.map_values(|n: usize| n as nat),
            ),
            Err(e) => output_counts(k@) == Err::<Seq<nat>, BenchErrorView>(e@),
        },
{
    let ghost results = k@.output_shapes.map_values(|shape: Seq<nat>| output_count(shape));
    let ghost f = |n: usize| n as nat;
    let mut counts: Vec<usize> = Vec::new();
    proof {
        assert(results.take(0) =~= Seq::empty());
        assert(counts@.map_values(f) =~= Seq::empty());
    }
    let mut i: usize = 0;
    while i < k.output_shapes.len()
        invariant
            i <= k@.output_shapes.len(),
            results == k@.output_shapes.map_values(|shape: Seq<nat>| output_count(shape)),
            f == (|n: usize| n as nat),
            collect(results.take(i as int)) == Ok::<Seq<nat>, BenchErrorView>(
                counts@.map_values(f),
            ),
        decreases k@.output_shapes.len() - i,
    {
        proof {
            lemma_collect_step(results, i as int);
            assert(results[i as int] == output_count(k.output_shapes[i as int]@));
        }
        match k.output_shapes[i].numel() {
            Err(_) => {
                proof {
                    lemma_collect_error(results, i as int + 1);
                }
                return Err(BenchError::RunFailed(String::from_str("shape numel overflow")));
            }
            Ok(n) => {
                if n == 0 {
                    proof {
                        lemma_collect_error(results, i as int + 1);
                    }
                    return Err(
                        BenchError::RunFailed(
                            String::from_str("zero-sized buffers are not supported"),
                        ),
                    );
                }
                let ghost before = counts@;
                counts.push(n);
                proof {
                    assert(counts@.map_values(f) =~= before.map_values(f).push(n as nat));
                }
            }
        }
        i += 1;
    }
    proof {
        assert(results.take(i as int) =~= results);
    }
    Ok(counts)
}

/// The sum of the first counts is at most the sum of all.
proof fn lemma_total_prefix(counts: Seq<nat>, i: int)
    requires
        0 <= i <= counts.len(),
    ensures
        total(counts.take(i)) <= total(counts),
    decreases counts.len() - i,
{
    if i < counts.len() {
        assert(counts.take(i + 1).drop_last() =~= counts.take(i));
        lemma_total_prefix(counts, i + 1);
    } else {
        assert(counts.take(i) =~= counts);
    }
}

/// Sums counts, if the sum fits.
fn sum_counts(counts: &Vec<usize>) -> (r: Option<usize>)
    ensures
        match r {
            Some(n) => n == total(counts@.map_values(|n: usize| n as nat)),
            None => total(counts@.map_values(|n: usize| n as nat)) > usize::MAX,
        },
{
    let ghost all = counts@.map_values(|n: usize| n as nat);
    let mut sum: usize = 0;
    proof {
        assert(all.take(0) =~= Seq::empty());
    }
    let mut i: usize = 0;
    while i < counts.len()
        invariant
            i <= counts@.len(),
            all == counts@.map_values(|n: usize| n as nat),
            sum == total(all.take(i as int)),
        decreases counts@.len() - i,
    {
        proof {
            assert(all.take(i as int + 1).drop_last() =~= all.take(i as int));
            assert(all.take(i as int + 1).last() == counts@[i as int]);
            lemma_total_prefix(all, i as int + 1);
        }
        match sum.checked_add(counts[i]) {
            Some(n) => {
                sum = n;
            }
            None => {
                return None;
            }
        }
        i += 1;
    }
    proof {
        assert(all.take(i as int) =~= all);
    }
    Some(sum)
}

/// Reads the outputs that a compiled kernel printed, one bit pattern per line.
///
/// # Errors
///
/// Returns [`BenchError::RunFailed`] where the element counts of the outputs are zero or too
/// large, and [`BenchError::Parse`] for text that does not hold exactly their values.
pub fn parse_outputs(kernel: &Kernel, stdout: &str) -> (r: Result<Vec<TensorF64>, BenchError>)
    ensures
        match r {
            Ok(outputs) => printed_outputs(kernel@, stdout@) == Ok::<
                Seq<TensorView<u64>>,
                BenchErrorView,
            >(bit_views(outputs@)),
            Err(e) => printed_outputs(kernel@, stdout@) == Err::<
                Seq<TensorView<u64>>,
                BenchErrorView,
            >(e@),
        },
{
    let expected = count_outputs(kernel)?;
    let ghost counts = expected@.map_values(|n: usize| n as nat);
    let sum: usize = match sum_counts(&expected) {
        Some(n) => n,
        None => {
            return Err(BenchError::RunFailed(String::from_str("shape numel overflow")));
        }
    };
    let values = match read_bits(stdout) {
        Ok(values) => values,
        Err(m) => {
            return Err(BenchError::Parse(m));
        }
    };
    if values.len() != sum {
        return Err(
            BenchError::Parse(
                String::from_str("expected ").concat(index_text(sum).as_str()).concat(
                    " output values, got ",
                ).concat(index_text(values.len()).as_str()),
            ),
        );
    }
    Ok(cut_outputs(kernel, &expected, &values))
}

/// Cuts the values into output tensors.
fn cut_outputs(kernel: &Kernel, expected: &Vec<usize>, values: &Vec<u64>) -> (r: Vec<TensorF64>)
    requires
        output_counts(kernel@) == Ok::<Seq<nat>, BenchErrorView>(
            expected@.map_values(|n: usize| n as nat),
        ),
        values@.len() == total(expected@.map_values(|n: usize| n as nat)),
    ensures
        bit_views(r@) == cut(kernel@, expected@.map_values(|n: usize| n as nat), values@),
{
    let ghost counts = expected@.map_values(|n: usize| n as nat);
    let ghost results = kernel@.output_shapes.map_values(|shape: Seq<nat>| output_count(shape));
    let mut outputs: Vec<TensorF64> = Vec::new();
    let mut cursor: usize = 0;
    let size: usize = values.len();
    proof {
        lemma_collect_ok(results);
        assert forall|j: int| 0 <= j < counts.len() implies output_count(
            #[trigger] kernel.output_shapes@[j]@,
        ) == Ok::<nat, BenchErrorView>(counts[j]) by {
            assert(results[j] == output_count(kernel.output_shapes@[j]@));
        }
        assert(counts.take(0) =~= Seq::empty());
    }
    let mut i: usize = 0;
    while i < expected.len()
        invariant
            i <= expected@.len(),
            counts == expected@.map_values(|n: usize| n as nat),
            counts.len() == kernel.output_shapes@.len(),
            forall|j: int|
                0 <= j < counts.len() ==> output_count(#[trigger] kernel.output_shapes@[j]@) == Ok::<
                    nat,
                    BenchErrorView,
                >(counts[j]),
            size == values@.len(),
            size == total(counts),
            cursor == total(counts.take(i as int)),
            outputs@.len() == i,
            forall|j: int|
                0 <= j < i ==> (#[trigger] outputs@[j])@ == cut(kernel@, counts, values@)[j],
        decreases expected@.len() - i,
    {
        proof {
            assert(counts.take(i as int + 1).drop_last() =~= counts.take(i as int));
            assert(counts.take(i as int + 1).last() == expected@[i as int]);
            lemma_total_prefix(counts, i as int + 1);
            assert(output_count(kernel.output_shapes@[i as int]@) == Ok::<nat, BenchErrorView>(
                counts[i as int],
            ));
        }
        let end: usize = cursor + expected[i];
        let mut data: Vec<u64> = Vec::new();
        let mut j: usize = cursor;
        while j < end
            invariant
                cursor <= j <= end,
                end <= values@.len(),
                data@ == values@.subrange(cursor as int, j as int),
            decreases end - j,
        {
            data.push(values[j]);
            proof {
                assert(values@.subrange(cursor as int, j as int + 1) =~= values@.subrange(
                    cursor as int,
                    j as int,
                ).push(values@[j as int]));
            }
            j += 1;
        }
        let tensor = DenseTensor { shape: kernel.output_shapes[i].clone(), data };
        outputs.push(tensor);
        cursor = end;
        i += 1;
    }
    proof {
        assert(counts.take(i as int) =~= counts);
        assert(bit_views(outputs@) =~= cut(kernel@, counts, values@));
    }
    outputs
}

} // verus!
