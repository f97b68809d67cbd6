//! What goes into a compiled kernel and what comes out of it reads back.
use vstd::prelude::*;

use crate::bench::{
    bits_line, bits_text, cut, input_data, kernel_stdin, output_count, printed_outputs, total,
    BenchErrorView,
};
use crate::bits_text::{parse_bits, printed_bits_read_back};
use crate::emit_c::flat;
use crate::loop_ir::{BufferId, KernelView};
use crate::seqs::{collect, lemma_collect_ok};
use crate::tensor::TensorView;

verus! {

/// The values of sequences one after the other.
pub open spec fn chained(parts: Seq<Seq<u64>>) -> Seq<u64>
    decreases parts.len(),
{
    if parts.len() == 0 {
        Seq::empty()
    } else {
        chained(parts.drop_last()) + parts.last()
    }
}

/// The lines of two sequences are the lines of both, in order.
proof fn lemma_bits_text_chain(a: Seq<u64>, b: Seq<u64>)
    ensures
        bits_text(a + b) == bits_text(a) + bits_text(b),
    decreases b.len(),
{
    if b.len() == 0 {
        assert(a + b =~= a);
        assert(bits_text(a) + bits_text(b) =~= bits_text(a));
    } else {
        lemma_bits_text_chain(a, b.drop_last());
        assert((a + b).drop_last() =~= a + b.drop_last());
        assert((a + b).last() == b.last());
        assert(bits_text(a) + (bits_text(b.drop_last()) + bits_line(b.last())) =~= (bits_text(a)
            + bits_text(b.drop_last())) + bits_line(b.last()));
    }
}

proof fn lemma_flat_bits(data: Seq<Seq<u64>>)
    ensures
        flat(data.map_values(|values: Seq<u64>| bits_text(values))) == bits_text(chained(data)),
    decreases data.len(),
{
    let f = |values: Seq<u64>| bits_text(values);
    if data.len() > 0 {
        lemma_flat_bits(data.drop_last());
        assert(data.map_values(f).drop_last() =~= data.drop_last().map_values(f));
        lemma_bits_text_chain(chained(data.drop_last()), data.last());
    } else {
        assert(data.map_values(f) =~= Seq::<Seq<char>>::empty());
    }
}

/// What is sent to a compiled kernel reads back as the data of its inputs, each bound to the name
/// of its buffer, in the order in which the kernel lists them.
pub proof fn sent_inputs_read_back(
    k: KernelView,
    inputs: Map<Seq<char>, TensorView<u64>>,
    data: Seq<Seq<u64>>,
)
    requires
        kernel_stdin(k, inputs) is Ok,
        data.len() == k.inputs.len(),
        forall|i: int|
            0 <= i < data.len() ==> (#[trigger] k.buffers[k.inputs[i].0 as int]).role is Input,
        forall|i: int|
            0 <= i < data.len() ==> #[trigger] data[i]
                == inputs[k.buffers[k.inputs[i].0 as int].role->Input_0].data,
    ensures
        parse_bits(kernel_stdin(k, inputs)->Ok_0) == Ok::<Seq<u64>, Seq<char>>(chained(data)),
{
    let results = k.inputs.map_values(|id: BufferId| input_data(k, id, inputs));
    lemma_collect_ok(results);
    let sent = collect(results)->Ok_0;
    assert forall|i: int| 0 <= i < data.len() implies sent[i] == data[i] by {
        assert(results[i] == input_data(k, k.inputs[i], inputs));
        assert(k.buffers[k.inputs[i].0 as int].role is Input);
    }
    assert(sent =~= data);
    lemma_flat_bits(data);
    printed_bits_read_back(chained(data));
}

/// The data of tensors one after the other.
pub open spec fn all_data(ts: Seq<TensorView<u64>>) -> Seq<u64> {
    chained(ts.map_values(|t: TensorView<u64>| t.data))
}

proof fn lemma_chained_part(parts: Seq<Seq<u64>>, counts: Seq<nat>, i: int)
    requires
        parts.len() == counts.len(),
        forall|j: int| 0 <= j < parts.len() ==> (#[trigger] parts[j]).len() == counts[j],
        0 <= i < parts.len(),
    ensures
        chained(parts).len() == total(counts),
        0 <= total(counts.take(i)) <= total(counts.take(i + 1)) <= total(counts),
        chained(parts).subrange(
            total(counts.take(i)) as int,
            total(counts.take(i + 1)) as int,
        ) == parts[i],
    decreases parts.len(),
{
    let (before, fewer) = (parts.drop_last(), counts.drop_last());
    let last = (parts.len() - 1) as int;
    assert(parts[last].len() == counts[last]);
    assert(counts.take(last) =~= fewer);
    assert(counts.take(last + 1) =~= counts);
    assert(counts.take(last + 1).drop_last() =~= fewer);
    if before.len() > 0 {
        assert forall|j: int| 0 <= j < before.len() implies (#[trigger] before[j]).len()
            == fewer[j] by {
            assert(parts[j].len() == counts[j]);
        }
        if i < last {
            lemma_chained_part(before, fewer, i);
            assert(fewer.take(i) =~= counts.take(i));
            assert(fewer.take(i + 1) =~= counts.take(i + 1));
            assert(chained(parts).subrange(
                total(counts.take(i)) as int,
                total(counts.take(i + 1)) as int,
            ) =~= chained(before).subrange(
                total(counts.take(i)) as int,
                total(counts.take(i + 1)) as int,
            ));
        } else {
            lemma_chained_part(before, fewer, 0);
        }
    } else {
        assert(chained(before).len() == 0);
        assert(total(fewer) == 0);
    }
    if i == last {
        assert(chained(parts).subrange(
            total(counts.take(i)) as int,
            total(counts.take(i + 1)) as int,
        ) =~= parts[i]);
    }
}

/// Outputs that a compiled kernel prints, all values in order with one on a line, read back as the
/// tensors that they were.
pub proof fn printed_outputs_read_back(k: KernelView, ts: Seq<TensorView<u64>>)
    requires
        ts.len() == k.output_shapes.len(),
        forall|i: int|
            0 <= i < ts.len() ==> (#[trigger] ts[i]).shape == k.output_shapes[i] && ts[i].filled()
                && ts[i].data.len() > 0,
        all_data(ts).len() <= usize::MAX,
    ensures
        printed_outputs(k, bits_text(all_data(ts))) == Ok::<
            Seq<TensorView<u64>>,
            BenchErrorView,
        >(ts),
{
    let results = k.output_shapes.map_values(|shape: Seq<nat>| output_count(shape));
    assert forall|i: int| 0 <= i < results.len() implies #[trigger] results[i] == Ok::<
        nat,
        BenchErrorView,
    >(ts[i].data.len()) by {
        assert(ts[i].shape == k.output_shapes[i]);
        crate::shape::lemma_numel_fits_prefix(ts[i].shape, 0);
    }
    lemma_collect_ok(results);
    let counts = collect(results)->Ok_0;
    assert(counts.len() == ts.len());
    assert forall|i: int| 0 <= i < ts.len() implies #[trigger] counts[i] == ts[i].data.len() by {
        assert(results[i] == Ok::<nat, BenchErrorView>(counts[i]));
    }
    let parts = ts.map_values(|t: TensorView<u64>| t.data);
    let values = all_data(ts);
    printed_bits_read_back(values);
    if ts.len() > 0 {
        lemma_chained_part(parts, counts, 0);
    } else {
        assert(counts =~= Seq::<nat>::empty());
        assert(parts =~= Seq::<Seq<u64>>::empty());
    }
    let back = cut(k, counts, values);
    assert forall|i: int| 0 <= i < ts.len() implies back[i] == ts[i] by {
        lemma_chained_part(parts, counts, i);
        assert(ts[i].shape == k.output_shapes[i]);
    }
    assert(back =~= ts);
}

} // verus!
