//! The built-in examples and their descriptions.
use vstd::prelude::*;

use crate::bindings::Bindings;
use crate::examples::{
    add_relu_example, example_graph, example_list, examples_are_well_typed, key_error, key_errors,
    matmul_example, matmul_relu_sum_example, param, two_matmul_example, unused_key,
};
use crate::infer::infer_graph;
use crate::options::{
    assigned_keys, assignment, assignments_read_back, bad_assignment, last_value,
};
use crate::pipeline_error::PipelineErrorView;
use crate::seqs::lemma_first_some_none;
use crate::text::{decimal, join};

verus! {

/// The parts of a text between separators.
pub open spec fn parts(text: Seq<char>, sep: char) -> Seq<Seq<char>>
    decreases text.len(),
{
    if text.len() == 0 {
        seq![Seq::empty()]
    } else {
        let before = parts(text.drop_last(), sep);
        if text.last() == sep {
            before.push(Seq::empty())
        } else {
            before.drop_last().push(before.last().push(text.last()))
        }
    }
}

/// The assignment of a value to a key.
pub open spec fn written(key: Seq<char>, value: usize) -> Seq<char> {
    key + "="@ + decimal(value as nat)
}

/// The assignments of values to keys.
pub open spec fn all_written(keys: Seq<Seq<char>>, values: Seq<usize>) -> Seq<Seq<char>> {
    Seq::new(keys.len(), |i: int| written(keys[i], values[i]))
}

/// A key that can be written: it is not empty and holds no equals sign.
pub open spec fn proper_key(key: Seq<char>) -> bool {
    key.len() > 0 && forall|i: int| 0 <= i < key.len() ==> #[trigger] key[i] != '='
}

/// There is at least one part.
proof fn lemma_parts_nonempty(text: Seq<char>, sep: char)
    ensures
        parts(text, sep).len() > 0,
    decreases text.len(),
{
    if text.len() > 0 {
        lemma_parts_nonempty(text.drop_last(), sep);
    }
}

/// Characters other than the separator extend the last part.
proof fn lemma_parts_extend(text: Seq<char>, word: Seq<char>, sep: char)
    requires
        forall|i: int| 0 <= i < word.len() ==> word[i] != sep,
    ensures
        parts(text + word, sep) == parts(text, sep).drop_last().push(
            parts(text, sep).last() + word,
        ),
    decreases word.len(),
{
    lemma_parts_nonempty(text, sep);
    let all = parts(text, sep);
    if word.len() == 0 {
        assert(text + word =~= text);
        assert(all.last() + word =~= all.last());
        assert(all.drop_last().push(all.last()) =~= all);
    } else {
        let w = word.drop_last();
        lemma_parts_extend(text, w, sep);
        assert((text + word).drop_last() =~= text + w);
        assert((text + word).last() == word.last());
        let before = parts(text + w, sep);
        assert(before.drop_last() =~= all.drop_last());
        assert((all.last() + w).push(word.last()) =~= all.last() + word);
    }
}

/// Words joined by a separator that none of them holds are the parts of the text.
pub proof fn joined_words_are_the_parts(words: Seq<Seq<char>>, sep: char)
    requires
        words.len() > 0,
        forall|i: int, k: int|
            0 <= i < words.len() && 0 <= k < words[i].len() ==> #[trigger] words[i][k] != sep,
    ensures
        parts(join(words, seq![sep]), sep) == words,
    decreases words.len(),
{
    let nothing: Seq<char> = Seq::empty();
    let last = words.last();
    assert forall|k: int| 0 <= k < last.len() implies last[k] != sep by {
        assert(words[words.len() - 1][k] != sep);
    }
    if words.len() == 1 {
        lemma_parts_extend(nothing, last, sep);
        assert(nothing + last =~= last);
        assert(parts(nothing, sep).last() + last =~= last);
        assert(parts(last, sep) =~= words);
    } else {
        let before = words.drop_last();
        assert forall|i: int, k: int|
            0 <= i < before.len() && 0 <= k < before[i].len() implies #[trigger] before[i][k]
            != sep by {
            assert(words[i][k] != sep);
        }
        joined_words_are_the_parts(before, sep);
        let text = join(before, seq![sep]) + seq![sep];
        assert(text.drop_last() =~= join(before, seq![sep]));
        assert(parts(text, sep) == before.push(nothing));
        lemma_parts_extend(text, last, sep);
        assert(before.push(nothing).drop_last() =~= before);
        assert(nothing + last =~= last);
        assert(before.push(last) =~= words);
    }
}

/// Written assignments of distinct keys read back: each key has its value, in order, and no text
/// is malformed.
pub proof fn written_assignments_read_back(
    keys: Seq<Seq<char>>,
    values: Seq<usize>,
)
    requires
        keys.len() == values.len(),
        forall|i: int| 0 <= i < keys.len() ==> proper_key(#[trigger] keys[i]),
        keys.no_duplicates(),
    ensures
        bad_assignment(all_written(keys, values)) is None,
        assigned_keys(all_written(keys, values)) == keys,
        forall|i: int|
            0 <= i < keys.len() ==> last_value(all_written(keys, values), #[trigger] keys[i])
                == Some(values[i]),
        forall|key: Seq<char>|
            !keys.contains(key) ==> #[trigger] last_value(all_written(keys, values), key) is None,
{
    let specs = all_written(keys, values);
    assert forall|i: int| 0 <= i < specs.len() implies assignment(#[trigger] specs[i]) == Some(
        (keys[i], values[i]),
    ) by {
        assert(proper_key(keys[i]));
        assignments_read_back(keys[i], values[i]);
    }
    lemma_assigned(specs, keys, values);
    let errors = specs.map_values(
        |s: Seq<char>|
            if assignment(s) is Some {
                None
            } else {
                Some(s)
            },
    );
    assert forall|i: int| 0 <= i < errors.len() implies errors[i] is None by {
        assert(assignment(specs[i]) is Some);
    }
    lemma_first_some_none(errors);
}

proof fn lemma_assigned(specs: Seq<Seq<char>>, keys: Seq<Seq<char>>, values: Seq<usize>)
    requires
        specs.len() == keys.len(),
        keys.len() == values.len(),
        keys.no_duplicates(),
        forall|i: int|
            0 <= i < specs.len() ==> assignment(#[trigger] specs[i]) == Some((keys[i], values[i])),
    ensures
        assigned_keys(specs) == keys,
        forall|i: int|
            0 <= i < keys.len() ==> last_value(specs, #[trigger] keys[i]) == Some(values[i]),
        forall|key: Seq<char>|
            !keys.contains(key) ==> #[trigger] last_value(specs, key) is None,
    decreases specs.len(),
{
    if specs.len() > 0 {
        let n = specs.len() - 1;
        let ss = specs.drop_last();
        let ks = keys.drop_last();
        let vs = values.drop_last();
        assert forall|i: int| 0 <= i < ss.len() implies assignment(#[trigger] ss[i]) == Some(
            (ks[i], vs[i]),
        ) by {
            assert(assignment(specs[i]) == Some((keys[i], values[i])));
        }
        lemma_assigned(ss, ks, vs);
        assert(assignment(specs[n]) == Some((keys[n], values[n])));
        assert(!ks.contains(keys[n])) by {
            if ks.contains(keys[n]) {
                let i = ks.index_of(keys[n]);
                assert(keys[i] == keys[n]);
            }
        }
        assert(ks.push(keys[n]) =~= keys);
        assert forall|i: int| 0 <= i < keys.len() implies last_value(specs, #[trigger] keys[i])
            == Some(values[i]) by {
            if i < n {
                assert(keys[i] != keys[n]);
                assert(ks[i] == keys[i]);
                assert(last_value(ss, ks[i]) == Some(vs[i]));
            }
        }
        assert forall|key: Seq<char>| !keys.contains(key) implies #[trigger] last_value(specs, key)
            is None by {
            assert(keys[n] != key);
            assert(!ks.contains(key)) by {
                if ks.contains(key) {
                    let i = ks.index_of(key);
                    assert(keys[i] == key);
                }
            }
            assert(last_value(ss, key) is None);
        }
    } else {
        assert(keys =~= Seq::empty());
    }
}

/// The parameters that the description of an example lists.
pub open spec fn default_keys(i: int) -> Seq<Seq<char>> {
    if i == 1 {
        seq!["D0"@, "D1"@]
    } else if i == 3 {
        seq!["M"@, "K"@, "H"@, "N"@]
    } else {
        seq!["M"@, "K"@, "N"@]
    }
}

/// The values that the description of an example lists.
pub open spec fn default_values(i: int) -> Seq<usize> {
    if i == 1 {
        seq![8usize, 8usize]
    } else if i == 3 {
        seq![4usize, 4usize, 4usize, 4usize]
    } else {
        seq![8usize, 8usize, 8usize]
    }
}

proof fn lemma_keys()
    ensures
        "M"@ =~= seq!['M'],
        "K"@ =~= seq!['K'],
        "N"@ =~= seq!['N'],
        "H"@ =~= seq!['H'],
        "D0"@ =~= seq!['D', '0'],
        "D1"@ =~= seq!['D', '1'],
        "="@ =~= seq!['='],
        ","@ =~= seq![','],
        decimal(4) =~= seq!['4'],
        decimal(8) =~= seq!['8'],
{
    reveal_strlit("M");
    reveal_strlit("K");
    reveal_strlit("N");
    reveal_strlit("H");
    reveal_strlit("D0");
    reveal_strlit("D1");
    reveal_strlit("=");
    reveal_strlit(",");
    reveal_strlit("4");
    reveal_strlit("8");
}

/// The keys of a description are distinct and can be written.
proof fn lemma_default_keys(i: int)
    requires
        0 <= i < 4,
    ensures
        default_keys(i).no_duplicates(),
        forall|k: int| 0 <= k < default_keys(i).len() ==> proper_key(#[trigger] default_keys(i)[k]),
        default_keys(i).len() == default_values(i).len(),
{
    lemma_keys();
    let keys = default_keys(i);
    assert("M"@[0] == 'M' && "K"@[0] == 'K' && "N"@[0] == 'N' && "H"@[0] == 'H');
    assert("D0"@[1] == '0' && "D1"@[1] == '1');
    assert forall|k: int| 0 <= k < keys.len() implies proper_key(#[trigger] keys[k]) by {}
}

proof fn lemma_three(a: Seq<char>, b: Seq<char>, c: Seq<char>, sep: Seq<char>)
    ensures
        join(seq![a, b], sep) == a + sep + b,
        join(seq![a, b, c], sep) == a + sep + b + sep + c,
{
    let two = seq![a, b];
    let three = seq![a, b, c];
    assert(two.drop_last() =~= seq![a]);
    assert(join(seq![a], sep) == a);
    assert(join(two, sep) == join(two.drop_last(), sep) + sep + two.last());
    assert(three.drop_last() =~= two);
    assert(join(three, sep) == join(three.drop_last(), sep) + sep + three.last());
}

/// A description is the written assignments of its parameters, with commas between.
proof fn lemma_descriptions(i: int)
    requires
        0 <= i < 4,
    ensures
        example_list()[i].1 == join(all_written(default_keys(i), default_values(i)), ","@),
{
    lemma_keys();
    let specs = all_written(default_keys(i), default_values(i));
    let sep = ","@;
    if i == 1 {
        reveal_strlit("D0=8,D1=8");
        let a = written("D0"@, 8);
        let b = written("D1"@, 8);
        assert(specs =~= seq![a, b]);
        assert(a =~= seq!['D', '0', '=', '8']);
        assert(b =~= seq!['D', '1', '=', '8']);
        lemma_three(a, b, a, sep);
        assert(a + sep + b =~= "D0=8,D1=8"@);
    } else if i == 3 {
        reveal_strlit("M=4,K=4,H=4,N=4");
        let a = written("M"@, 4);
        let b = written("K"@, 4);
        let c = written("H"@, 4);
        let d = written("N"@, 4);
        assert(specs =~= seq![a, b, c, d]);
        assert(a =~= seq!['M', '=', '4']);
        assert(b =~= seq!['K', '=', '4']);
        assert(c =~= seq!['H', '=', '4']);
        assert(d =~= seq!['N', '=', '4']);
        lemma_three(a, b, c, sep);
        assert(seq![a, b, c, d].drop_last() =~= seq![a, b, c]);
        assert(a + sep + b + sep + c + sep + d =~= "M=4,K=4,H=4,N=4"@);
    } else {
        reveal_strlit("M=8,K=8,N=8");
        let a = written("M"@, 8);
        let b = written("K"@, 8);
        let c = written("N"@, 8);
        assert(specs =~= seq![a, b, c]);
        assert(a =~= seq!['M', '=', '8']);
        assert(b =~= seq!['K', '=', '8']);
        assert(c =~= seq!['N', '=', '8']);
        lemma_three(a, b, c, sep);
        assert(a + sep + b + sep + c =~= "M=8,K=8,N=8"@);
    }
}

/// No written assignment of a description holds a comma.
proof fn lemma_no_commas(i: int)
    requires
        0 <= i < 4,
    ensures
        ({
            let specs = all_written(default_keys(i), default_values(i));
            forall|j: int, k: int|
                0 <= j < specs.len() && 0 <= k < specs[j].len() ==> #[trigger] specs[j][k] != ','
        }),
{
    lemma_keys();
    let keys = default_keys(i);
    let values = default_values(i);
    let specs = all_written(keys, values);
    assert forall|j: int, k: int|
        0 <= j < specs.len() && 0 <= k < specs[j].len() implies #[trigger] specs[j][k] != ',' by {
        let key = keys[j];
        let digits = decimal(values[j] as nat);
        assert(digits.len() == 1 && digits[0] != ',');
        assert(key.len() <= 2);
        assert forall|m: int| 0 <= m < key.len() implies key[m] != ',' by {}
        if k < key.len() {
            assert(specs[j][k] == key[k]);
        } else if k == key.len() {
            assert(specs[j][k] == '=');
        } else {
            assert(specs[j][k] == digits[k - key.len() - 1]);
        }
    }
}

/// Parameters that an example uses raise no objection.
proof fn lemma_keys_used(shapes: Bindings<usize>, keys: Seq<Seq<char>>)
    requires
        shapes.names() == keys || shapes.names().len() == 0,
    ensures
        unused_key(shapes, keys) is None,
{
    let errors = key_errors(shapes, keys);
    assert forall|j: int| 0 <= j < errors.len() implies errors[j] is None by {
        assert(keys.contains(keys[j]));
        assert(errors[j] == key_error(shapes, keys, shapes.names()[j]));
    }
    lemma_first_some_none(errors);
}

/// A parameter that is given its default is as good as none.
proof fn lemma_default_param(
    shapes: Bindings<usize>,
    none: Bindings<usize>,
    key: Seq<char>,
    value: usize,
)
    requires
        shapes.lookup(key) == Some(value),
        none.lookup(key) is None,
        value > 0,
    ensures
        param(shapes, key, value) == Ok::<usize, PipelineErrorView>(value),
        param(none, key, value) == Ok::<usize, PipelineErrorView>(value),
{
}

/// The description of a listed example, split at its commas, parses to the default parameters:
/// the example that they build is the one that is built without parameters.
pub proof fn descriptions_give_the_defaults(
    i: int,
    shapes: Bindings<usize>,
    none: Bindings<usize>,
)
    requires
        0 <= i < example_list().len(),
        shapes.names() == assigned_keys(parts(example_list()[i].1, ',')),
        forall|key: Seq<char>| #[trigger]
            shapes.lookup(key) == last_value(parts(example_list()[i].1, ','), key),
        none.names().len() == 0,
        forall|key: Seq<char>| #[trigger] none.lookup(key) is None,
    ensures
        bad_assignment(parts(example_list()[i].1, ',')) is None,
        example_graph(example_list()[i].0, shapes) == example_graph(example_list()[i].0, none),
        example_graph(example_list()[i].0, none) is Ok,
{
    let keys = default_keys(i);
    let values = default_values(i);
    let specs = all_written(keys, values);
    lemma_keys();
    lemma_descriptions(i);
    lemma_no_commas(i);
    lemma_default_keys(i);
    assert(","@ =~= seq![',']);
    joined_words_are_the_parts(specs, ',');
    written_assignments_read_back(keys, values);
    lemma_keys_used(shapes, keys);
    lemma_keys_used(none, keys);
    assert forall|k: int| 0 <= k < keys.len() implies shapes.lookup(#[trigger] keys[k]) == Some(
        values[k],
    ) by {
        assert(last_value(specs, keys[k]) == Some(values[k]));
    }
    assert forall|k: int| 0 <= k < keys.len() implies param(shapes, #[trigger] keys[k], values[k])
        == Ok::<usize, PipelineErrorView>(values[k]) && param(none, keys[k], values[k]) == Ok::<
        usize,
        PipelineErrorView,
    >(values[k]) by {
        lemma_default_param(shapes, none, keys[k], values[k]);
    }
    reveal_strlit("matmul");
    reveal_strlit("add-relu");
    reveal_strlit("matmul-relu-sum");
    reveal_strlit("two-matmul");
    assert("matmul"@.len() == 6 && "add-relu"@.len() == 8);
    assert("matmul-relu-sum"@.len() == 15 && "two-matmul"@.len() == 10);
    assert(param(shapes, keys[0], values[0]) == param(none, keys[0], values[0]));
    assert(param(shapes, keys[1], values[1]) == param(none, keys[1], values[1]));
    if i == 1 {
        assert(add_relu_example(shapes) == add_relu_example(none));
    } else if i == 3 {
        assert(param(shapes, keys[2], values[2]) == param(none, keys[2], values[2]));
        assert(param(shapes, keys[3], values[3]) == param(none, keys[3], values[3]));
        assert(two_matmul_example(shapes) == two_matmul_example(none));
    } else {
        assert(param(shapes, keys[2], values[2]) == param(none, keys[2], values[2]));
        assert(matmul_example(shapes) == matmul_example(none));
        assert(matmul_relu_sum_example(shapes) == matmul_relu_sum_example(none));
    }
}

/// The names of the examples are distinct.
pub proof fn example_names_are_distinct(i: int, j: int)
    requires
        0 <= i < j < example_list().len(),
    ensures
        example_list()[i].0 != example_list()[j].0,
{
    reveal_strlit("matmul");
    reveal_strlit("add-relu");
    reveal_strlit("matmul-relu-sum");
    reveal_strlit("two-matmul");
    assert("matmul"@.len() == 6 && "add-relu"@.len() == 8);
    assert("matmul-relu-sum"@.len() == 15 && "two-matmul"@.len() == 10);
}

/// A name that is not listed is unknown.
pub proof fn unlisted_examples_are_unknown(name: Seq<char>, shapes: Bindings<usize>)
    requires
        forall|i: int| 0 <= i < example_list().len() ==> (#[trigger] example_list()[i]).0 != name,
    ensures
        example_graph(name, shapes) == Err::<
            (crate::graph::GraphView, Seq<Seq<char>>),
            PipelineErrorView,
        >(PipelineErrorView::UnknownExample(name)),
{
    let list = example_list();
    assert(list[0].0 != name && list[1].0 != name && list[2].0 != name && list[3].0 != name);
}

/// A listed example that is built without parameters has inputs and is well-typed.
pub proof fn listed_examples_are_typed(i: int, none: Bindings<usize>)
    requires
        0 <= i < example_list().len(),
        none.names().len() == 0,
        forall|key: Seq<char>| #[trigger] none.lookup(key) is None,
    ensures
        example_graph(example_list()[i].0, none) is Ok,
        example_graph(example_list()[i].0, none)->Ok_0.1.len() > 0,
        infer_graph(example_graph(example_list()[i].0, none)->Ok_0.0) is Ok,
{
    crate::examples::listed_examples_build(i, none);
    examples_are_well_typed(example_list()[i].0, none);
    reveal_strlit("matmul");
    reveal_strlit("add-relu");
    reveal_strlit("matmul-relu-sum");
    reveal_strlit("two-matmul");
}

} // verus!
