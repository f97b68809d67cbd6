//! Options of a pipeline run.
use vstd::prelude::*;

use crate::bindings::Bindings;
use crate::bits_text::{characters, digits_of};
use crate::pipeline_error::{PipelineError, PipelineErrorView};
use crate::safety::RewriteMode;
use crate::seqs::{first_some, lemma_first_some_at, lemma_first_some_none};
use crate::text::{decimal, digit_text, index_text, string_views};

verus! {

/// Schedule cost model.
#[derive(Debug, Clone, Copy, PartialEq, Eq, Structural)]
pub enum CostKind {
    /// Use the deterministic static heuristic.
    Static,
    /// Use measured C runtime when a compiler is available.
    Measured,
}

impl CostKind {
    /// The name of this cost model.
    pub open spec fn text(self) -> Seq<char> {
        match self {
            CostKind::Static => "static"@,
            CostKind::Measured => "measured"@,
        }
    }

    /// Returns the name of this cost model.
    pub fn to_text(&self) -> (r: &'static str)
        ensures
            r@ == self.text(),
    {
        match self {
            CostKind::Static => "static",
            CostKind::Measured => "measured",
        }
    }
}

/// Legality mode of rewrites and schedules.
#[derive(Debug, Clone, Copy, PartialEq, Eq, Structural)]
pub enum Mode {
    /// Keep the bits of floating-point results.
    Strict,
    /// Keep exact results only.
    FastMath,
}

impl Mode {
    /// The name of this mode.
    pub open spec fn text(self) -> Seq<char> {
        match self {
            Mode::Strict => "strict"@,
            Mode::FastMath => "fastmath"@,
        }
    }

    /// The mode of rewrites that goes with this one.
    pub open spec fn rewrites(self) -> RewriteMode {
        match self {
            Mode::Strict => RewriteMode::Strict,
            Mode::FastMath => RewriteMode::FastMath,
        }
    }
}

/// Returns the name of a mode.
pub fn mode_name(mode: Mode) -> (r: &'static str)
    ensures
        r@ == mode.text(),
{
    match mode {
        Mode::Strict => "strict",
        Mode::FastMath => "fastmath",
    }
}

/// Returns the mode of rewrites that goes with a mode.
pub fn rewrite_mode(mode: Mode) -> (r: RewriteMode)
    ensures
        r == mode.rewrites(),
{
    match mode {
        Mode::Strict => RewriteMode::Strict,
        Mode::FastMath => RewriteMode::FastMath,
    }
}

/// One schedule move.
#[derive(Debug, Clone, Copy, PartialEq, Eq, Structural)]
pub enum MoveDesc {
    /// Two neighbouring loops of a nest change places.
    Interchange { nest: usize, level: usize },
    /// A loop is split into tiles.
    Tile { nest: usize, level: usize, size: usize },
    /// Two nests become one.
    Fuse { a: usize, b: usize },
}

impl MoveDesc {
    /// The text of this move.
    pub open spec fn text(self) -> Seq<char> {
        match self {
            MoveDesc::Interchange { nest, level } => "interchange(nest="@ + decimal(nest as nat)
                + ",level="@ + decimal(level as nat) + ")"@,
            MoveDesc::Tile { nest, level, size } => "tile(nest="@ + decimal(nest as nat)
                + ",level="@ + decimal(level as nat) + ",size="@ + decimal(size as nat) + ")"@,
            MoveDesc::Fuse { a, b } => "fuse("@ + decimal(a as nat) + ","@ + decimal(b as nat)
                + ")"@,
        }
    }
}

/// Renders a move.
pub fn format_move(desc: &MoveDesc) -> (r: String)
    ensures
        r@ == desc.text(),
{
    match *desc {
        MoveDesc::Interchange { nest, level } => String::from_str("interchange(nest=").concat(
            index_text(nest).as_str(),
        ).concat(",level=").concat(index_text(level).as_str()).concat(")"),
        MoveDesc::Tile { nest, level, size } => String::from_str("tile(nest=").concat(
            index_text(nest).as_str(),
        ).concat(",level=").concat(index_text(level).as_str()).concat(",size=").concat(
            index_text(size).as_str(),
        ).concat(")"),
        MoveDesc::Fuse { a, b } => String::from_str("fuse(").concat(index_text(a).as_str()).concat(
            ",",
        ).concat(index_text(b).as_str()).concat(")"),
    }
}

/// Options for an end-to-end pipeline run.
#[derive(Debug, Clone)]
pub struct RunOpts {
    /// Built-in example name.
    pub example: String,
    /// Shape parameters such as `M=8`.
    pub shapes: Bindings<usize>,
    /// Rewrite and schedule legality mode.
    pub mode: Mode,
    /// Whether to run the guarded search after the rewrite driver.
    pub egg: bool,
    /// Schedule cost model.
    pub cost: CostKind,
    /// Kernel repetitions used by measured cost.
    pub reps: usize,
    /// Seed for deterministic generated inputs.
    pub seed: u64,
    /// Whether to run end-to-end self-checks.
    pub check: bool,
    /// Optional path to write emitted C.
    pub emit: Option<String>,
    /// Skip C compilation and execution.
    pub no_compile: bool,
    /// Put graph and kernel text in the report.
    pub verbose: bool,
}

/// The value of a decimal digit.
pub open spec fn decimal_digit(c: char) -> Option<nat> {
    if 48 <= c as u32 <= 57 {
        Some((c as u32 - 48) as nat)
    } else {
        None
    }
}

/// The number that decimal digits stand for.
pub open spec fn digits_value(s: Seq<char>) -> Option<nat>
    decreases s.len(),
{
    if s.len() == 0 {
        Some(0)
    } else {
        match (digits_value(s.drop_last()), decimal_digit(s.last())) {
            (Some(v), Some(d)) => Some(v * 10 + d),
            _ => None,
        }
    }
}

/// The number in a text: decimal digits after an optional plus sign, within `usize`.
pub open spec fn number_in(s: Seq<char>) -> Option<usize> {
    match digits_value(digits_of(s)) {
        Some(v) => if s.len() > 0 && v <= usize::MAX {
            Some(v as usize)
        } else {
            None
        },
        None => None,
    }
}

/// The place of the first equals sign, or the length.
pub open spec fn equals_sign(s: Seq<char>) -> nat
    decreases s.len(),
{
    if s.len() == 0 || s[0] == '=' {
        0
    } else {
        1 + equals_sign(s.drop_first())
    }
}

/// The key and the number of an assignment `K=V`.
pub open spec fn assignment(s: Seq<char>) -> Option<(Seq<char>, usize)> {
    let at = equals_sign(s);
    if at >= s.len() || at == 0 {
        None
    } else {
        match number_in(s.skip(at as int + 1)) {
            Some(v) => Some((s.take(at as int), v)),
            None => None,
        }
    }
}

/// The first equals sign is where a scan finds it.
proof fn lemma_equals_sign(s: Seq<char>, i: int)
    requires
        0 <= i <= s.len(),
        forall|j: int| 0 <= j < i ==> s[j] != '=',
        i < s.len() ==> s[i] == '=',
    ensures
        equals_sign(s) == i,
    decreases s.len(),
{
    if i > 0 {
        lemma_equals_sign(s.drop_first(), i - 1);
    }
}

/// What is no number stays none with more digits, and numbers only grow.
proof fn lemma_digits_grow(s: Seq<char>, n: int)
    requires
        0 <= n <= s.len(),
    ensures
        digits_value(s.take(n)) is None ==> digits_value(s) is None,
        digits_value(s) is Some ==> digits_value(s.take(n)) is Some && digits_value(s)->Some_0
            >= digits_value(s.take(n))->Some_0,
    decreases s.len() - n,
{
    if n < s.len() {
        lemma_digits_grow(s, n + 1);
        assert(s.take(n + 1).drop_last() =~= s.take(n));
    } else {
        assert(s.take(n) =~= s);
    }
}

/// Reads the number in `text[start..]`.
fn read_number(text: &Vec<char>, start: usize) -> (r: Option<usize>)
    requires
        start <= text@.len(),
    ensures
        r == number_in(text@.skip(start as int)),
{
    let n: usize = text.len();
    let ghost s = text@.skip(start as int);
    let ghost digits = digits_of(s);
    if start == n {
        return None;
    }
    let signed = n - start > 1 && text[start] == '+';
    let first: usize = if signed { start + 1 } else { start };
    proof {
        assert(s[0] == text@[start as int]);
        assert(digits =~= text@.subrange(first as int, n as int));
        assert(digits.take(0) =~= Seq::empty());
    }
    let mut value: usize = 0;
    let mut i: usize = first;
    while i < n
        invariant
            start < n == text@.len(),
            first <= i <= n,
            s == text@.skip(start as int),
            digits == digits_of(s),
            digits == text@.subrange(first as int, n as int),
            digits_value(digits.take(i - first)) == Some(value as nat),
        decreases n - i,
    {
        let v: u32 = text[i] as u32;
        proof {
            assert(digits.take(i - first + 1).drop_last() =~= digits.take(i - first));
            assert(digits.take(i - first + 1).last() == text@[i as int]);
            lemma_digits_grow(digits, i - first + 1);
        }
        if v < 48 || v > 57 {
            return None;
        }
        let wide: u128 = value as u128 * 10 + (v - 48) as u128;
        if wide > usize::MAX as u128 {
            return None;
        }
        value = wide as usize;
        i += 1;
    }
    proof {
        assert(digits.take(i - first) =~= digits);
    }
    Some(value)
}

/// Parses a single `K=V` shape assignment.
///
/// # Errors
///
/// Returns [`PipelineError::InvalidShapeSpec`] if the string is malformed or
/// the value is not a `usize`.
pub fn parse_shape_spec(spec: &str) -> (r: Result<(String, usize), PipelineError>)
    ensures
        match r {
            Ok((key, value)) => assignment(spec@) == Some((key@, value)),
            Err(e) => assignment(spec@) is None && e@ == PipelineErrorView::InvalidShapeSpec(spec@),
        },
{
    let text = characters(spec);
    let mut at: usize = 0;
    while at < text.len() && text[at] != '='
        invariant
            at <= text@.len(),
            forall|j: int| 0 <= j < at ==> text@[j] != '=',
        decreases text@.len() - at,
    {
        at += 1;
    }
    proof {
        lemma_equals_sign(spec@, at as int);
    }
    if at == text.len() || at == 0 {
        return Err(PipelineError::InvalidShapeSpec(String::from_str(spec)));
    }
    match read_number(&text, at + 1) {
        Some(value) => {
            let key = String::from_str(spec.substring_char(0, at));
            proof {
                assert(spec@.subrange(0, at as int) =~= spec@.take(at as int));
            }
            Ok((key, value))
        }
        None => Err(PipelineError::InvalidShapeSpec(String::from_str(spec))),
    }
}

/// The value that the last assignment of a key gives it.
pub open spec fn last_value(specs: Seq<Seq<char>>, key: Seq<char>) -> Option<usize>
    decreases specs.len(),
{
    if specs.len() == 0 {
        None
    } else {
        match assignment(specs.last()) {
            Some((k, v)) => if k == key {
                Some(v)
            } else {
                last_value(specs.drop_last(), key)
            },
            None => last_value(specs.drop_last(), key),
        }
    }
}

/// The keys in the order in which they are first assigned.
pub open spec fn assigned_keys(specs: Seq<Seq<char>>) -> Seq<Seq<char>>
    decreases specs.len(),
{
    if specs.len() == 0 {
        Seq::empty()
    } else {
        let before = assigned_keys(specs.drop_last());
        match assignment(specs.last()) {
            Some((k, v)) => if last_value(specs.drop_last(), k) is Some {
                before
            } else {
                before.push(k)
            },
            None => before,
        }
    }
}

/// The first text that is no assignment.
pub open spec fn bad_assignment(specs: Seq<Seq<char>>) -> Option<Seq<char>> {
    first_some(
        specs.map_values(
            |s: Seq<char>|
                if assignment(s) is Some {
                    None
                } else {
                    Some(s)
                },
        ),
    )
}

/// Parses shape assignments; a later one of a key replaces an earlier one.
///
/// # Errors
///
/// Returns [`PipelineError::InvalidShapeSpec`] for the first malformed one.
pub fn parse_shapes(values: &Vec<String>) -> (r: Result<Bindings<usize>, PipelineError>)
    ensures
        match r {
            Ok(shapes) => bad_assignment(string_views(values@)) is None && shapes.names()
                == assigned_keys(string_views(values@)) && forall|key: Seq<char>|
                #[trigger] shapes.lookup(key) == last_value(string_views(values@), key),
            Err(e) => bad_assignment(string_views(values@)) is Some && e@
                == PipelineErrorView::InvalidShapeSpec(
                bad_assignment(string_views(values@))->Some_0,
            ),
        },
{
    let ghost specs = string_views(values@);
    let ghost errors = specs.map_values(
        |s: Seq<char>|
            if assignment(s) is Some {
                None
            } else {
                Some(s)
            },
    );
    let mut shapes: Bindings<usize> = Bindings::new();
    let mut i: usize = 0;
    proof {
        assert(specs.take(0) =~= Seq::empty());
        assert(shapes.names() =~= Seq::empty());
    }
    while i < values.len()
        invariant
            i <= values@.len(),
            specs == string_views(values@),
            errors == specs.map_values(
                |s: Seq<char>|
                    if assignment(s) is Some {
                        None
                    } else {
                        Some(s)
                    },
            ),
            forall|j: int| 0 <= j < i ==> errors[j] is None,
            shapes.names() == assigned_keys(specs.take(i as int)),
            forall|key: Seq<char>| #[trigger]
                shapes.lookup(key) == last_value(specs.take(i as int), key),
        decreases values@.len() - i,
    {
        proof {
            assert(specs.take(i as int + 1).drop_last() =~= specs.take(i as int));
            assert(specs.take(i as int + 1).last() == values@[i as int]@);
        }
        match parse_shape_spec(values[i].as_str()) {
            Ok((key, value)) => {
                shapes.insert(key, value);
            }
            Err(e) => {
                proof {
                    lemma_first_some_at(errors, i as int);
                }
                return Err(e);
            }
        }
        i += 1;
    }
    proof {
        assert(specs.take(i as int) =~= specs);
        lemma_first_some_none(errors);
    }
    Ok(shapes)
}

/// A decimal digit is one character with its own value.
proof fn lemma_digit(d: nat)
    requires
        d < 10,
    ensures
        digit_text(d).len() == 1,
        decimal_digit(digit_text(d)[0]) == Some(d),
        digit_text(d)[0] != '+',
{
    reveal_strlit("0");
    reveal_strlit("1");
    reveal_strlit("2");
    reveal_strlit("3");
    reveal_strlit("4");
    reveal_strlit("5");
    reveal_strlit("6");
    reveal_strlit("7");
    reveal_strlit("8");
    reveal_strlit("9");
}

/// Decimal text stands for its number.
pub proof fn lemma_decimal(n: nat)
    ensures
        digits_value(decimal(n)) == Some(n),
        decimal(n).len() > 0,
        decimal(n)[0] != '+',
    decreases n,
{
    if n < 10 {
        lemma_digit(n);
        assert(decimal(n).drop_last() =~= Seq::empty());
        assert(digits_value(Seq::<char>::empty()) == Some(0nat));
    } else {
        lemma_decimal(n / 10);
        lemma_digit(n % 10);
        let before = decimal(n / 10);
        let all = decimal(n);
        assert(all =~= before.push(digit_text(n % 10)[0]));
        assert(all.drop_last() =~= before);
        assert(all[0] == before[0]);
    }
}

/// An assignment that is written as the key, an equals sign and a decimal number reads back as
/// that key and number.
pub proof fn assignments_read_back(key: Seq<char>, value: usize)
    requires
        key.len() > 0,
        forall|i: int| 0 <= i < key.len() ==> #[trigger] key[i] != '=',
    ensures
        assignment(key + "="@ + decimal(value as nat)) == Some((key, value)),
{
    reveal_strlit("=");
    let digits = decimal(value as nat);
    let s = key + "="@ + digits;
    let n = key.len() as int;
    assert(s[n] == '=');
    assert forall|j: int| 0 <= j < n implies s[j] != '=' by {
        assert(s[j] == key[j]);
    }
    lemma_equals_sign(s, n);
    assert(s.take(n) =~= key);
    assert(s.skip(n + 1) =~= digits);
    lemma_decimal(value as nat);
}

} // verus!
