//! Reading bit patterns back from text.
use vstd::prelude::*;

use crate::bench::bits_text;
use crate::text::{digit_text, hex_digits};

verus! {

/// Whether a character is white space.
pub open spec fn is_space(c: char) -> bool {
    let v = c as u32;
    (9 <= v <= 13) || v == 32 || v == 0x85 || v == 0xa0 || v == 0x1680 || (0x2000 <= v <= 0x200a)
        || v == 0x2028 || v == 0x2029 || v == 0x202f || v == 0x205f || v == 0x3000
}

/// The text without white space at its ends.
pub open spec fn trimmed(s: Seq<char>) -> Seq<char>
    decreases s.len(),
{
    if s.len() == 0 {
        s
    } else if is_space(s[0]) {
        trimmed(s.drop_first())
    } else if is_space(s.last()) {
        trimmed(s.drop_last())
    } else {
        s
    }
}

/// The rows of a text, between line breaks.
pub open spec fn rows(text: Seq<char>) -> Seq<Seq<char>>
    decreases text.len(),
{
    if text.len() == 0 {
        seq![Seq::empty()]
    } else {
        let before = rows(text.drop_last());
        if text.last() == '\n' {
            before.push(Seq::empty())
        } else {
            before.drop_last().push(before.last().push(text.last()))
        }
    }
}

/// The value of a hexadecimal digit.
pub open spec fn digit_value(c: char) -> Option<nat> {
    let v = c as u32;
    if 48 <= v <= 57 {
        Some((v - 48) as nat)
    } else if 97 <= v <= 102 {
        Some((v - 87) as nat)
    } else if 65 <= v <= 70 {
        Some((v - 55) as nat)
    } else {
        None
    }
}

/// The value of the first `n` hexadecimal digits.
pub open spec fn hex_fold(digits: Seq<char>, n: nat) -> Result<nat, Seq<char>>
    decreases n,
{
    if n == 0 {
        Ok(0)
    } else {
        match hex_fold(digits, (n - 1) as nat) {
            Err(e) => Err(e),
            Ok(v) => match digit_value(digits[n - 1]) {
                None => Err("invalid digit found in string"@),
                Some(x) => if v * 16 + x > u64::MAX {
                    Err("number too large to fit in target type"@)
                } else {
                    Ok(v * 16 + x)
                },
            },
        }
    }
}

/// The hexadecimal digits after an optional plus sign.
pub open spec fn digits_of(s: Seq<char>) -> Seq<char> {
    if s.len() > 1 && s[0] == '+' {
        s.drop_first()
    } else {
        s
    }
}

/// The numbers on the rows, one each; blank rows are skipped.
pub open spec fn numbers(lines: Seq<Seq<char>>) -> Result<Seq<u64>, Seq<char>>
    decreases lines.len(),
{
    if lines.len() == 0 {
        Ok(Seq::empty())
    } else {
        match numbers(lines.drop_last()) {
            Err(e) => Err(e),
            Ok(before) => {
                let word = trimmed(lines.last());
                if word.len() == 0 {
                    Ok(before)
                } else {
                    match hex_fold(digits_of(word), digits_of(word).len()) {
                        Err(e) => Err(e),
                        Ok(v) => Ok(before.push(v as u64)),
                    }
                }
            },
        }
    }
}

/// The bit patterns in a text, one per row.
pub open spec fn parse_bits(text: Seq<char>) -> Result<Seq<u64>, Seq<char>> {
    numbers(rows(text))
}

/// Returns the characters of a text.
pub(crate) fn characters(s: &str) -> (r: Vec<char>)
    ensures
        r@ == s@,
{
    let mut out: Vec<char> = Vec::new();
    for c in it: s.chars()
        invariant
            it.seq() == s@,
            out@ == s@.take(it.index() as int),
    {
        out.push(c);
        assert(s@.take(it.index() as int + 1) =~= s@.take(it.index() as int).push(c));
    }
    assert(s@.take(s@.len() as int) =~= s@);
    out
}

fn white(c: char) -> (r: bool)
    ensures
        r == is_space(c),
{
    let v: u32 = c as u32;
    (9 <= v && v <= 13) || v == 32 || v == 0x85 || v == 0xa0 || v == 0x1680 || (0x2000 <= v && v
        <= 0x200a) || v == 0x2028 || v == 0x2029 || v == 0x202f || v == 0x205f || v == 0x3000
}

fn digit_of(c: char) -> (r: Option<u64>)
    ensures
        match r {
            Some(x) => digit_value(c) == Some(x as nat) && x < 16,
            None => digit_value(c) is None,
        },
{
    let v: u32 = c as u32;
    if 48 <= v && v <= 57 {
        Some((v - 48) as u64)
    } else if 97 <= v && v <= 102 {
        Some((v - 87) as u64)
    } else if 65 <= v && v <= 70 {
        Some((v - 55) as u64)
    } else {
        None
    }
}

/// The contents of the rows.
pub open spec fn row_views(lines: Seq<Vec<char>>) -> Seq<Seq<char>> {
    lines.map_values(|l: Vec<char>| l@)
}

/// Splits a text into rows.
fn split_rows(text: &Vec<char>) -> (r: Vec<Vec<char>>)
    ensures
        row_views(r@) == rows(text@),
{
    let mut done: Vec<Vec<char>> = Vec::new();
    let mut current: Vec<char> = Vec::new();
    proof {
        assert(text@.take(0) =~= Seq::empty());
        assert(row_views(done@).push(current@) =~= seq![Seq::empty()]);
    }
    let mut i: usize = 0;
    while i < text.len()
        invariant
            i <= text@.len(),
            row_views(done@).push(current@) == rows(text@.take(i as int)),
        decreases text@.len() - i,
    {
        let c: char = text[i];
        proof {
            assert(text@.take(i as int + 1).drop_last() =~= text@.take(i as int));
            assert(text@.take(i as int + 1).last() == c);
        }
        let ghost before = row_views(done@);
        let ghost line = current@;
        if c == '\n' {
            done.push(current);
            current = Vec::new();
            proof {
                assert(row_views(done@) =~= before.push(line));
                assert(current@ =~= Seq::empty());
            }
        } else {
            current.push(c);
            proof {
                assert(before.push(line).drop_last() =~= before);
            }
        }
        i += 1;
    }
    proof {
        assert(text@.take(i as int) =~= text@);
    }
    let ghost before = row_views(done@);
    let ghost line = current@;
    done.push(current);
    proof {
        assert(row_views(done@) =~= before.push(line));
    }
    done
}

/// Finds the ends of a row without white space around it.
fn trim_ends(row: &Vec<char>) -> (r: (usize, usize))
    ensures
        r.0 <= r.1 <= row@.len(),
        row@.subrange(r.0 as int, r.1 as int) == trimmed(row@),
{
    let mut start: usize = 0;
    let mut end: usize = row.len();
    proof {
        assert(row@.subrange(0, end as int) =~= row@);
    }
    loop
        invariant_except_break
            start <= end <= row@.len(),
            trimmed(row@.subrange(start as int, end as int)) == trimmed(row@),
        ensures
            start <= end <= row@.len(),
            row@.subrange(start as int, end as int) == trimmed(row@),
        decreases end - start,
    {
        let ghost s = row@.subrange(start as int, end as int);
        if start == end {
            break;
        }
        if white(row[start]) {
            proof {
                assert(s[0] == row@[start as int]);
                assert(s.drop_first() =~= row@.subrange(start as int + 1, end as int));
            }
            start += 1;
        } else if white(row[end - 1]) {
            proof {
                assert(s[0] == row@[start as int]);
                assert(s.last() == row@[end - 1]);
                assert(s.drop_last() =~= row@.subrange(start as int, end - 1));
            }
            end -= 1;
        } else {
            proof {
                assert(s[0] == row@[start as int]);
                assert(s.last() == row@[end - 1]);
            }
            break;
        }
    }
    (start, end)
}

/// An error among the first digits is the error of the whole.
proof fn lemma_fold_error(digits: Seq<char>, m: nat, n: nat)
    requires
        m <= n,
        hex_fold(digits, m) is Err,
    ensures
        hex_fold(digits, n) == hex_fold(digits, m),
    decreases n,
{
    if m < n {
        lemma_fold_error(digits, m, (n - 1) as nat);
    }
}

/// Reads the number in `row[start..end]`.
fn read_hex(row: &Vec<char>, start: usize, end: usize) -> (r: Result<u64, String>)
    requires
        start < end <= row@.len(),
    ensures
        ({
            let digits = digits_of(row@.subrange(start as int, end as int));
            match r {
                Ok(v) => hex_fold(digits, digits.len()) == Ok::<nat, Seq<char>>(v as nat),
                Err(e) => hex_fold(digits, digits.len()) == Err::<nat, Seq<char>>(e@),
            }
        }),
{
    let ghost word = row@.subrange(start as int, end as int);
    let ghost digits = digits_of(word);
    let signed = end - start > 1 && row[start] == '+';
    let first: usize = if signed { start + 1 } else { start };
    proof {
        assert(word[0] == row@[start as int]);
        assert(digits =~= row@.subrange(first as int, end as int));
    }
    let mut value: u64 = 0;
    let mut i: usize = first;
    while i < end
        invariant
            first <= i <= end,
            end <= row@.len(),
            digits == digits_of(row@.subrange(start as int, end as int)),
            digits == row@.subrange(first as int, end as int),
            hex_fold(digits, (i - first) as nat) == Ok::<nat, Seq<char>>(value as nat),
        decreases end - i,
    {
        proof {
            assert(digits[i - first] == row@[i as int]);
        }
        match digit_of(row[i]) {
            None => {
                proof {
                    lemma_fold_error(digits, (i - first + 1) as nat, digits.len());
                }
                return Err(String::from_str("invalid digit found in string"));
            }
            Some(x) => {
                let wide: u128 = value as u128 * 16 + x as u128;
                if wide > u64::MAX as u128 {
                    proof {
                        lemma_fold_error(digits, (i - first + 1) as nat, digits.len());
                    }
                    return Err(String::from_str("number too large to fit in target type"));
                }
                value = wide as u64;
            }
        }
        i += 1;
    }
    Ok(value)
}

/// An error among the first rows is the error of the whole.
proof fn lemma_numbers_error(lines: Seq<Seq<char>>, n: int)
    requires
        0 <= n <= lines.len(),
        numbers(lines.take(n)) is Err,
    ensures
        numbers(lines) == numbers(lines.take(n)),
    decreases lines.len() - n,
{
    if n < lines.len() {
        assert(lines.take(n + 1).drop_last() =~= lines.take(n));
        lemma_numbers_error(lines, n + 1);
    } else {
        assert(lines.take(n) =~= lines);
    }
}

/// Reads bit patterns, one per row. Blank rows and white space around numbers are skipped.
///
/// # Errors
///
/// Returns what is wrong with the first bad number.
pub fn read_bits(text: &str) -> (r: Result<Vec<u64>, String>)
    ensures
        match r {
            Ok(values) => parse_bits(text@) == Ok::<Seq<u64>, Seq<char>>(values@),
            Err(e) => parse_bits(text@) == Err::<Seq<u64>, Seq<char>>(e@),
        },
{
    let lines = split_rows(&characters(text));
    let ghost views = row_views(lines@);
    let mut values: Vec<u64> = Vec::new();
    proof {
        assert(views.take(0) =~= Seq::empty());
    }
    let mut i: usize = 0;
    while i < lines.len()
        invariant
            i <= lines@.len(),
            views == row_views(lines@),
            views == rows(text@),
            numbers(views.take(i as int)) == Ok::<Seq<u64>, Seq<char>>(values@),
        decreases lines@.len() - i,
    {
        proof {
            assert(views.take(i as int + 1).drop_last() =~= views.take(i as int));
            assert(views.take(i as int + 1).last() == lines@[i as int]@);
        }
        let (start, end) = trim_ends(&lines[i]);
        if start < end {
            match read_hex(&lines[i], start, end) {
                Ok(v) => {
                    values.push(v);
                }
                Err(e) => {
                    proof {
                        lemma_numbers_error(views, i as int + 1);
                    }
                    return Err(e);
                }
            }
        }
        i += 1;
    }
    proof {
        assert(views.take(i as int) =~= views);
    }
    Ok(values)
}

/// The number of the last `width` hexadecimal digits.
pub open spec fn low_digits(n: nat, width: nat) -> nat
    decreases width,
{
    if width == 0 {
        0
    } else {
        low_digits(n / 16, (width - 1) as nat) * 16 + n % 16
    }
}

/// The power of sixteen.
pub open spec fn sixteen_to(width: nat) -> nat
    decreases width,
{
    if width == 0 {
        1
    } else {
        16 * sixteen_to((width - 1) as nat)
    }
}

/// Enough digits give the number itself.
proof fn lemma_low_digits(n: nat, width: nat)
    requires
        n < sixteen_to(width),
    ensures
        low_digits(n, width) == n,
    decreases width,
{
    if width > 0 {
        lemma_low_digits(n / 16, (width - 1) as nat);
    }
}

/// A digit is one character with its own value.
proof fn lemma_digit_text(d: nat)
    requires
        d < 16,
    ensures
        digit_text(d).len() == 1,
        digit_value(digit_text(d)[0]) == Some(d),
        !is_space(digit_text(d)[0]),
        digit_text(d)[0] != '\n',
        digit_text(d)[0] != '+',
{
    reveal_strlit("0");
    reveal_strlit("1");
    reveal_strlit("2");
    reveal_strlit("3");
    reveal_strlit("4");
    reveal_strlit("5");
    reveal_strlit("6");
    reveal_strlit("7");
    reveal_strlit("8");
    reveal_strlit("9");
    reveal_strlit("a");
    reveal_strlit("b");
    reveal_strlit("c");
    reveal_strlit("d");
    reveal_strlit("e");
    reveal_strlit("f");
}

/// Every character of a hexadecimal text is a digit.
proof fn lemma_hex_digits(n: nat, width: nat)
    ensures
        hex_digits(n, width).len() == width,
        forall|i: int|
            0 <= i < width ==> !is_space(#[trigger] hex_digits(n, width)[i]) && hex_digits(
                n,
                width,
            )[i] != '\n' && hex_digits(n, width)[i] != '+',
    decreases width,
{
    if width > 0 {
        lemma_hex_digits(n / 16, (width - 1) as nat);
        lemma_digit_text(n % 16);
        let before = hex_digits(n / 16, (width - 1) as nat);
        assert forall|i: int| 0 <= i < width implies !is_space(#[trigger] hex_digits(n, width)[i])
            && hex_digits(n, width)[i] != '\n' && hex_digits(n, width)[i] != '+' by {
            if i < width - 1 {
                assert(hex_digits(n, width)[i] == before[i]);
            } else {
                assert(hex_digits(n, width)[i] == digit_text(n % 16)[0]);
            }
        }
    }
}

/// Reading a prefix does not depend on what follows it.
proof fn lemma_fold_prefix(a: Seq<char>, b: Seq<char>, n: nat)
    requires
        n <= a.len(),
        n <= b.len(),
        forall|i: int| 0 <= i < n ==> a[i] == b[i],
    ensures
        hex_fold(a, n) == hex_fold(b, n),
    decreases n,
{
    if n > 0 {
        lemma_fold_prefix(a, b, (n - 1) as nat);
    }
}

/// Reading hexadecimal digits gives their number.
proof fn lemma_fold_digits(n: nat, width: nat)
    requires
        low_digits(n, width) <= u64::MAX,
    ensures
        hex_fold(hex_digits(n, width), width) == Ok::<nat, Seq<char>>(low_digits(n, width)),
    decreases width,
{
    if width > 0 {
        let m = (width - 1) as nat;
        lemma_fold_digits(n / 16, m);
        lemma_hex_digits(n / 16, m);
        lemma_digit_text(n % 16);
        let before = hex_digits(n / 16, m);
        let all = hex_digits(n, width);
        assert forall|i: int| 0 <= i < m implies all[i] == before[i] by {}
        lemma_fold_prefix(all, before, m);
        assert(all[m as int] == digit_text(n % 16)[0]);
    }
}

/// Text without white space at its ends is its own trim.
proof fn lemma_trimmed_solid(s: Seq<char>)
    requires
        s.len() > 0,
        !is_space(s[0]),
        !is_space(s.last()),
    ensures
        trimmed(s) == s,
{
}

/// Appending characters without line breaks extends the last row.
proof fn lemma_rows_extend(text: Seq<char>, word: Seq<char>)
    requires
        forall|i: int| 0 <= i < word.len() ==> word[i] != '\n',
    ensures
        rows(text).len() > 0,
        rows(text + word) == rows(text).drop_last().push(rows(text).last() + word),
    decreases word.len(),
{
    lemma_rows_nonempty(text);
    if word.len() == 0 {
        assert(text + word =~= text);
        assert(rows(text).last() + word =~= rows(text).last());
        assert(rows(text).drop_last().push(rows(text).last()) =~= rows(text));
    } else {
        let w = word.drop_last();
        lemma_rows_extend(text, w);
        assert((text + word).drop_last() =~= text + w);
        assert((text + word).last() == word.last());
        let before = rows(text + w);
        assert(before.drop_last() =~= rows(text).drop_last());
        assert((rows(text).last() + w).push(word.last()) =~= rows(text).last() + word);
    }
}

proof fn lemma_rows_nonempty(text: Seq<char>)
    ensures
        rows(text).len() > 0,
    decreases text.len(),
{
    if text.len() > 0 {
        lemma_rows_nonempty(text.drop_last());
    }
}

/// The rows of printed bit patterns are their digits, and an empty row at the end.
proof fn lemma_rows_of_bits(values: Seq<u64>)
    ensures
        rows(bits_text(values)) == values.map_values(|b: u64| hex_digits(b as nat, 16)).push(
            Seq::empty(),
        ),
    decreases values.len(),
{
    let f = |b: u64| hex_digits(b as nat, 16);
    if values.len() == 0 {
        assert(values.map_values(f).push(Seq::empty()) =~= seq![Seq::empty()]);
    } else {
        let vs = values.drop_last();
        let last = values.last();
        let word = hex_digits(last as nat, 16);
        lemma_rows_of_bits(vs);
        lemma_hex_digits(last as nat, 16);
        let text = bits_text(vs);
        lemma_rows_extend(text, word);
        reveal_strlit("\n");
        let line = text + word;
        assert(bits_text(values) =~= line.push('\n'));
        assert(line.push('\n').drop_last() =~= line);
        let before = vs.map_values(f);
        assert(rows(text).drop_last() =~= before);
        assert(rows(text).last() + word =~= word);
        assert(rows(bits_text(values)) =~= before.push(word).push(Seq::empty()));
        assert(values.map_values(f) =~= before.push(word));
    }
}

/// Printed bit patterns read back as they were.
pub proof fn printed_bits_read_back(values: Seq<u64>)
    ensures
        parse_bits(bits_text(values)) == Ok::<Seq<u64>, Seq<char>>(values),
{
    let f = |b: u64| hex_digits(b as nat, 16);
    lemma_rows_of_bits(values);
    let lines = values.map_values(f);
    lemma_numbers_of_bits(values);
    let all = lines.push(Seq::empty());
    assert(all.drop_last() =~= lines);
}

proof fn lemma_numbers_of_bits(values: Seq<u64>)
    ensures
        numbers(values.map_values(|b: u64| hex_digits(b as nat, 16))) == Ok::<Seq<u64>, Seq<char>>(
            values,
        ),
    decreases values.len(),
{
    let f = |b: u64| hex_digits(b as nat, 16);
    let lines = values.map_values(f);
    if values.len() == 0 {
        assert(values =~= Seq::empty());
    } else {
        let vs = values.drop_last();
        lemma_numbers_of_bits(vs);
        assert(lines.drop_last() =~= vs.map_values(f));
        let last = values.last();
        let word = hex_digits(last as nat, 16);
        lemma_hex_digits(last as nat, 16);
        lemma_trimmed_solid(word);
        reveal_with_fuel(sixteen_to, 17);
        lemma_low_digits(last as nat, 16);
        lemma_fold_digits(last as nat, 16);
        assert(digits_of(word) == word);
        assert(vs.push(last) =~= values);
    }
}

} // verus!
