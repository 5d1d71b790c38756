//! Derivation of the root seed from a seed file: one unsigned number per
//! line, multiplied together with 32-bit wrap-around.
//!
//! Each line is trimmed of whitespace (every character with the Unicode
//! White_Space property, as UTF-8) and read as an optional `+` followed by
//! decimal digits whose value fits in `u32`; any other line is ignored. A file with no such line, or whose product is 0, gives
//! `DEFAULT_SEED`.
use vstd::prelude::*;
use vstd::wrapping::u32_specs;
use crate::rng::DEFAULT_SEED;

verus! {

/// The newline byte that ends a line.
pub const NEWLINE: u8 = 10;

/// The plus sign allowed before the digits.
pub const PLUS: u8 = 43;

/// One-byte whitespace: tab through carriage return, and space.
pub open spec fn is_space1(b0: u8) -> bool {
    b0 == 0x20 || (0x09 <= b0 <= 0x0d)
}

/// Two-byte whitespace: U+0085 and U+00A0.
pub open spec fn is_space2(b0: u8, b1: u8) -> bool {
    b0 == 0xc2 && (b1 == 0x85 || b1 == 0xa0)
}

/// Three-byte whitespace: U+1680, U+2000 to U+200A, U+2028, U+2029, U+202F,
/// U+205F and U+3000.
pub open spec fn is_space3(b0: u8, b1: u8, b2: u8) -> bool {
    ||| (b0 == 0xe1 && b1 == 0x9a && b2 == 0x80)
    ||| (b0 == 0xe2 && b1 == 0x80 && ((0x80 <= b2 <= 0x8a) || b2 == 0xa8 || b2 == 0xa9
        || b2 == 0xaf))
    ||| (b0 == 0xe2 && b1 == 0x81 && b2 == 0x9f)
    ||| (b0 == 0xe3 && b1 == 0x80 && b2 == 0x80)
}

/// The length of the whitespace character that `s` starts with, or 0.
pub open spec fn leading_space_len(s: Seq<u8>) -> nat {
    if s.len() >= 1 && is_space1(s[0]) {
        1
    } else if s.len() >= 2 && is_space2(s[0], s[1]) {
        2
    } else if s.len() >= 3 && is_space3(s[0], s[1], s[2]) {
        3
    } else {
        0
    }
}

/// The length of the whitespace character that `s` ends with, or 0.
pub open spec fn trailing_space_len(s: Seq<u8>) -> nat {
    let n = s.len() as int;
    if n >= 1 && is_space1(s[n - 1]) {
        1
    } else if n >= 2 && is_space2(s[n - 2], s[n - 1]) {
        2
    } else if n >= 3 && is_space3(s[n - 3], s[n - 2], s[n - 1]) {
        3
    } else {
        0
    }
}

/// A decimal digit byte.
pub open spec fn is_digit(b: u8) -> bool {
    48 <= b <= 57
}

/// The pieces of `s` between newline bytes, in order; there is always one
/// more piece than there are newlines.
pub open spec fn split_lines(s: Seq<u8>) -> Seq<Seq<u8>>
    decreases s.len(),
{
    if s.len() == 0 {
        seq![Seq::empty()]
    } else {
        let prev = split_lines(s.drop_last());
        if s.last() == NEWLINE {
            prev.push(Seq::empty())
        } else {
            prev.drop_last().push(prev.last().push(s.last()))
        }
    }
}

/// `s` without its leading whitespace characters.
pub open spec fn trim_start(s: Seq<u8>) -> Seq<u8>
    decreases s.len(),
{
    let k = leading_space_len(s);
    if k > 0 {
        trim_start(s.subrange(k as int, s.len() as int))
    } else {
        s
    }
}

/// `s` without its trailing whitespace characters.
pub open spec fn trim_end(s: Seq<u8>) -> Seq<u8>
    decreases s.len(),
{
    let k = trailing_space_len(s);
    if k > 0 {
        trim_end(s.subrange(0, s.len() - k))
    } else {
        s
    }
}

/// The value of a string of decimal digits.
pub open spec fn digits_value(d: Seq<u8>) -> nat
    decreases d.len(),
{
    if d.len() == 0 {
        0
    } else {
        digits_value(d.drop_last()) * 10 + (d.last() - 48) as nat
    }
}

/// The value of `d` if it is a non-empty string of digits whose value fits
/// in `u32`.
pub open spec fn number_value(d: Seq<u8>) -> Option<u32> {
    if d.len() > 0 && (forall|i: int| 0 <= i < d.len() ==> is_digit(#[trigger] d[i]))
        && digits_value(d) <= u32::MAX {
        Some(digits_value(d) as u32)
    } else {
        None
    }
}

/// The number a line holds: after trimming, an optional `+` and then digits
/// whose value fits in `u32`.
pub open spec fn line_value(line: Seq<u8>) -> Option<u32> {
    let t = trim_end(trim_start(line));
    if t.len() > 0 && t.first() == PLUS {
        number_value(t.drop_first())
    } else {
        number_value(t)
    }
}

/// The numbers held by `lines`, in order, skipping lines that hold none.
pub open spec fn line_values(lines: Seq<Seq<u8>>) -> Seq<u32>
    decreases lines.len(),
{
    if lines.len() == 0 {
        Seq::empty()
    } else {
        let prev = line_values(lines.drop_last());
        match line_value(lines.last()) {
            Some(v) => prev.push(v),
            None => prev,
        }
    }
}

/// The numbers of a seed file.
pub open spec fn seed_values(text: Seq<u8>) -> Seq<u32> {
    line_values(split_lines(text))
}

/// The wrapping product of `vals`, starting from 1.
pub open spec fn wrapping_product(vals: Seq<u32>) -> u32
    decreases vals.len(),
{
    if vals.len() == 0 {
        1
    } else {
        u32_specs::wrapping_mul(wrapping_product(vals.drop_last()), vals.last())
    }
}

/// The seed folded from `vals`, or `DEFAULT_SEED` when there is nothing to
/// fold or the product is 0.
pub open spec fn seed_of_values(vals: Seq<u32>) -> u32 {
    if vals.len() == 0 || wrapping_product(vals) == 0 {
        DEFAULT_SEED
    } else {
        wrapping_product(vals)
    }
}

proof fn lemma_digits_value_prefix(d: Seq<u8>, k: int)
    requires
        0 <= k <= d.len(),
    ensures
        digits_value(d.subrange(0, k)) <= digits_value(d),
    decreases d.len(),
{
    if k < d.len() {
        lemma_digits_value_prefix(d.drop_last(), k);
        assert(d.drop_last().subrange(0, k) =~= d.subrange(0, k));
    } else {
        assert(d.subrange(0, k) =~= d);
    }
}

fn space1(b0: u8) -> (r: bool)
    ensures
        r == is_space1(b0),
{
    b0 == 0x20 || (0x09 <= b0 && b0 <= 0x0d)
}

fn space2(b0: u8, b1: u8) -> (r: bool)
    ensures
        r == is_space2(b0, b1),
{
    b0 == 0xc2 && (b1 == 0x85 || b1 == 0xa0)
}

fn space3(b0: u8, b1: u8, b2: u8) -> (r: bool)
    ensures
        r == is_space3(b0, b1, b2),
{
    (b0 == 0xe1 && b1 == 0x9a && b2 == 0x80) || (b0 == 0xe2 && b1 == 0x80 && ((0x80 <= b2 && b2
        <= 0x8a) || b2 == 0xa8 || b2 == 0xa9 || b2 == 0xaf)) || (b0 == 0xe2 && b1 == 0x81 && b2
        == 0x9f) || (b0 == 0xe3 && b1 == 0x80 && b2 == 0x80)
}

/// The length of the whitespace character at the start of `text[a..end]`.
fn space_len_at(text: &[u8], a: usize, end: usize) -> (k: usize)
    requires
        a <= end <= text@.len(),
    ensures
        k == leading_space_len(text@.subrange(a as int, end as int)),
{
    let n = end - a;
    if n >= 1 && space1(text[a]) {
        1
    } else if n >= 2 && space2(text[a], text[a + 1]) {
        2
    } else if n >= 3 && space3(text[a], text[a + 1], text[a + 2]) {
        3
    } else {
        0
    }
}

/// The length of the whitespace character at the end of `text[a..b]`.
fn space_len_before(text: &[u8], a: usize, b: usize) -> (k: usize)
    requires
        a <= b <= text@.len(),
    ensures
        k == trailing_space_len(text@.subrange(a as int, b as int)),
{
    let n = b - a;
    if n >= 1 && space1(text[b - 1]) {
        1
    } else if n >= 2 && space2(text[b - 2], text[b - 1]) {
        2
    } else if n >= 3 && space3(text[b - 3], text[b - 2], text[b - 1]) {
        3
    } else {
        0
    }
}

/// The number held by `text[start..end]`, read as `line_value` does.
pub(crate) fn parse_line(text: &[u8], start: usize, end: usize) -> (r: Option<u32>)
    requires
        start <= end <= text@.len(),
    ensures
        r == line_value(text@.subrange(start as int, end as int)),
{
    let ghost line = text@.subrange(start as int, end as int);
    let mut a = start;
    let mut k = space_len_at(text, a, end);
    while k > 0
        invariant
            start <= a <= end <= text@.len(),
            line == text@.subrange(start as int, end as int),
            trim_start(line) == trim_start(text@.subrange(a as int, end as int)),
            k == leading_space_len(text@.subrange(a as int, end as int)),
        decreases end - a,
    {
        assert(text@.subrange(a as int, end as int).subrange(k as int, end - a) =~= text@.subrange(
            a + k,
            end as int,
        ));
        a = a + k;
        k = space_len_at(text, a, end);
    }
    let mut b = end;
    let mut k = space_len_before(text, a, b);
    while k > 0
        invariant
            start <= a <= b <= end <= text@.len(),
            line == text@.subrange(start as int, end as int),
            trim_start(line) == text@.subrange(a as int, end as int),
            trim_end(trim_start(line)) == trim_end(text@.subrange(a as int, b as int)),
            k == trailing_space_len(text@.subrange(a as int, b as int)),
        decreases b - a,
    {
        assert(text@.subrange(a as int, b as int).subrange(0, b - a - k) =~= text@.subrange(
            a as int,
            b - k,
        ));
        b = b - k;
        k = space_len_before(text, a, b);
    }
    let ghost t = text@.subrange(a as int, b as int);
    assert(trim_end(trim_start(line)) == t);
    let mut p = a;
    if p < b && text[p] == PLUS {
        p = p + 1;
        assert(t.drop_first() =~= text@.subrange(p as int, b as int));
    } else {
        assert(t =~= text@.subrange(p as int, b as int));
    }
    let ghost d = text@.subrange(p as int, b as int);
    assert(line_value(line) == number_value(d));
    if p == b {
        return None;
    }
    let mut v: u64 = 0;
    let mut k = p;
    while k < b
        invariant
            start <= a <= p <= k <= b <= end <= text@.len(),
            line == text@.subrange(start as int, end as int),
            d == text@.subrange(p as int, b as int),
            line_value(line) == number_value(d),
            forall|i: int| 0 <= i < k - p ==> is_digit(#[trigger] d[i]),
            v <= u32::MAX,
            v == digits_value(d.subrange(0, k - p)),
        decreases b - k,
    {
        let c = text[k];
        if c < 48 || c > 57 {
            assert(!is_digit(d[k - p]));
            return None;
        }
        assert(d.subrange(0, k + 1 - p).drop_last() =~= d.subrange(0, k - p));
        v = v * 10 + (c - 48) as u64;
        k = k + 1;
        if v > u32::MAX as u64 {
            proof {
                lemma_digits_value_prefix(d, k - p);
            }
            return None;
        }
    }
    assert(d.subrange(0, d.len() as int) =~= d);
    Some(v as u32)
}

/// The numbers of the seed file `text`, one per line that holds one, in
/// order.
pub fn parse_seed_lines(text: &[u8]) -> (r: Vec<u32>)
    ensures
        r@ == seed_values(text@),
{
    let mut values: Vec<u32> = Vec::new();
    let mut start: usize = 0;
    let mut i: usize = 0;
    let ghost mut done: Seq<Seq<u8>> = Seq::empty();
    assert(text@.subrange(0, 0) =~= Seq::<u8>::empty());
    assert(split_lines(Seq::<u8>::empty()) =~= done.push(Seq::<u8>::empty()));
    while i < text.len()
        invariant
            start <= i <= text@.len(),
            split_lines(text@.subrange(0, i as int)) == done.push(
                text@.subrange(start as int, i as int),
            ),
            values@ == line_values(done),
        decreases text@.len() - i,
    {
        let ghost cur = text@.subrange(start as int, i as int);
        let ghost prefix = text@.subrange(0, i as int);
        assert(text@.subrange(0, i + 1).drop_last() =~= prefix);
        if text[i] == NEWLINE {
            let line = parse_line(text, start, i);
            proof {
                assert(done.push(cur).drop_last() =~= done);
                done = done.push(cur);
            }
            if let Some(n) = line {
                values.push(n);
            }
            start = i + 1;
            i = i + 1;
            assert(text@.subrange(start as int, i as int) =~= Seq::<u8>::empty());
        } else {
            i = i + 1;
            assert(text@.subrange(start as int, i as int) =~= cur.push(text@[i - 1]));
            assert(done.push(cur).drop_last() =~= done);
        }
    }
    let line = parse_line(text, start, i);
    let ghost last = text@.subrange(start as int, i as int);
    proof {
        assert(text@.subrange(0, i as int) =~= text@);
        assert(done.push(last).drop_last() =~= done);
    }
    if let Some(n) = line {
        values.push(n);
    }
    values
}

/// Folds `vals` into one seed: their wrapping product, or `DEFAULT_SEED`
/// when `vals` is empty or the product is 0.
pub fn fold_seed(vals: &Vec<u32>) -> (r: u32)
    ensures
        r == seed_of_values(vals@),
        r != 0,
{
    let mut acc: u32 = 1;
    let mut i: usize = 0;
    while i < vals.len()
        invariant
            i <= vals@.len(),
            acc == wrapping_product(vals@.subrange(0, i as int)),
        decreases vals@.len() - i,
    {
        assert(vals@.subrange(0, i + 1).drop_last() =~= vals@.subrange(0, i as int));
        acc = acc.wrapping_mul(vals[i]);
        i = i + 1;
    }
    assert(vals@.subrange(0, i as int) =~= vals@);
    if vals.len() == 0 || acc == 0 {
        DEFAULT_SEED
    } else {
        acc
    }
}

/// The seed derived from the seed file `text`.
pub fn seed_from_text(text: &[u8]) -> (r: u32)
    ensures
        r == seed_of_values(seed_values(text@)),
        r != 0,
{
    let vals = parse_seed_lines(text);
    fold_seed(&vals)
}

} // verus!
