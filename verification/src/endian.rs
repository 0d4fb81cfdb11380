//! Little-endian integers of a given width, as a mathematical encoding and as code.

use vstd::prelude::*;

verus! {

broadcast use vstd::slice::group_slice_axioms;

/// `256` to the power `width`: the number of values that `width` bytes can hold.
pub open spec fn capacity(width: nat) -> nat
    decreases width,
{
    if width == 0 {
        1
    } else {
        256 * capacity((width - 1) as nat)
    }
}

/// The little-endian encoding of `value` in `width` bytes: its `width` lowest base-256 digits,
/// the lowest first.
pub open spec fn le_bytes(value: nat, width: nat) -> Seq<u8>
    decreases width,
{
    if width == 0 {
        Seq::empty()
    } else {
        seq![(value % 256) as u8] + le_bytes(value / 256, (width - 1) as nat)
    }
}

/// The number that `bytes` spell in little-endian order.
pub open spec fn le_value(bytes: Seq<u8>) -> nat
    decreases bytes.len(),
{
    if bytes.len() == 0 {
        0
    } else {
        bytes[0] as nat + 256 * le_value(bytes.drop_first())
    }
}

/// An encoding has exactly `width` bytes.
pub proof fn lemma_le_bytes_len(value: nat, width: nat)
    ensures
        le_bytes(value, width).len() == width,
    decreases width,
{
    if width > 0 {
        lemma_le_bytes_len(value / 256, (width - 1) as nat);
    }
}

/// What `n` bytes spell is below `capacity(n)`.
pub proof fn lemma_le_value_bound(bytes: Seq<u8>)
    ensures
        le_value(bytes) < capacity(bytes.len()),
    decreases bytes.len(),
{
    if bytes.len() > 0 {
        lemma_le_value_bound(bytes.drop_first());
    }
}

/// Decoding undoes encoding for every value that fits the width.
pub proof fn lemma_le_value_of_bytes(value: nat, width: nat)
    requires
        value < capacity(width),
    ensures
        le_value(le_bytes(value, width)) == value,
    decreases width,
{
    if width > 0 {
        let rest = le_bytes(value / 256, (width - 1) as nat);
        let all = le_bytes(value, width);
        assert(all.drop_first() =~= rest);
        lemma_le_value_of_bytes(value / 256, (width - 1) as nat);
    }
}

/// The encoding in one more byte appends the next base-256 digit.
pub proof fn lemma_le_bytes_grow(value: nat, width: nat)
    ensures
        le_bytes(value, width + 1) == le_bytes(value, width).push(
            ((value / capacity(width)) % 256) as u8,
        ),
    decreases width,
{
    if width == 0 {
        assert(capacity(0) == 1);
        assert(le_bytes(value / 256, 0) =~= Seq::<u8>::empty());
        assert(le_bytes(value, 1) =~= Seq::<u8>::empty().push((value % 256) as u8));
    } else {
        let w1 = (width - 1) as nat;
        lemma_le_bytes_grow(value / 256, w1);
        lemma_capacity_positive(w1);
        assert((value / 256) / capacity(w1) == value / capacity(width)) by {
            lemma_div_div(value, capacity(w1));
        }
        assert(le_bytes(value, width + 1) =~= le_bytes(value, width).push(
            ((value / capacity(width)) % 256) as u8,
        ));
    }
}

/// Dividing by 256 and then by `d` is dividing by `256 * d`.
proof fn lemma_div_div(value: nat, d: nat)
    requires
        d > 0,
    ensures
        (value / 256) / d == value / (256 * d),
{
    vstd::arithmetic::div_mod::lemma_div_denominator(value as int, 256, d as int);
}

/// `capacity` is never zero.
pub proof fn lemma_capacity_positive(width: nat)
    ensures
        capacity(width) > 0,
    decreases width,
{
    if width > 0 {
        lemma_capacity_positive((width - 1) as nat);
    }
}

/// The capacities of the two field widths in use, and of a single byte.
pub proof fn lemma_capacity_values()
    ensures
        capacity(0) == 1,
        capacity(1) == 0x100,
        capacity(4) == 0x1_0000_0000,
        capacity(8) == 0x1_0000_0000_0000_0000,
{
    reveal_with_fuel(capacity, 9);
}

/// Appends the little-endian encoding of `value` in `width` bytes to `out`.
pub fn put_le(out: &mut Vec<u8>, value: u64, width: usize)
    requires
        width <= 8,
    ensures
        final(out)@ == old(out)@ + le_bytes(value as nat, width as nat),
{
    let ghost before = out@;
    let mut rest: u64 = value;
    let mut i: usize = 0;
    assert(out@ =~= before + le_bytes(value as nat, 0));
    assert(capacity(0) == 1);
    while i < width
        invariant
            i <= width <= 8,
            out@ == before + le_bytes(value as nat, i as nat),
            rest as nat == value as nat / capacity(i as nat),
        decreases width - i,
    {
        proof {
            lemma_le_bytes_grow(value as nat, i as nat);
            lemma_capacity_positive(i as nat);
            vstd::arithmetic::div_mod::lemma_div_denominator(
                value as int,
                capacity(i as nat) as int,
                256,
            );
        }
        let digit: u8 = (rest % 256) as u8;
        out.push(digit);
        rest = rest / 256;
        i = i + 1;
        assert(out@ =~= before + le_bytes(value as nat, i as nat));
    }
}

/// Reads the `width` bytes of `bytes` that start at `pos` as a little-endian number.
pub fn get_le(bytes: &[u8], pos: usize, width: usize) -> (value: u64)
    requires
        width <= 8,
        pos + width <= bytes@.len(),
    ensures
        value as nat == le_value(bytes@.subrange(pos as int, pos + width)),
        (value as nat) < capacity(width as nat),
{
    let ghost end = pos + width;
    assert(bytes@.len() == bytes.len());
    let mut value: u64 = 0;
    let mut k: usize = width;
    assert(bytes@.subrange(end, end).len() == 0);
    while k > 0
        invariant
            k <= width <= 8,
            end == pos + width,
            pos + width <= bytes@.len() <= usize::MAX,
            value as nat == le_value(bytes@.subrange(pos + k, end)),
            (value as nat) < capacity((width - k) as nat),
        decreases k,
    {
        k = k - 1;
        let digit: u8 = bytes[pos + k];
        proof {
            let field = bytes@.subrange(pos + k, end);
            assert(field.drop_first() =~= bytes@.subrange(pos + k + 1, end));
            assert(field[0] == digit);
            assert(capacity((width - k) as nat) == 256 * capacity((width - k - 1) as nat));
            lemma_capacity_values();
            lemma_capacity_monotonic((width - k) as nat, 8);
        }
        value = value * 256 + digit as u64;
    }
    value
}

/// More bytes hold at least as many values.
pub proof fn lemma_capacity_monotonic(narrow: nat, wide: nat)
    requires
        narrow <= wide,
    ensures
        capacity(narrow) <= capacity(wide),
    decreases wide,
{
    if narrow < wide {
        lemma_capacity_monotonic(narrow, (wide - 1) as nat);
    }
}

/// What two fields spell together: the first holds the low digits, the second the high ones.
pub proof fn lemma_le_value_concat(low: Seq<u8>, high: Seq<u8>)
    ensures
        le_value(low + high) == le_value(low) + capacity(low.len()) * le_value(high),
    decreases low.len(),
{
    if low.len() == 0 {
        assert(low + high =~= high);
        assert(capacity(0) == 1);
    } else {
        let rest = low.drop_first();
        assert((low + high).drop_first() =~= rest + high);
        lemma_le_value_concat(rest, high);
        let c = capacity(rest.len());
        let h = le_value(high);
        assert(capacity(low.len()) == 256 * c);
        assert(256 * (c * h) == (256 * c) * h) by (nonlinear_arith);
    }
}

/// The encoding of a value in two fields: the low digits in the first, the rest in the
/// second.
pub proof fn lemma_le_bytes_split(value: nat, low: nat, high: nat)
    ensures
        le_bytes(value, low + high) == le_bytes(value, low) + le_bytes(
            value / capacity(low),
            high,
        ),
    decreases low,
{
    if low == 0 {
        assert(capacity(0) == 1);
        assert(le_bytes(value, 0) + le_bytes(value, high) =~= le_bytes(value, high));
    } else {
        let l1 = (low - 1) as nat;
        lemma_le_bytes_split(value / 256, l1, high);
        lemma_capacity_positive(l1);
        lemma_div_div(value, capacity(l1));
        assert(le_bytes(value, low + high) =~= le_bytes(value, low) + le_bytes(
            value / capacity(low),
            high,
        ));
    }
}

} // verus!
