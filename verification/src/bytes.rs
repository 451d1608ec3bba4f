//! Integers in byte sequences.
use vstd::prelude::*;

verus! {

/// The number that bytes denote, most significant first.
pub open spec fn big_endian(bytes: Seq<u8>) -> nat
    decreases bytes.len(),
{
    if bytes.len() == 0 {
        0
    } else {
        big_endian(bytes.drop_last()) * 256 + bytes.last() as nat
    }
}

/// The number that bytes denote, least significant first.
pub open spec fn little_endian(bytes: Seq<u8>) -> nat {
    big_endian(bytes.reverse())
}

/// How many numbers a width of bytes denotes.
pub open spec fn span(width: nat) -> nat
    decreases width,
{
    if width == 0 {
        1
    } else {
        256 * span((width - 1) as nat)
    }
}

pub proof fn lemma_big_endian_bound(bytes: Seq<u8>)
    ensures
        big_endian(bytes) < span(bytes.len()),
    decreases bytes.len(),
{
    if bytes.len() > 0 {
        lemma_big_endian_bound(bytes.drop_last());
    }
}

proof fn lemma_span_grows(small: nat, large: nat)
    requires
        small <= large,
    ensures
        span(small) <= span(large),
        span(small) >= 1,
    decreases large,
{
    if large > 0 {
        if small < large {
            lemma_span_grows(small, (large - 1) as nat);
        } else {
            lemma_span_grows((small - 1) as nat, (small - 1) as nat);
        }
    }
}

proof fn lemma_span_eight()
    ensures
        span(8) == 0x1_0000_0000_0000_0000,
        span(4) == 0x1_0000_0000,
        span(2) == 0x1_0000,
{
    reveal_with_fuel(span, 9);
}

/// The number in `data[at..at + width]`, most significant byte first.
pub fn read_big_endian(data: &[u8], at: usize, width: usize) -> (value: u64)
    requires
        at + width <= data@.len(),
        width <= 8,
    ensures
        value as nat == big_endian(data@.subrange(at as int, at + width)),
        (value as nat) < span(width as nat),
{
    let size = data.len();
    let mut value: u64 = 0;
    let mut i: usize = 0;
    while i < width
        invariant
            at + width <= size,
            size == data@.len(),
            i <= width <= 8,
            value as nat == big_endian(data@.subrange(at as int, at + i)),
        decreases width - i,
    {
        let ghost prefix = data@.subrange(at as int, at + i);
        let ghost longer = data@.subrange(at as int, at + i + 1);
        proof {
            assert(longer.drop_last() =~= prefix);
            lemma_big_endian_bound(longer);
            lemma_span_grows((i + 1) as nat, 8);
            lemma_span_eight();
        }
        value = value * 256 + data[at + i] as u64;
        i = i + 1;
    }
    proof {
        lemma_big_endian_bound(data@.subrange(at as int, at + width));
    }
    value
}

/// The number in `data[at..at + width]`, least significant byte first.
pub fn read_little_endian(data: &[u8], at: usize, width: usize) -> (value: u64)
    requires
        at + width <= data@.len(),
        width <= 8,
    ensures
        value as nat == little_endian(data@.subrange(at as int, at + width)),
        (value as nat) < span(width as nat),
{
    let ghost part = data@.subrange(at as int, at + width);
    let size = data.len();
    let mut value: u64 = 0;
    let mut i: usize = width;
    proof {
        assert(part.reverse().take(0) =~= Seq::<u8>::empty());
    }
    while i > 0
        invariant
            at + width <= size,
            size == data@.len(),
            i <= width <= 8,
            part == data@.subrange(at as int, at + width),
            value as nat == big_endian(part.reverse().take(width - i)),
        decreases i,
    {
        i = i - 1;
        let ghost longer = part.reverse().take(width - i);
        proof {
            assert(longer.drop_last() =~= part.reverse().take(width - i - 1));
            assert(longer.last() == data@[at + i]);
            lemma_big_endian_bound(longer);
            lemma_span_grows((width - i) as nat, 8);
            lemma_span_eight();
        }
        value = value * 256 + data[at + i] as u64;
    }
    proof {
        assert(part.reverse().take(width as int) =~= part.reverse());
        lemma_big_endian_bound(part.reverse());
    }
    value
}

/// The 32-bit number in `data[at..at + 4]`, most significant byte first.
pub fn read_u32(data: &[u8], at: usize) -> (value: u32)
    requires
        at + 4 <= data@.len(),
    ensures
        value as nat == big_endian(data@.subrange(at as int, at + 4)),
{
    let wide = read_big_endian(data, at, 4);
    proof {
        lemma_span_eight();
    }
    wide as u32
}

/// The signed number that a number of a width denotes in two's complement.
pub open spec fn signed(value: nat, width: nat) -> int {
    if 2 * value < span(width) {
        value as int
    } else {
        value - span(width)
    }
}

/// The signed 32-bit number in `data[at..at + 4]`, most significant byte first.
pub fn read_i32(data: &[u8], at: usize) -> (value: i32)
    requires
        at + 4 <= data@.len(),
    ensures
        value as int == signed(big_endian(data@.subrange(at as int, at + 4)), 4),
{
    let wide = read_big_endian(data, at, 4);
    proof {
        lemma_span_eight();
    }
    (if wide < 0x8000_0000 {
        wide as i64
    } else {
        wide as i64 - 0x1_0000_0000
    }) as i32
}

/// The signed 64-bit number in `data[at..at + 8]`, most significant byte first.
pub fn read_i64(data: &[u8], at: usize) -> (value: i64)
    requires
        at + 8 <= data@.len(),
    ensures
        value as int == signed(big_endian(data@.subrange(at as int, at + 8)), 8),
{
    let wide = read_big_endian(data, at, 8);
    proof {
        lemma_span_eight();
    }
    if wide < 0x8000_0000_0000_0000 {
        wide as i64
    } else {
        -((u64::MAX - wide) as i64) - 1
    }
}

} // verus!
