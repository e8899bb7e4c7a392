//! Numbers as bytes: how a number is written in a fixed count of bytes, most
//! or least significant byte first, and how it is read back.

use vstd::prelude::*;

verus! {

/// 256 to the power of `n`.
pub open spec fn radix_pow(n: nat) -> nat
    decreases n,
{
    if n == 0 {
        1
    } else {
        256 * radix_pow((n - 1) as nat)
    }
}

/// The number that the bytes of `s` spell, most significant byte first.
pub open spec fn be_value(s: Seq<u8>) -> nat
    decreases s.len(),
{
    if s.len() == 0 {
        0
    } else {
        be_value(s.drop_last()) * 256 + s.last() as nat
    }
}

/// The `n` low bytes of `x`, most significant byte first.
pub open spec fn be_bytes(x: nat, n: nat) -> Seq<u8>
    decreases n,
{
    if n == 0 {
        Seq::empty()
    } else {
        be_bytes(x / 256, (n - 1) as nat).push((x % 256) as u8)
    }
}

/// The `n` low bytes of `x`, least significant byte first.
pub open spec fn le_bytes(x: nat, n: nat) -> Seq<u8>
    decreases n,
{
    if n == 0 {
        Seq::empty()
    } else {
        seq![(x % 256) as u8] + le_bytes(x / 256, (n - 1) as nat)
    }
}

/// The powers of 256 that the widths of four, eight and sixteen bytes need.
pub proof fn lemma_radix_pow_values()
    ensures
        radix_pow(4) == 0x1_0000_0000,
        radix_pow(8) == 0x1_0000_0000_0000_0000,
        radix_pow(15) == 0x1_0000_0000_0000_0000_0000_0000_0000_00,
        radix_pow(16) == 0x1_0000_0000_0000_0000_0000_0000_0000_0000,
{
    reveal_with_fuel(radix_pow, 17);
}

/// A greater power of 256 is the greater number.
pub proof fn lemma_radix_pow_grows(m: nat, n: nat)
    requires
        m <= n,
    ensures
        0 < radix_pow(m) <= radix_pow(n),
    decreases n,
{
    if n == 0 {
    } else if m == n {
        lemma_radix_pow_grows((n - 1) as nat, (n - 1) as nat);
    } else {
        lemma_radix_pow_grows(m, (n - 1) as nat);
    }
}

/// A number written in `n` bytes, most significant first, takes `n` bytes.
pub proof fn lemma_be_bytes_len(x: nat, n: nat)
    ensures
        be_bytes(x, n).len() == n,
    decreases n,
{
    if n > 0 {
        lemma_be_bytes_len(x / 256, (n - 1) as nat);
    }
}

/// A number written in `n` bytes, least significant first, takes `n` bytes.
pub proof fn lemma_le_bytes_len(x: nat, n: nat)
    ensures
        le_bytes(x, n).len() == n,
    decreases n,
{
    if n > 0 {
        lemma_le_bytes_len(x / 256, (n - 1) as nat);
    }
}

/// The bytes least significant first are the bytes most significant first,
/// turned round.
pub proof fn lemma_le_is_be_reversed(x: nat, n: nat)
    ensures
        le_bytes(x, n).reverse() == be_bytes(x, n),
    decreases n,
{
    if n == 0 {
        assert(le_bytes(x, n).reverse() =~= be_bytes(x, n));
    } else {
        lemma_le_is_be_reversed(x / 256, (n - 1) as nat);
        lemma_le_bytes_len(x / 256, (n - 1) as nat);
        lemma_be_bytes_len(x / 256, (n - 1) as nat);
        let tail = le_bytes(x / 256, (n - 1) as nat);
        let whole = seq![(x % 256) as u8] + tail;
        assert(whole.reverse() =~= tail.reverse().push((x % 256) as u8));
    }
}

/// What `n` bytes spell is below 256 to the power of `n`.
pub proof fn lemma_be_value_bound(s: Seq<u8>)
    ensures
        be_value(s) < radix_pow(s.len()),
    decreases s.len(),
{
    if s.len() > 0 {
        lemma_be_value_bound(s.drop_last());
    }
}

/// Reading the bytes of a number that fits gives the number.
pub proof fn lemma_be_value_of_bytes(x: nat, n: nat)
    requires
        x < radix_pow(n),
    ensures
        be_value(be_bytes(x, n)) == x,
    decreases n,
{
    if n > 0 {
        let front = be_bytes(x / 256, (n - 1) as nat);
        let whole = front.push((x % 256) as u8);
        assert(whole.drop_last() =~= front);
        lemma_be_value_of_bytes(x / 256, (n - 1) as nat);
    }
}

/// Writing what bytes spell gives the bytes.
pub proof fn lemma_be_bytes_of_value(s: Seq<u8>)
    ensures
        be_bytes(be_value(s), s.len()) == s,
    decreases s.len(),
{
    if s.len() == 0 {
        assert(be_bytes(be_value(s), s.len()) =~= s);
    } else {
        lemma_be_bytes_of_value(s.drop_last());
        let v = be_value(s.drop_last());
        assert((v * 256 + s.last() as nat) / 256 == v);
        assert((v * 256 + s.last() as nat) % 256 == s.last() as nat);
        assert(s.drop_last().push(s.last()) =~= s);
    }
}

/// What two byte strings spell one after the other: the first shifted by the
/// length of the second, plus the second.
pub proof fn lemma_be_value_concat(a: Seq<u8>, b: Seq<u8>)
    ensures
        be_value(a + b) == be_value(a) * radix_pow(b.len()) + be_value(b),
    decreases b.len(),
{
    if b.len() == 0 {
        assert(a + b =~= a);
        assert(radix_pow(b.len()) == 1);
        assert(be_value(b) == 0);
        assert(be_value(a) * 1 == be_value(a));
    } else {
        lemma_be_value_concat(a, b.drop_last());
        assert((a + b).drop_last() =~= a + b.drop_last());
        assert((a + b).last() == b.last());
        let p = radix_pow((b.len() - 1) as nat);
        let high = be_value(a);
        let low = be_value(b.drop_last());
        assert(radix_pow(b.len()) == 256 * p);
        assert(be_value(a + b) == (high * p + low) * 256 + b.last() as nat);
        assert(be_value(b) == low * 256 + b.last() as nat);
        assert((high * p + low) * 256 == high * (256 * p) + low * 256) by (nonlinear_arith);
        assert(be_value(a + b) == high * radix_pow(b.len()) + be_value(b));
    }
}

/// Reads the bytes of `bytes` from `from` up to `to`, at most sixteen, as a
/// number, most significant byte first.
pub fn read_be(bytes: &[u8], from: usize, to: usize) -> (x: u128)
    requires
        from <= to <= bytes@.len(),
        to - from <= 16,
    ensures
        x == be_value(bytes@.subrange(from as int, to as int)),
{
    let mut x: u128 = 0;
    let mut i: usize = from;
    while i < to
        invariant
            from <= i <= to <= bytes@.len(),
            to - from <= 16,
            x == be_value(bytes@.subrange(from as int, i as int)),
        decreases to - i,
    {
        proof {
            let done = bytes@.subrange(from as int, i as int);
            let next = bytes@.subrange(from as int, i + 1);
            assert(next.drop_last() =~= done);
            assert(next.last() == bytes@[i as int]);
            lemma_be_value_bound(done);
            lemma_radix_pow_grows(done.len(), 15);
            lemma_radix_pow_values();
        }
        x = x * 256 + bytes[i] as u128;
        i += 1;
    }
    x
}

/// Appends to `out` the `n` low bytes of `x`, least significant byte first.
pub fn write_le(out: &mut Vec<u8>, x: u128, n: usize)
    ensures
        final(out)@ == old(out)@ + le_bytes(x as nat, n as nat),
{
    let ghost before = out@;
    let mut rest: u128 = x;
    let mut i: usize = 0;
    proof {
        assert(before + le_bytes(x as nat, n as nat) =~= out@ + le_bytes(
            rest as nat,
            (n - i) as nat,
        ));
    }
    while i < n
        invariant
            i <= n,
            before + le_bytes(x as nat, n as nat) == out@ + le_bytes(rest as nat, (n - i) as nat),
        decreases n - i,
    {
        let ghost held = out@;
        out.push((rest % 256) as u8);
        proof {
            let tail = le_bytes((rest / 256) as nat, (n - i - 1) as nat);
            assert(held + (seq![(rest % 256) as u8] + tail) =~= out@ + tail);
        }
        rest = rest / 256;
        i += 1;
    }
    proof {
        assert(out@ + le_bytes(rest as nat, 0) =~= out@);
    }
}

/// Appends to `out` the `n` low bytes of `x`, most significant byte first.
pub fn write_be(out: &mut Vec<u8>, x: u128, n: usize)
    ensures
        final(out)@ == old(out)@ + be_bytes(x as nat, n as nat),
{
    let mut low_first: Vec<u8> = Vec::new();
    write_le(&mut low_first, x, n);
    proof {
        assert(low_first@ =~= le_bytes(x as nat, n as nat));
        lemma_le_is_be_reversed(x as nat, n as nat);
        lemma_le_bytes_len(x as nat, n as nat);
    }
    let ghost before = out@;
    let mut i: usize = n;
    while i > 0
        invariant
            i <= n,
            low_first@.len() == n,
            out@.len() == before.len() + (n - i),
            forall|j: int| 0 <= j < before.len() ==> out@[j] == before[j],
            forall|j: int|
                before.len() <= j < out@.len() ==> out@[j] == low_first@[n - 1 - (j
                    - before.len())],
        decreases i,
    {
        i -= 1;
        out.push(low_first[i]);
    }
    proof {
        assert(out@ =~= before + low_first@.reverse());
    }
}

} // verus!
