//! Big-endian integers on the wire: the mathematical model and the
//! executable readers and writers that the message codecs share.

use vstd::prelude::*;

verus! {

/// `256` raised to the power `n`.
pub open spec fn pow256(n: nat) -> nat
    decreases n,
{
    if n == 0 {
        1
    } else {
        256 * pow256((n - 1) as nat)
    }
}

/// The unsigned integer that a byte sequence denotes in big-endian order.
pub open spec fn be_value(s: Seq<u8>) -> nat
    decreases s.len(),
{
    if s.len() == 0 {
        0
    } else {
        (be_value(s.drop_last()) * 256 + s.last() as nat) as nat
    }
}

/// The `n` low-order bytes of `v`, most significant first.
pub open spec fn be_bytes(v: nat, n: nat) -> Seq<u8>
    decreases n,
{
    if n == 0 {
        Seq::empty()
    } else {
        be_bytes(v / 256, (n - 1) as nat).push((v % 256) as u8)
    }
}

/// Two-byte big-endian encoding.
pub open spec fn u16_bytes(v: u16) -> Seq<u8> {
    be_bytes(v as nat, 2)
}

/// Four-byte big-endian encoding.
pub open spec fn u32_bytes(v: u32) -> Seq<u8> {
    be_bytes(v as nat, 4)
}

pub proof fn lemma_pow256_positive(n: nat)
    ensures
        pow256(n) > 0,
    decreases n,
{
    if n > 0 {
        lemma_pow256_positive((n - 1) as nat);
    }
}

pub proof fn lemma_pow256_monotonic(a: nat, b: nat)
    requires
        a <= b,
    ensures
        pow256(a) <= pow256(b),
    decreases b,
{
    if a < b {
        lemma_pow256_monotonic(a, (b - 1) as nat);
        lemma_pow256_positive((b - 1) as nat);
    }
}

pub proof fn lemma_pow256_small()
    ensures
        pow256(1) == 256,
        pow256(2) == 65536,
        pow256(4) == 0x1_0000_0000,
        pow256(16) == 0x1_0000_0000_0000_0000_0000_0000_0000_0000,
{
    reveal_with_fuel(pow256, 17);
}

pub proof fn lemma_be_bytes_len(v: nat, n: nat)
    ensures
        be_bytes(v, n).len() == n,
    decreases n,
{
    if n > 0 {
        lemma_be_bytes_len(v / 256, (n - 1) as nat);
    }
}

pub proof fn lemma_be_value_bound(s: Seq<u8>)
    ensures
        be_value(s) < pow256(s.len()),
    decreases s.len(),
{
    if s.len() > 0 {
        lemma_be_value_bound(s.drop_last());
        let x = be_value(s.drop_last());
        let p = pow256((s.len() - 1) as nat);
        assert(x * 256 + s.last() < p * 256) by (nonlinear_arith)
            requires
                x < p,
                s.last() < 256,
        ;
    }
}

/// Encoding a value that fits and reading it back gives the value.
pub proof fn lemma_be_value_of_bytes(v: nat, n: nat)
    requires
        v < pow256(n),
    ensures
        be_value(be_bytes(v, n)) == v,
    decreases n,
{
    if n > 0 {
        let p = pow256((n - 1) as nat);
        assert(v / 256 < p) by (nonlinear_arith)
            requires
                v < 256 * p,
        ;
        lemma_be_value_of_bytes(v / 256, (n - 1) as nat);
        let s = be_bytes(v, n);
        assert(s.drop_last() =~= be_bytes(v / 256, (n - 1) as nat));
        assert((v / 256) * 256 + v % 256 == v) by (nonlinear_arith);
    }
}

/// Reading bytes and encoding the value in as many bytes gives the bytes.
pub proof fn lemma_be_bytes_of_value(s: Seq<u8>)
    ensures
        be_bytes(be_value(s), s.len()) == s,
    decreases s.len(),
{
    if s.len() > 0 {
        let x = be_value(s.drop_last());
        let b = s.last() as nat;
        let v = be_value(s);
        assert(v / 256 == x && v % 256 == b) by (nonlinear_arith)
            requires
                v == x * 256 + b,
                b < 256,
        ;
        lemma_be_bytes_of_value(s.drop_last());
        assert(be_bytes(v, s.len()) =~= s.drop_last().push(s.last()));
        assert(s.drop_last().push(s.last()) =~= s);
    }
}

/// Big-endian value of a byte range of `data`.
pub fn read_be(data: &[u8], pos: usize, n: usize) -> (r: u128)
    requires
        n <= 16,
        pos + n <= data@.len(),
    ensures
        r as nat == be_value(data@.subrange(pos as int, pos + n)),
        (r as nat) < pow256(n as nat),
{
    let mut acc: u128 = 0;
    let mut i: usize = 0;
    proof {
        assert(data@.subrange(pos as int, pos as int) =~= Seq::<u8>::empty());
    }
    while i < n
        invariant
            i <= n,
            n <= 16,
            pos + n <= data@.len(),
            pos + n <= data.len(),
            acc as nat == be_value(data@.subrange(pos as int, pos + i)),
            (acc as nat) < pow256(i as nat),
        decreases n - i,
    {
        let b = data[pos + i];
        proof {
            lemma_pow256_monotonic((i + 1) as nat, 16);
            lemma_pow256_small();
            assert(acc * 256 + b < pow256(i as nat) * 256) by (nonlinear_arith)
                requires
                    acc < pow256(i as nat),
                    b < 256,
            ;
            let s = data@.subrange(pos as int, pos + i + 1);
            assert(s.drop_last() =~= data@.subrange(pos as int, pos + i));
        }
        acc = acc * 256 + b as u128;
        i = i + 1;
    }
    acc
}

/// Appends the `n` low-order bytes of `v`, most significant first.
pub fn push_be(out: &mut Vec<u8>, v: u128, n: usize)
    requires
        n <= 16,
    ensures
        final(out)@ == old(out)@ + be_bytes(v as nat, n as nat),
    decreases n,
{
    if n == 0 {
        assert(old(out)@ + be_bytes(v as nat, 0) =~= old(out)@);
    } else {
        push_be(out, v / 256, n - 1);
        out.push((v % 256) as u8);
        assert(old(out)@ + be_bytes(v as nat, n as nat) =~= old(out)@ + be_bytes(
            (v / 256) as nat,
            (n - 1) as nat,
        ) + seq![(v % 256) as u8]);
    }
}

/// Reads a big-endian `u16` at `pos`.
pub fn read_u16(data: &[u8], pos: usize) -> (r: u16)
    requires
        pos + 2 <= data@.len(),
    ensures
        r as nat == be_value(data@.subrange(pos as int, pos + 2)),
{
    let v = read_be(data, pos, 2);
    proof {
        lemma_pow256_small();
    }
    v as u16
}

/// Reads a big-endian `u32` at `pos`.
pub fn read_u32(data: &[u8], pos: usize) -> (r: u32)
    requires
        pos + 4 <= data@.len(),
    ensures
        r as nat == be_value(data@.subrange(pos as int, pos + 4)),
{
    let v = read_be(data, pos, 4);
    proof {
        lemma_pow256_small();
    }
    v as u32
}

/// Appends a big-endian `u16`.
pub fn push_u16(out: &mut Vec<u8>, v: u16)
    ensures
        final(out)@ == old(out)@ + u16_bytes(v),
{
    push_be(out, v as u128, 2);
}

/// Appends a big-endian `u32`.
pub fn push_u32(out: &mut Vec<u8>, v: u32)
    ensures
        final(out)@ == old(out)@ + u32_bytes(v),
{
    push_be(out, v as u128, 4);
}

/// Appends a slice.
pub fn push_slice(out: &mut Vec<u8>, data: &[u8])
    ensures
        final(out)@ == old(out)@ + data@,
{
    let mut i: usize = 0;
    while i < data.len()
        invariant
            i <= data@.len(),
            out@ == old(out)@ + data@.subrange(0, i as int),
        decreases data@.len() - i,
    {
        out.push(data[i]);
        i = i + 1;
        assert(out@ =~= old(out)@ + data@.subrange(0, i as int));
    }
    assert(data@.subrange(0, data@.len() as int) =~= data@);
}

/// Reading a `u16` back from its encoding.
pub proof fn lemma_u16_roundtrip(v: u16)
    ensures
        u16_bytes(v).len() == 2,
        be_value(u16_bytes(v)) == v as nat,
{
    lemma_pow256_small();
    lemma_be_bytes_len(v as nat, 2);
    lemma_be_value_of_bytes(v as nat, 2);
}

/// Reading a `u32` back from its encoding.
pub proof fn lemma_u32_roundtrip(v: u32)
    ensures
        u32_bytes(v).len() == 4,
        be_value(u32_bytes(v)) == v as nat,
{
    lemma_pow256_small();
    lemma_be_bytes_len(v as nat, 4);
    lemma_be_value_of_bytes(v as nat, 4);
}

/// The concatenation of `f` applied to each element of `s`, in order.
pub open spec fn flat_map_bytes<T>(s: Seq<T>, f: spec_fn(T) -> Seq<u8>) -> Seq<u8>
    decreases s.len(),
{
    if s.len() == 0 {
        Seq::empty()
    } else {
        flat_map_bytes(s.drop_last(), f) + f(s.last())
    }
}

/// Splitting off the first element of a concatenation.
pub proof fn lemma_flat_map_cons<T>(x: T, s: Seq<T>, f: spec_fn(T) -> Seq<u8>)
    ensures
        flat_map_bytes(seq![x] + s, f) == f(x) + flat_map_bytes(s, f),
    decreases s.len(),
{
    let xs = seq![x] + s;
    if s.len() == 0 {
        assert(xs.drop_last() =~= Seq::<T>::empty());
        assert(xs.last() == x);
        assert(flat_map_bytes(xs, f) == flat_map_bytes(xs.drop_last(), f) + f(x));
        assert(flat_map_bytes(s, f) == Seq::<u8>::empty());
        assert(flat_map_bytes(xs, f) =~= f(x) + flat_map_bytes(s, f));
    } else {
        lemma_flat_map_cons(x, s.drop_last(), f);
        assert(xs.drop_last() =~= seq![x] + s.drop_last());
        assert(xs.last() == s.last());
        assert(flat_map_bytes(xs, f) == flat_map_bytes(xs.drop_last(), f) + f(xs.last()));
        assert(flat_map_bytes(s, f) == flat_map_bytes(s.drop_last(), f) + f(s.last()));
        assert(flat_map_bytes(xs, f) =~= f(x) + flat_map_bytes(s, f));
    }
}

/// Appending one element to the end of a concatenation.
pub proof fn lemma_flat_map_push<T>(s: Seq<T>, x: T, f: spec_fn(T) -> Seq<u8>)
    ensures
        flat_map_bytes(s.push(x), f) == flat_map_bytes(s, f) + f(x),
{
    assert(s.push(x).drop_last() =~= s);
}

/// Concatenating over a prefix one element longer.
pub proof fn lemma_flat_map_take<T>(s: Seq<T>, i: int, f: spec_fn(T) -> Seq<u8>)
    requires
        0 <= i < s.len(),
    ensures
        flat_map_bytes(s.take(i + 1), f) == flat_map_bytes(s.take(i), f) + f(s[i]),
{
    assert(s.take(i + 1) =~= s.take(i).push(s[i]));
    lemma_flat_map_push(s.take(i), s[i], f);
}

} // verus!
