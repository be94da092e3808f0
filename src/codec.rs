//! Fixed-width unsigned integers as bytes, in either byte order.
use vstd::prelude::*;
use vstd::arithmetic::div_mod::lemma_mod_breakdown;

use crate::ByteOrder;

verus! {

/// 256 to the power `n`.
pub open spec fn pow256(n: nat) -> nat
    decreases n,
{
    if n == 0 {
        1
    } else {
        256 * pow256((n - 1) as nat)
    }
}

/// The `n` low bytes of `v`, least significant first.
pub open spec fn le_bytes(v: nat, n: nat) -> Seq<u8>
    decreases n,
{
    if n == 0 {
        Seq::empty()
    } else {
        seq![(v % 256) as u8] + le_bytes(v / 256, (n - 1) as nat)
    }
}

/// The `n` low bytes of `v`, most significant first.
pub open spec fn be_bytes(v: nat, n: nat) -> Seq<u8>
    decreases n,
{
    if n == 0 {
        Seq::empty()
    } else {
        be_bytes(v / 256, (n - 1) as nat).push((v % 256) as u8)
    }
}

/// The `n` low bytes of `v` in byte order `order`.
pub open spec fn uint_bytes(v: nat, n: nat, order: ByteOrder) -> Seq<u8> {
    match order {
        ByteOrder::BE => be_bytes(v, n),
        ByteOrder::LE => le_bytes(v, n),
    }
}

/// The number whose bytes, least significant first, are `s`.
pub open spec fn le_value(s: Seq<u8>) -> nat
    decreases s.len(),
{
    if s.len() == 0 {
        0
    } else {
        s[0] as nat + 256 * le_value(s.drop_first())
    }
}

/// The number whose bytes, most significant first, are `s`.
pub open spec fn be_value(s: Seq<u8>) -> nat
    decreases s.len(),
{
    if s.len() == 0 {
        0
    } else {
        be_value(s.drop_last()) * 256 + s.last() as nat
    }
}

/// The number whose bytes in byte order `order` are `s`.
pub open spec fn uint_value(s: Seq<u8>, order: ByteOrder) -> nat {
    match order {
        ByteOrder::BE => be_value(s),
        ByteOrder::LE => le_value(s),
    }
}

pub proof fn lemma_pow256_pos(n: nat)
    ensures
        pow256(n) > 0,
    decreases n,
{
    if n > 0 {
        lemma_pow256_pos((n - 1) as nat);
    }
}

pub proof fn lemma_pow256_values()
    ensures
        pow256(1) == 0x100,
        pow256(2) == 0x1_0000,
        pow256(4) == 0x1_0000_0000,
        pow256(16) == 0x1_0000_0000_0000_0000_0000_0000_0000_0000,
{
    reveal_with_fuel(pow256, 17);
}

pub proof fn lemma_pow256_mono(m: nat, n: nat)
    requires
        m <= n,
    ensures
        pow256(m) <= pow256(n),
    decreases n,
{
    if m < n {
        lemma_pow256_mono(m, (n - 1) as nat);
    }
}

/// The encoding of a number has the width asked for.
pub proof fn lemma_uint_bytes_len(v: nat, n: nat, order: ByteOrder)
    ensures
        uint_bytes(v, n, order).len() == n,
    decreases n,
{
    if n > 0 {
        lemma_uint_bytes_len(v / 256, (n - 1) as nat, order);
    }
}

/// A number read back from its `n` bytes is the number modulo `256^n`.
pub proof fn lemma_uint_round_trip(v: nat, n: nat, order: ByteOrder)
    ensures
        uint_value(uint_bytes(v, n, order), order) == v % pow256(n),
    decreases n,
{
    if n == 0 {
        assert(uint_bytes(v, n, order) =~= Seq::empty());
    } else {
        let k = (n - 1) as nat;
        lemma_uint_round_trip(v / 256, k, order);
        lemma_pow256_pos(k);
        lemma_mod_breakdown(v as int, 256, pow256(k) as int);
        match order {
            ByteOrder::BE => {
                let s = be_bytes(v, n);
                assert(s.drop_last() =~= be_bytes(v / 256, k));
            },
            ByteOrder::LE => {
                let s = le_bytes(v, n);
                assert(s.drop_first() =~= le_bytes(v / 256, k));
            },
        }
    }
}

/// A number read from `s` is below `256^len(s)`.
pub proof fn lemma_uint_value_bound(s: Seq<u8>, order: ByteOrder)
    ensures
        uint_value(s, order) < pow256(s.len()),
    decreases s.len(),
{
    if s.len() > 0 {
        match order {
            ByteOrder::BE => lemma_uint_value_bound(s.drop_last(), order),
            ByteOrder::LE => lemma_uint_value_bound(s.drop_first(), order),
        }
    }
}

/// The `n` low bytes of `v` in byte order `order`.
pub fn encode_uint(v: u128, n: usize, order: ByteOrder) -> (r: Vec<u8>)
    ensures
        r@ == uint_bytes(v as nat, n as nat, order),
{
    let mut out: Vec<u8> = Vec::new();
    let mut cur: u128 = v;
    let mut i: usize = 0;
    match order {
        ByteOrder::LE => {
            while i < n
                invariant
                    i <= n,
                    le_bytes(v as nat, n as nat) == out@ + le_bytes(cur as nat, (n - i) as nat),
                decreases n - i,
            {
                let ghost before = out@;
                out.push((cur % 256) as u8);
                proof {
                    assert(before + le_bytes(cur as nat, (n - i) as nat) =~= out@ + le_bytes(
                        (cur / 256) as nat,
                        (n - i - 1) as nat,
                    ));
                }
                cur = cur / 256;
                i = i + 1;
            }
            assert(out@ + le_bytes(cur as nat, 0) =~= out@);
        },
        ByteOrder::BE => {
            while i < n
                invariant
                    i <= n,
                    be_bytes(v as nat, n as nat) == be_bytes(cur as nat, (n - i) as nat) + out@,
                decreases n - i,
            {
                let ghost before = out@;
                out.insert(0, (cur % 256) as u8);
                proof {
                    assert(be_bytes(cur as nat, (n - i) as nat) + before =~= be_bytes(
                        (cur / 256) as nat,
                        (n - i - 1) as nat,
                    ) + out@);
                }
                cur = cur / 256;
                i = i + 1;
            }
            assert(be_bytes(cur as nat, 0) + out@ =~= out@);
        },
    }
    out
}

/// The number whose bytes in byte order `order` are `data`.
pub fn decode_uint(data: &[u8], order: ByteOrder) -> (r: u128)
    requires
        data@.len() <= 16,
    ensures
        r as nat == uint_value(data@, order),
{
    let n = data.len();
    let mut acc: u128 = 0;
    proof {
        lemma_pow256_values();
    }
    match order {
        ByteOrder::BE => {
            let mut i: usize = 0;
            while i < n
                invariant
                    n == data@.len(),
                    n <= 16,
                    i <= n,
                    acc as nat == be_value(data@.subrange(0, i as int)),
                    pow256(16) == 0x1_0000_0000_0000_0000_0000_0000_0000_0000,
                decreases n - i,
            {
                proof {
                    lemma_uint_value_bound(data@.subrange(0, i as int), ByteOrder::BE);
                    lemma_pow256_mono((i + 1) as nat, 16);
                    assert(data@.subrange(0, i + 1).drop_last() =~= data@.subrange(0, i as int));
                }
                acc = acc * 256 + data[i] as u128;
                i = i + 1;
            }
            assert(data@.subrange(0, n as int) =~= data@);
        },
        ByteOrder::LE => {
            let mut i: usize = n;
            while i > 0
                invariant
                    n == data@.len(),
                    n <= 16,
                    i <= n,
                    acc as nat == le_value(data@.subrange(i as int, n as int)),
                    pow256(16) == 0x1_0000_0000_0000_0000_0000_0000_0000_0000,
                decreases i,
            {
                proof {
                    lemma_uint_value_bound(data@.subrange(i as int, n as int), ByteOrder::LE);
                    lemma_pow256_mono((n - i + 1) as nat, 16);
                    assert(data@.subrange(i - 1, n as int).drop_first() =~= data@.subrange(
                        i as int,
                        n as int,
                    ));
                }
                acc = acc * 256 + data[i - 1] as u128;
                i = i - 1;
            }
            assert(data@.subrange(0, n as int) =~= data@);
        },
    }
    acc
}

} // verus!
