//! LEB128 variable-length integers, as protobuf writes them.
use vstd::prelude::*;

verus! {

/// The bytes of `v` in LEB128: seven bits per byte, least significant group
/// first, the high bit set on every byte but the last.
pub open spec fn varint_bytes(v: nat) -> Seq<u8>
    decreases v,
{
    if v < 128 {
        seq![v as u8]
    } else {
        seq![((v % 128) + 128) as u8] + varint_bytes(v / 128)
    }
}

/// The value and length of the LEB128 number at the front of `s`, reading at
/// most `n` bytes.
pub open spec fn varint_prefix(s: Seq<u8>, n: nat) -> Option<(nat, nat)>
    decreases n,
{
    if n == 0 || s.len() == 0 {
        None
    } else if s[0] < 128 {
        Some((s[0] as nat, 1nat))
    } else {
        match varint_prefix(s.drop_first(), (n - 1) as nat) {
            Some((v, l)) => Some((((s[0] - 128) + 128 * v) as nat, l + 1)),
            None => None,
        }
    }
}

/// The varint at the front of `s`: at most ten bytes, its value a `u64`.
pub open spec fn varint_at(s: Seq<u8>) -> Option<(u64, nat)> {
    match varint_prefix(s, 10) {
        Some((v, l)) => if v <= u64::MAX {
            Some((v as u64, l))
        } else {
            None
        },
        None => None,
    }
}

pub open spec fn pow128(n: nat) -> nat
    decreases n,
{
    if n == 0 {
        1
    } else {
        128 * pow128((n - 1) as nat)
    }
}

pub proof fn lemma_varint_prefix_len(s: Seq<u8>, n: nat)
    ensures
        varint_prefix(s, n) matches Some((v, l)) ==> 1 <= l <= s.len() && l <= n,
    decreases n,
{
    if n > 0 && s.len() > 0 && s[0] >= 128 {
        lemma_varint_prefix_len(s.drop_first(), (n - 1) as nat);
    }
}

pub proof fn lemma_varint_bytes_len(v: nat, n: nat)
    requires
        n >= 1,
        v < pow128(n),
    ensures
        1 <= varint_bytes(v).len() <= n,
    decreases v,
{
    if v >= 128 {
        let p = pow128((n - 1) as nat);
        assert(n >= 2) by {
            if n == 1 {
                assert(pow128(1) == 128 * pow128(0));
            }
        }
        assert(v / 128 < p) by (nonlinear_arith)
            requires
                v < 128 * p,
        ;
        lemma_varint_bytes_len(v / 128, (n - 1) as nat);
    }
}

/// A varint written by `varint_bytes` reads back, whatever follows it.
pub proof fn lemma_varint_prefix_bytes(v: nat, n: nat, rest: Seq<u8>)
    requires
        varint_bytes(v).len() <= n,
    ensures
        varint_prefix(varint_bytes(v) + rest, n) == Some((v, varint_bytes(v).len())),
    decreases v,
{
    let s = varint_bytes(v) + rest;
    if v < 128 {
        assert(s[0] == v as u8);
    } else {
        let tail = varint_bytes(v / 128);
        assert(s.drop_first() =~= tail + rest);
        assert(s[0] == ((v % 128) + 128) as u8);
        lemma_varint_prefix_bytes(v / 128, (n - 1) as nat, rest);
    }
}

/// Every `u64` takes at most ten bytes, and reads back exactly.
pub proof fn lemma_varint_round_trip(v: u64, rest: Seq<u8>)
    ensures
        varint_bytes(v as nat).len() <= 10,
        varint_at(varint_bytes(v as nat) + rest) == Some((v, varint_bytes(v as nat).len())),
{
    reveal_with_fuel(pow128, 11);
    assert(pow128(10) == 1180591620717411303424nat);
    lemma_varint_bytes_len(v as nat, 10);
    lemma_varint_prefix_bytes(v as nat, 10, rest);
}

/// Relies on prost::encoding::encode_varint: appends the LEB128 bytes of `v`.
#[verifier::external_body]
fn push_varint_raw(out: &mut Vec<u8>, v: u64)
    ensures
        final(out)@ == old(out)@ + varint_bytes(v as nat),
{
    prost::encoding::encode_varint(v, out)
}

/// Relies on prost::encoding::decode_varint: reads the varint at the front of
/// `b` (at most ten bytes, value within `u64`) and leaves the rest; reports the
/// value and how many bytes are left.
#[verifier::external_body]
fn read_varint_raw(b: &[u8]) -> (r: Option<(u64, usize)>)
    ensures
        r == match varint_at(b@) {
            Some((v, l)) => Some((v, (b@.len() - l) as usize)),
            None => None,
        },
{
    let mut rest: &[u8] = b;
    match prost::encoding::decode_varint(&mut rest) {
        Ok(v) => Some((v, rest.len())),
        Err(_) => None,
    }
}

/// Appends the varint form of `v` to `out`.
pub fn push_varint(out: &mut Vec<u8>, v: u64)
    ensures
        final(out)@ == old(out)@ + varint_bytes(v as nat),
        varint_bytes(v as nat).len() <= 10,
{
    proof {
        lemma_varint_round_trip(v, Seq::empty());
    }
    push_varint_raw(out, v);
}

/// Reads the varint that starts at `pos`; returns its value and the position
/// after it.
pub fn read_varint(s: &[u8], pos: usize) -> (r: Option<(u64, usize)>)
    requires
        pos <= s@.len(),
    ensures
        r is None <==> varint_at(s@.subrange(pos as int, s@.len() as int)) is None,
        r matches Some((v, next)) ==> pos < next <= s@.len() && varint_at(
            s@.subrange(pos as int, s@.len() as int),
        ) == Some((v, (next - pos) as nat)),
{
    let rest = vstd::slice::slice_subrange(s, pos, s.len());
    proof {
        lemma_varint_prefix_len(rest@, 10);
    }
    match read_varint_raw(rest) {
        Some((v, left)) => Some((v, s.len() - left)),
        None => None,
    }
}

} // verus!
