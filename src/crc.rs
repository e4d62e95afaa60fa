//! CRC-32 (IEEE, reflected): polynomial 0xEDB88320, register preset to all
//! ones, result complemented.
use vstd::prelude::*;

verus! {

/// The IEEE 802.3 generator polynomial in reflected bit order.
pub const CRC32_POLY: u32 = 0xEDB8_8320;

/// One shift of the CRC register, folding the polynomial in when a one drops out.
pub open spec fn crc_shift(c: u32) -> u32 {
    if c & 1 == 1 {
        (c >> 1) ^ CRC32_POLY
    } else {
        c >> 1
    }
}

pub open spec fn crc_shifts(c: u32, n: nat) -> u32
    decreases n,
{
    if n == 0 {
        c
    } else {
        crc_shifts(crc_shift(c), (n - 1) as nat)
    }
}

/// The register after absorbing one byte.
pub open spec fn crc_byte(c: u32, b: u8) -> u32 {
    crc_shifts(c ^ (b as u32), 8)
}

/// The register after absorbing `s`, starting from `c`.
pub open spec fn crc_register(c: u32, s: Seq<u8>) -> u32
    decreases s.len(),
{
    if s.len() == 0 {
        c
    } else {
        crc_byte(crc_register(c, s.drop_last()), s.last())
    }
}

pub open spec fn crc32_of(s: Seq<u8>) -> u32 {
    !crc_register(0xFFFF_FFFF, s)
}

/// Absorbing `a + b` is absorbing `a`, then `b`.
pub proof fn lemma_crc_register_append(c: u32, a: Seq<u8>, b: Seq<u8>)
    ensures
        crc_register(c, a + b) == crc_register(crc_register(c, a), b),
    decreases b.len(),
{
    if b.len() == 0 {
        assert(a + b =~= a);
    } else {
        assert((a + b).drop_last() =~= a + b.drop_last());
        lemma_crc_register_append(c, a, b.drop_last());
    }
}

proof fn lemma_crc_shift_injective(x: u32, y: u32)
    requires
        x != y,
    ensures
        crc_shift(x) != crc_shift(y),
{
    assert(x != y ==> (if x & 1 == 1 {
        (x >> 1) ^ 0xEDB8_8320u32
    } else {
        x >> 1
    }) != (if y & 1 == 1 {
        (y >> 1) ^ 0xEDB8_8320u32
    } else {
        y >> 1
    })) by (bit_vector);
}

proof fn lemma_crc_shifts_injective(x: u32, y: u32, n: nat)
    requires
        x != y,
    ensures
        crc_shifts(x, n) != crc_shifts(y, n),
    decreases n,
{
    if n > 0 {
        lemma_crc_shift_injective(x, y);
        lemma_crc_shifts_injective(crc_shift(x), crc_shift(y), (n - 1) as nat);
    }
}

/// Distinct registers stay distinct after absorbing the same byte, and one
/// register absorbing two distinct bytes lands on distinct values.
proof fn lemma_crc_byte_injective(x: u32, y: u32, bx: u8, by: u8)
    requires
        x != y || bx != by,
        x == y || bx == by,
    ensures
        crc_byte(x, bx) != crc_byte(y, by),
{
    let wx = bx as u32;
    let wy = by as u32;
    assert(wx == wy <==> bx == by);
    assert((x != y || wx != wy) && (x == y || wx == wy) ==> x ^ wx != y ^ wy) by (bit_vector);
    lemma_crc_shifts_injective(x ^ wx, y ^ wy, 8);
}

/// Two equally long inputs that differ in exactly one byte give different registers.
pub proof fn lemma_crc_register_one_byte(c: u32, s: Seq<u8>, t: Seq<u8>, i: int)
    requires
        s.len() == t.len(),
        0 <= i < s.len(),
        s[i] != t[i],
        forall|j: int| 0 <= j < s.len() && j != i ==> s[j] == t[j],
    ensures
        crc_register(c, s) != crc_register(c, t),
    decreases s.len(),
{
    let n = s.len() - 1;
    if i == n {
        assert(s.drop_last() =~= t.drop_last());
        lemma_crc_byte_injective(
            crc_register(c, s.drop_last()),
            crc_register(c, t.drop_last()),
            s.last(),
            t.last(),
        );
    } else {
        lemma_crc_register_one_byte(c, s.drop_last(), t.drop_last(), i);
        lemma_crc_byte_injective(
            crc_register(c, s.drop_last()),
            crc_register(c, t.drop_last()),
            s.last(),
            t.last(),
        );
    }
}

/// Absorbs `data` into the register `crc`.
pub fn crc32_feed(crc: u32, data: &[u8]) -> (r: u32)
    ensures
        r == crc_register(crc, data@),
{
    let mut c: u32 = crc;
    let mut i: usize = 0;
    while i < data.len()
        invariant
            i <= data@.len(),
            c == crc_register(crc, data@.take(i as int)),
        decreases data.len() - i,
    {
        let ghost before = c;
        let byte = data[i];
        c = c ^ (byte as u32);
        let mut k: u32 = 0;
        while k < 8
            invariant
                k <= 8,
                crc_shifts(c, (8 - k) as nat) == crc_byte(before, byte),
            decreases 8 - k,
        {
            if c & 1 == 1 {
                c = (c >> 1) ^ CRC32_POLY;
            } else {
                c = c >> 1;
            }
            k = k + 1;
        }
        assert(data@.take(i + 1).drop_last() =~= data@.take(i as int));
        i = i + 1;
    }
    assert(data@.take(i as int) =~= data@);
    c
}

/// CRC-32 of `data`.
pub fn crc32(data: &[u8]) -> (r: u32)
    ensures
        r == crc32_of(data@),
{
    !crc32_feed(0xFFFF_FFFF, data)
}

} // verus!
