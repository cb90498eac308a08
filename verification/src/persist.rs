//! The on-disk shape of column data: a raw little-endian byte blob per
//! column, four bytes per value, plus the one-byte index discriminator.
//! Auxiliary index structures are never stored; a restart rebuilds them.

use crate::column::ColumnIndex;
use vstd::prelude::*;

verus! {

/// The unsigned 32-bit pattern of a value, in two's complement.
pub open spec fn u32_pattern(x: i32) -> int {
    if x >= 0 {
        x as int
    } else {
        x + 0x1_0000_0000
    }
}

/// The four little-endian bytes of one value.
pub open spec fn le4(x: i32) -> Seq<u8> {
    let u = u32_pattern(x);
    seq![
        (u % 256) as u8,
        ((u / 256) % 256) as u8,
        ((u / 65536) % 256) as u8,
        ((u / 16777216) % 256) as u8,
    ]
}

/// The little-endian byte blob of a whole column.
pub open spec fn le_bytes(s: Seq<i32>) -> Seq<u8>
    decreases s.len(),
{
    if s.len() == 0 {
        Seq::empty()
    } else {
        le_bytes(s.drop_last()) + le4(s.last())
    }
}

pub proof fn lemma_le_bytes_len(s: Seq<i32>)
    ensures
        le_bytes(s).len() == 4 * s.len(),
    decreases s.len(),
{
    if s.len() > 0 {
        lemma_le_bytes_len(s.drop_last());
    }
}

/// Four bytes recover their value: the blob encoding loses nothing.
pub proof fn lemma_le4_injective(x: i32, y: i32)
    requires
        le4(x) == le4(y),
    ensures
        x == y,
{
    let ux = u32_pattern(x);
    let uy = u32_pattern(y);
    assert(le4(x)[0] == le4(y)[0] && le4(x)[1] == le4(y)[1] && le4(x)[2] == le4(y)[2] && le4(
        x,
    )[3] == le4(y)[3]);
    assert(0 <= ux < 0x1_0000_0000 && 0 <= uy < 0x1_0000_0000);
    assert(ux == (ux % 256) + 256 * ((ux / 256) % 256) + 65536 * ((ux / 65536) % 256) + 16777216
        * ((ux / 16777216) % 256)) by (nonlinear_arith)
        requires
            0 <= ux < 0x1_0000_0000,
    ;
    assert(uy == (uy % 256) + 256 * ((uy / 256) % 256) + 65536 * ((uy / 65536) % 256) + 16777216
        * ((uy / 16777216) % 256)) by (nonlinear_arith)
        requires
            0 <= uy < 0x1_0000_0000,
    ;
}

/// The blob encoding is injective: equal blobs come from equal columns.
/// With the decoder's contract this is the persistence round trip for
/// column data.
pub proof fn lemma_le_bytes_injective(s1: Seq<i32>, s2: Seq<i32>)
    requires
        le_bytes(s1) == le_bytes(s2),
    ensures
        s1 == s2,
    decreases s1.len(),
{
    lemma_le_bytes_len(s1);
    lemma_le_bytes_len(s2);
    if s1.len() == 0 {
        assert(s1 =~= s2);
    } else {
        let b = le_bytes(s1);
        let n = b.len() as int;
        assert(le_bytes(s1.drop_last()) =~= b.subrange(0, n - 4)) by {
            lemma_le_bytes_len(s1.drop_last());
        }
        assert(le4(s1.last()) =~= b.subrange(n - 4, n));
        assert(le_bytes(s2.drop_last()) =~= b.subrange(0, n - 4)) by {
            lemma_le_bytes_len(s2.drop_last());
        }
        assert(le4(s2.last()) =~= b.subrange(n - 4, n));
        lemma_le4_injective(s1.last(), s2.last());
        lemma_le_bytes_injective(s1.drop_last(), s2.drop_last());
        assert(s1.len() == s2.len());
        assert(s1.last() == s2.last());
        assert(s1.drop_last() == s2.drop_last());
        assert forall|i: int| 0 <= i < s1.len() implies s1[i] == s2[i] by {
            if i < s1.len() - 1 {
                assert(s1.drop_last()[i] == s2.drop_last()[i]);
            }
        }
        assert(s1 =~= s2);
    }
}

/// Encodes a column's values as their little-endian blob.
pub fn encode_values(values: &Vec<i32>) -> (r: Vec<u8>)
    ensures
        r@ == le_bytes(values@),
{
    let mut out: Vec<u8> = Vec::new();
    proof {
        assert(values@.take(0) =~= Seq::<i32>::empty());
        assert(out@ =~= le_bytes(values@.take(0)));
    }
    let mut i: usize = 0;
    while i < values.len()
        invariant
            i <= values@.len(),
            out@ == le_bytes(values@.take(i as int)),
        decreases values@.len() - i,
    {
        let x = values[i];
        let u: u32 = if x >= 0 {
            x as u32
        } else {
            (((x as i64) + 0x1_0000_0000i64) as u32)
        };
        proof {
            assert(u == u32_pattern(values@[i as int]));
        }
        out.push((u % 256) as u8);
        out.push(((u / 256) % 256) as u8);
        out.push(((u / 65536) % 256) as u8);
        out.push(((u / 16777216) % 256) as u8);
        proof {
            let cur = values@.take(i as int + 1);
            assert(cur.drop_last() =~= values@.take(i as int));
            assert(cur.last() == values@[i as int]);
            assert(out@ =~= le_bytes(values@.take(i as int)) + le4(values@[i as int]));
        }
        i = i + 1;
    }
    proof {
        assert(values@.take(values@.len() as int) =~= values@);
    }
    out
}

/// Decodes a little-endian blob back into values; a blob that is not a
/// whole number of four-byte groups is rejected.
pub fn decode_values(bytes: &Vec<u8>) -> (r: Option<Vec<i32>>)
    ensures
        match r {
            Some(v) => bytes@.len() % 4 == 0 && le_bytes(v@) == bytes@ && v@.len() == bytes@.len()
                / 4,
            None => bytes@.len() % 4 != 0,
        },
{
    let n = bytes.len();
    if n % 4 != 0 {
        return None;
    }
    let count = n / 4;
    let mut out: Vec<i32> = Vec::new();
    proof {
        assert(le_bytes(out@) =~= bytes@.take(0));
    }
    let mut i: usize = 0;
    while i < count
        invariant
            i <= count,
            count == bytes@.len() / 4,
            n == bytes@.len(),
            n % 4 == 0,
            n == 4 * count,
            out@.len() == i,
            le_bytes(out@) == bytes@.take(4 * i as int),
        decreases count - i,
    {
        let b0 = bytes[4 * i] as u32;
        let b1 = bytes[4 * i + 1] as u32;
        let b2 = bytes[4 * i + 2] as u32;
        let b3 = bytes[4 * i + 3] as u32;
        let u: u32 = b0 + 256 * b1 + 65536 * b2 + 16777216 * b3;
        let x: i32 = if u <= 0x7fff_ffffu32 {
            u as i32
        } else {
            (((u as i64) - 0x1_0000_0000i64) as i32)
        };
        proof {
            assert(u32_pattern(x) == u as int);
            assert(b0 == (u as int) % 256 && b1 == ((u as int) / 256) % 256 && b2 == ((
            u as int) / 65536) % 256 && b3 == ((u as int) / 16777216) % 256) by (nonlinear_arith)
                requires
                    0 <= b0 < 256,
                    0 <= b1 < 256,
                    0 <= b2 < 256,
                    0 <= b3 < 256,
                    u == b0 + 256 * b1 + 65536 * b2 + 16777216 * b3,
            ;
            assert(le4(x) =~= bytes@.subrange(4 * i as int, 4 * i as int + 4));
        }
        let ghost old_out = out@;
        out.push(x);
        proof {
            assert(out@.drop_last() =~= old_out);
            assert(out@.last() == x);
            assert(le_bytes(out@) == le_bytes(old_out) + le4(x));
            assert(bytes@.take(4 * i as int) + bytes@.subrange(4 * i as int, 4 * i as int + 4)
                =~= bytes@.take(4 * (i as int + 1)));
        }
        i = i + 1;
    }
    proof {
        assert(bytes@.take(4 * count as int) =~= bytes@);
    }
    Some(out)
}

/// The discriminator byte of an index variant, as `discriminant` computes
/// it: always within the range the deserializer accepts, so a persisted
/// discriminator always loads back as a skeleton of the same kind.
pub open spec fn spec_discriminant(idx: ColumnIndex) -> u8 {
    match idx {
        ColumnIndex::NoIndex => 0,
        ColumnIndex::UnclusteredSorted { .. } => 1,
        ColumnIndex::UnclusteredBTree { .. } => 2,
        ColumnIndex::ClusteredSorted => 3,
        ColumnIndex::ClusteredBTree { .. } => 4,
    }
}

pub proof fn lemma_discriminant_in_range(idx: ColumnIndex)
    ensures
        spec_discriminant(idx) <= 4,
        idx.discriminant_matches(spec_discriminant(idx)),
{
}

} // verus!
