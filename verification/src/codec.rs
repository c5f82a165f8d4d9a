use vstd::prelude::*;

use crate::records::Digest;

verus! {

/// Big-endian byte image of a block height. Unsigned order of heights equals
/// lexicographic order of these keys, so an ordered scan of encoded keys walks
/// heights in ascending order.
pub open spec fn spec_encode_height(h: u32) -> Seq<u8> {
    seq![
        ((h >> 24) & 0xff) as u8,
        ((h >> 16) & 0xff) as u8,
        ((h >> 8) & 0xff) as u8,
        (h & 0xff) as u8,
    ]
}

/// Big-endian byte image of one 64-bit digest word.
pub open spec fn spec_encode_word(w: u64) -> Seq<u8> {
    seq![
        ((w >> 56) & 0xff) as u8,
        ((w >> 48) & 0xff) as u8,
        ((w >> 40) & 0xff) as u8,
        ((w >> 32) & 0xff) as u8,
        ((w >> 24) & 0xff) as u8,
        ((w >> 16) & 0xff) as u8,
        ((w >> 8) & 0xff) as u8,
        (w & 0xff) as u8,
    ]
}

/// Raw fixed-width byte image of a digest: its four words, most significant
/// first.
pub open spec fn spec_encode_digest(d: Digest) -> Seq<u8> {
    spec_encode_word(d.w0) + spec_encode_word(d.w1) + spec_encode_word(d.w2) + spec_encode_word(
        d.w3,
    )
}

/// Strict lexicographic order on byte strings.
pub open spec fn lex_lt(a: Seq<u8>, b: Seq<u8>) -> bool
    decreases a.len(),
{
    if b.len() == 0 {
        false
    } else if a.len() == 0 {
        true
    } else if a[0] != b[0] {
        a[0] < b[0]
    } else {
        lex_lt(a.drop_first(), b.drop_first())
    }
}

/// Encode a height as its four-byte big-endian key.
pub fn encode_height(h: u32) -> (r: Vec<u8>)
    ensures
        r@ == spec_encode_height(h),
{
    let mut v: Vec<u8> = Vec::new();
    v.push(#[verifier::truncate] ((h >> 24) as u8));
    v.push(#[verifier::truncate] ((h >> 16) as u8));
    v.push(#[verifier::truncate] ((h >> 8) as u8));
    v.push(#[verifier::truncate] (h as u8));
    proof {
        assert(#[verifier::truncate] ((h >> 24) as u8) == ((h >> 24) & 0xff) as u8)
            by (bit_vector);
        assert(#[verifier::truncate] ((h >> 16) as u8) == ((h >> 16) & 0xff) as u8)
            by (bit_vector);
        assert(#[verifier::truncate] ((h >> 8) as u8) == ((h >> 8) & 0xff) as u8) by (bit_vector);
        assert(#[verifier::truncate] (h as u8) == (h & 0xff) as u8) by (bit_vector);
        assert(v@ =~= spec_encode_height(h));
    }
    v
}

/// Decode a four-byte big-endian key back to its height; exactly the images of
/// `encode_height` decode, and to the height they came from.
pub fn decode_height(bytes: &Vec<u8>) -> (r: Option<u32>)
    ensures
        match r {
            Some(h) => bytes@ == spec_encode_height(h),
            None => bytes@.len() != 4,
        },
        bytes@.len() == 4 ==> r is Some,
{
    if bytes.len() != 4 {
        return None;
    }
    let b0 = bytes[0];
    let b1 = bytes[1];
    let b2 = bytes[2];
    let b3 = bytes[3];
    let h: u32 = ((b0 as u32) << 24) | ((b1 as u32) << 16) | ((b2 as u32) << 8) | (b3 as u32);
    proof {
        let hh = ((b0 as u32) << 24) | ((b1 as u32) << 16) | ((b2 as u32) << 8) | (b3 as u32);
        assert(((hh >> 24) & 0xff) as u8 == b0) by (bit_vector)
            requires
                hh == ((b0 as u32) << 24) | ((b1 as u32) << 16) | ((b2 as u32) << 8) | (
                b3 as u32),
        ;
        assert(((hh >> 16) & 0xff) as u8 == b1) by (bit_vector)
            requires
                hh == ((b0 as u32) << 24) | ((b1 as u32) << 16) | ((b2 as u32) << 8) | (
                b3 as u32),
        ;
        assert(((hh >> 8) & 0xff) as u8 == b2) by (bit_vector)
            requires
                hh == ((b0 as u32) << 24) | ((b1 as u32) << 16) | ((b2 as u32) << 8) | (
                b3 as u32),
        ;
        assert((hh & 0xff) as u8 == b3) by (bit_vector)
            requires
                hh == ((b0 as u32) << 24) | ((b1 as u32) << 16) | ((b2 as u32) << 8) | (
                b3 as u32),
        ;
        assert(bytes@ =~= spec_encode_height(hh));
    }
    Some(h)
}

/// Law: the height key is injective — equal keys come from equal heights.
pub proof fn lemma_encode_height_injective(a: u32, b: u32)
    ensures
        spec_encode_height(a) == spec_encode_height(b) ==> a == b,
{
    if spec_encode_height(a) == spec_encode_height(b) {
        assert(spec_encode_height(a)[0] == spec_encode_height(b)[0]);
        assert(spec_encode_height(a)[1] == spec_encode_height(b)[1]);
        assert(spec_encode_height(a)[2] == spec_encode_height(b)[2]);
        assert(spec_encode_height(a)[3] == spec_encode_height(b)[3]);
        assert((((a >> 24) & 0xff) as u8 == ((b >> 24) & 0xff) as u8 && ((a >> 16) & 0xff) as u8
            == ((b >> 16) & 0xff) as u8 && ((a >> 8) & 0xff) as u8 == ((b >> 8) & 0xff) as u8 && (
        a & 0xff) as u8 == (b & 0xff) as u8) ==> a == b) by (bit_vector);
    }
}

/// Law: the height key preserves order — a key is lexicographically below
/// another exactly when its height is numerically below.
pub proof fn lemma_encode_height_order(a: u32, b: u32)
    ensures
        lex_lt(spec_encode_height(a), spec_encode_height(b)) <==> a < b,
{
    reveal_with_fuel(lex_lt, 6);
    let sa = spec_encode_height(a);
    let sb = spec_encode_height(b);
    let a0 = ((a >> 24) & 0xff) as u8;
    let a1 = ((a >> 16) & 0xff) as u8;
    let a2 = ((a >> 8) & 0xff) as u8;
    let a3 = (a & 0xff) as u8;
    let b0 = ((b >> 24) & 0xff) as u8;
    let b1 = ((b >> 16) & 0xff) as u8;
    let b2 = ((b >> 8) & 0xff) as u8;
    let b3 = (b & 0xff) as u8;
    assert(sa.drop_first() =~= seq![a1, a2, a3]);
    assert(sb.drop_first() =~= seq![b1, b2, b3]);
    assert(seq![a1, a2, a3].drop_first() =~= seq![a2, a3]);
    assert(seq![b1, b2, b3].drop_first() =~= seq![b2, b3]);
    assert(seq![a2, a3].drop_first() =~= seq![a3]);
    assert(seq![b2, b3].drop_first() =~= seq![b3]);
    assert(seq![a3].drop_first() =~= Seq::<u8>::empty());
    assert(seq![b3].drop_first() =~= Seq::<u8>::empty());
    assert(lex_lt(sa, sb) == (a0 < b0 || (a0 == b0 && (a1 < b1 || (a1 == b1 && (a2 < b2 || (a2
        == b2 && a3 < b3)))))));
    assert((((a >> 24) & 0xff) < ((b >> 24) & 0xff) || (((a >> 24) & 0xff) == ((b >> 24) & 0xff)
        && (((a >> 16) & 0xff) < ((b >> 16) & 0xff) || (((a >> 16) & 0xff) == ((b >> 16) & 0xff)
        && (((a >> 8) & 0xff) < ((b >> 8) & 0xff) || (((a >> 8) & 0xff) == ((b >> 8) & 0xff) && (a
        & 0xff) < (b & 0xff))))))) <==> a < b) by (bit_vector);
    assert((a >> 24) & 0xff < 256 && (b >> 24) & 0xff < 256 && (a >> 16) & 0xff < 256 && (b >> 16)
        & 0xff < 256 && (a >> 8) & 0xff < 256 && (b >> 8) & 0xff < 256 && (a & 0xff) < 256 && (b
        & 0xff) < 256) by (bit_vector);
}

/// Encode a digest as its raw 32-byte key, words in most-significant order.
pub fn encode_digest(d: &Digest) -> (r: Vec<u8>)
    ensures
        r@ == spec_encode_digest(*d),
{
    let mut v: Vec<u8> = Vec::new();
    push_word(&mut v, d.w0);
    push_word(&mut v, d.w1);
    push_word(&mut v, d.w2);
    push_word(&mut v, d.w3);
    proof {
        assert(v@ =~= spec_encode_digest(*d));
    }
    v
}

/// Append the eight big-endian bytes of one digest word.
fn push_word(v: &mut Vec<u8>, w: u64)
    ensures
        final(v)@ == old(v)@ + spec_encode_word(w),
{
    v.push(#[verifier::truncate] ((w >> 56) as u8));
    v.push(#[verifier::truncate] ((w >> 48) as u8));
    v.push(#[verifier::truncate] ((w >> 40) as u8));
    v.push(#[verifier::truncate] ((w >> 32) as u8));
    v.push(#[verifier::truncate] ((w >> 24) as u8));
    v.push(#[verifier::truncate] ((w >> 16) as u8));
    v.push(#[verifier::truncate] ((w >> 8) as u8));
    v.push(#[verifier::truncate] (w as u8));
    proof {
        assert(#[verifier::truncate] ((w >> 56) as u8) == ((w >> 56) & 0xff) as u8)
            by (bit_vector);
        assert(#[verifier::truncate] ((w >> 48) as u8) == ((w >> 48) & 0xff) as u8)
            by (bit_vector);
        assert(#[verifier::truncate] ((w >> 40) as u8) == ((w >> 40) & 0xff) as u8)
            by (bit_vector);
        assert(#[verifier::truncate] ((w >> 32) as u8) == ((w >> 32) & 0xff) as u8)
            by (bit_vector);
        assert(#[verifier::truncate] ((w >> 24) as u8) == ((w >> 24) & 0xff) as u8)
            by (bit_vector);
        assert(#[verifier::truncate] ((w >> 16) as u8) == ((w >> 16) & 0xff) as u8)
            by (bit_vector);
        assert(#[verifier::truncate] ((w >> 8) as u8) == ((w >> 8) & 0xff) as u8) by (bit_vector);
        assert(#[verifier::truncate] (w as u8) == (w & 0xff) as u8) by (bit_vector);
        assert(final(v)@ =~= old(v)@ + spec_encode_word(w));
    }
}

/// Read one big-endian digest word out of a 32-byte key.
fn read_word(bytes: &Vec<u8>, off: usize) -> (w: u64)
    requires
        off + 8 <= bytes@.len(),
    ensures
        spec_encode_word(w) == bytes@.subrange(off as int, off as int + 8),
{
    let n = bytes.len();
    assert(off + 8 <= n);
    let b0 = bytes[off];
    let b1 = bytes[off + 1];
    let b2 = bytes[off + 2];
    let b3 = bytes[off + 3];
    let b4 = bytes[off + 4];
    let b5 = bytes[off + 5];
    let b6 = bytes[off + 6];
    let b7 = bytes[off + 7];
    let w: u64 = ((b0 as u64) << 56) | ((b1 as u64) << 48) | ((b2 as u64) << 40) | ((b3
        as u64) << 32) | ((b4 as u64) << 24) | ((b5 as u64) << 16) | ((b6 as u64) << 8) | (b7
        as u64);
    proof {
        let ww = ((b0 as u64) << 56) | ((b1 as u64) << 48) | ((b2 as u64) << 40) | ((b3
            as u64) << 32) | ((b4 as u64) << 24) | ((b5 as u64) << 16) | ((b6 as u64) << 8) | (b7
            as u64);
        assert(((ww >> 56) & 0xff) as u8 == b0 && ((ww >> 48) & 0xff) as u8 == b1 && ((ww >> 40)
            & 0xff) as u8 == b2 && ((ww >> 32) & 0xff) as u8 == b3 && ((ww >> 24) & 0xff) as u8
            == b4 && ((ww >> 16) & 0xff) as u8 == b5 && ((ww >> 8) & 0xff) as u8 == b6 && (ww
            & 0xff) as u8 == b7) by (bit_vector)
            requires
                ww == ((b0 as u64) << 56) | ((b1 as u64) << 48) | ((b2 as u64) << 40) | ((b3
                    as u64) << 32) | ((b4 as u64) << 24) | ((b5 as u64) << 16) | ((b6
                    as u64) << 8) | (b7 as u64),
        ;
        assert(spec_encode_word(ww) =~= bytes@.subrange(off as int, off as int + 8));
    }
    w
}

/// Decode a 32-byte key back to its digest; exactly the images of
/// `encode_digest` decode, and to the digest they came from.
pub fn decode_digest(bytes: &Vec<u8>) -> (r: Option<Digest>)
    ensures
        match r {
            Some(dg) => bytes@ == spec_encode_digest(dg),
            None => bytes@.len() != 32,
        },
        bytes@.len() == 32 ==> r is Some,
{
    if bytes.len() != 32 {
        return None;
    }
    let dg = Digest {
        w0: read_word(bytes, 0),
        w1: read_word(bytes, 8),
        w2: read_word(bytes, 16),
        w3: read_word(bytes, 24),
    };
    proof {
        assert(bytes@ =~= spec_encode_digest(dg));
    }
    Some(dg)
}

proof fn lemma_encode_word_injective(a: u64, b: u64)
    ensures
        spec_encode_word(a) == spec_encode_word(b) ==> a == b,
{
    if spec_encode_word(a) == spec_encode_word(b) {
        assert(spec_encode_word(a)[0] == spec_encode_word(b)[0]);
        assert(spec_encode_word(a)[1] == spec_encode_word(b)[1]);
        assert(spec_encode_word(a)[2] == spec_encode_word(b)[2]);
        assert(spec_encode_word(a)[3] == spec_encode_word(b)[3]);
        assert(spec_encode_word(a)[4] == spec_encode_word(b)[4]);
        assert(spec_encode_word(a)[5] == spec_encode_word(b)[5]);
        assert(spec_encode_word(a)[6] == spec_encode_word(b)[6]);
        assert(spec_encode_word(a)[7] == spec_encode_word(b)[7]);
        assert((((a >> 56) & 0xff) as u8 == ((b >> 56) & 0xff) as u8 && ((a >> 48) & 0xff) as u8
            == ((b >> 48) & 0xff) as u8 && ((a >> 40) & 0xff) as u8 == ((b >> 40) & 0xff) as u8
            && ((a >> 32) & 0xff) as u8 == ((b >> 32) & 0xff) as u8 && ((a >> 24) & 0xff) as u8 == (
        (b >> 24) & 0xff) as u8 && ((a >> 16) & 0xff) as u8 == ((b >> 16) & 0xff) as u8 && ((a
            >> 8) & 0xff) as u8 == ((b >> 8) & 0xff) as u8 && (a & 0xff) as u8 == (b
            & 0xff) as u8) ==> a == b) by (bit_vector);
    }
}

/// Law: the digest key is injective — equal keys come from equal digests.
pub proof fn lemma_encode_digest_injective(x: Digest, y: Digest)
    ensures
        spec_encode_digest(x) == spec_encode_digest(y) ==> x == y,
{
    if spec_encode_digest(x) == spec_encode_digest(y) {
        assert(spec_encode_word(x.w0) =~= spec_encode_word(y.w0)) by {
            assert forall|i: int| 0 <= i < 8 implies spec_encode_word(x.w0)[i]
                == spec_encode_word(y.w0)[i] by {
                assert(spec_encode_digest(x)[i] == spec_encode_digest(y)[i]);
            }
        }
        assert(spec_encode_word(x.w1) =~= spec_encode_word(y.w1)) by {
            assert forall|i: int| 0 <= i < 8 implies spec_encode_word(x.w1)[i]
                == spec_encode_word(y.w1)[i] by {
                assert(spec_encode_digest(x)[8 + i] == spec_encode_digest(y)[8 + i]);
            }
        }
        assert(spec_encode_word(x.w2) =~= spec_encode_word(y.w2)) by {
            assert forall|i: int| 0 <= i < 8 implies spec_encode_word(x.w2)[i]
                == spec_encode_word(y.w2)[i] by {
                assert(spec_encode_digest(x)[16 + i] == spec_encode_digest(y)[16 + i]);
            }
        }
        assert(spec_encode_word(x.w3) =~= spec_encode_word(y.w3)) by {
            assert forall|i: int| 0 <= i < 8 implies spec_encode_word(x.w3)[i]
                == spec_encode_word(y.w3)[i] by {
                assert(spec_encode_digest(x)[24 + i] == spec_encode_digest(y)[24 + i]);
            }
        }
        lemma_encode_word_injective(x.w0, y.w0);
        lemma_encode_word_injective(x.w1, y.w1);
        lemma_encode_word_injective(x.w2, y.w2);
        lemma_encode_word_injective(x.w3, y.w3);
    }
}

} // verus!
