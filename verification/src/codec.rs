//! Trait-vector codec: the one wire format every component shares.
//!
//! A trait vector is a fixed number of opaque ciphertext blobs, one per
//! attribute slot.  On the wire it is a count byte followed by each slot as a
//! four-byte little-endian length prefix and the slot's bytes.  Encoding and
//! decoding are exact inverses: `decode(encode(v)) == v` for every valid
//! vector, and `decode` accepts a byte string only if it is the encoding of
//! exactly one vector.

use vstd::prelude::*;

verus! {

use vstd::arithmetic::div_mod::{
    lemma_div_denominator,
    lemma_div_is_ordered,
    lemma_fundamental_div_mod,
    lemma_small_mod,
};

use crate::errors::ErrorCode;
use crate::FHE_TRAITS_COUNT;

/// The byte sequences held by a vector of byte vectors.
pub open spec fn blobs_view(slots: Seq<Vec<u8>>) -> Seq<Seq<u8>> {
    Seq::new(slots.len(), |i: int| slots[i]@)
}

/// The four little-endian bytes of a length `n`.
pub open spec fn le32(n: int) -> Seq<u8> {
    seq![
        (n % 256) as u8,
        ((n / 256) % 256) as u8,
        ((n / 65536) % 256) as u8,
        ((n / 16777216) % 256) as u8,
    ]
}

/// The length encoded by four little-endian bytes.
pub open spec fn le32_val(b0: u8, b1: u8, b2: u8, b3: u8) -> int {
    b0 + 256 * b1 + 65536 * b2 + 16777216 * b3
}

/// One slot parsed at `pos`: its bytes and the position after it.
pub open spec fn spec_parse_slot(b: Seq<u8>, pos: int) -> Option<(Seq<u8>, int)> {
    if pos + 4 <= b.len() {
        let n = le32_val(b[pos], b[pos + 1], b[pos + 2], b[pos + 3]);
        if pos + 4 + n <= b.len() {
            Some((b.subrange(pos + 4, pos + 4 + n), pos + 4 + n))
        } else {
            None
        }
    } else {
        None
    }
}

/// `k` consecutive slots parsed from `pos`: their bytes and the position
/// after the last one.
pub open spec fn spec_parse_slots(b: Seq<u8>, pos: int, k: nat) -> Option<(Seq<Seq<u8>>, int)>
    decreases k,
{
    if k == 0 {
        Some((Seq::empty(), pos))
    } else {
        match spec_parse_slot(b, pos) {
            None => None,
            Some((s, p)) => match spec_parse_slots(b, p, (k - 1) as nat) {
                None => None,
                Some((rest, q)) => Some((seq![s] + rest, q)),
            },
        }
    }
}

/// The slots a byte string decodes to, if it is a well-formed encoding:
/// a count byte, that many slots, and nothing after them.
pub open spec fn spec_decode(b: Seq<u8>) -> Option<Seq<Seq<u8>>> {
    if b.len() < 1 {
        None
    } else {
        match spec_parse_slots(b, 1, b[0] as nat) {
            None => None,
            Some((slots, p)) => if p == b.len() {
                Some(slots)
            } else {
                None
            },
        }
    }
}

/// The byte string that encodes `slots`, without the leading count byte.
pub open spec fn spec_encode_slots(slots: Seq<Seq<u8>>) -> Seq<u8>
    decreases slots.len(),
{
    if slots.len() == 0 {
        Seq::empty()
    } else {
        le32(slots[0].len() as int) + slots[0] + spec_encode_slots(slots.drop_first())
    }
}

/// The byte string that encodes `slots`: count byte, then each slot.
pub open spec fn spec_encode(slots: Seq<Seq<u8>>) -> Seq<u8> {
    seq![slots.len() as u8] + spec_encode_slots(slots)
}

/// A sequence of slots that a trait vector may hold: the fixed cardinality,
/// each slot small enough for its length prefix.
pub open spec fn valid_trait_view(s: Seq<Seq<u8>>) -> bool {
    &&& s.len() == FHE_TRAITS_COUNT
    &&& forall|i: int| 0 <= i < s.len() ==> #[trigger] s[i].len() <= u32::MAX
}

/// A fixed-cardinality vector of opaque ciphertext blobs, one per attribute
/// slot.  The engine never looks inside a slot.
#[derive(Debug, PartialEq, Eq)]
pub struct TraitVector {
    slots: Vec<Vec<u8>>,
}

impl View for TraitVector {
    type V = Seq<Seq<u8>>;

    closed spec fn view(&self) -> Seq<Seq<u8>> {
        blobs_view(self.slots@)
    }
}

impl TraitVector {
    /// Every trait vector holds the fixed number of bounded slots.
    #[verifier::type_invariant]
    pub open spec fn wf(self) -> bool {
        valid_trait_view(self@)
    }

    /// Builds a trait vector from one blob per attribute slot.
    pub fn from_slots(slots: Vec<Vec<u8>>) -> (r: Result<TraitVector, ErrorCode>)
        ensures
            r is Ok <==> valid_trait_view(blobs_view(slots@)),
            r matches Ok(tv) ==> tv@ == blobs_view(slots@),
            r matches Err(e) ==> (if slots@.len() != FHE_TRAITS_COUNT {
                e == ErrorCode::InvalidTraitVector
            } else {
                e == ErrorCode::MalformedCiphertext
            }),
    {
        if slots.len() != FHE_TRAITS_COUNT {
            return Err(ErrorCode::InvalidTraitVector);
        }
        let mut i: usize = 0;
        while i < slots.len()
            invariant
                0 <= i <= slots@.len(),
                slots@.len() == FHE_TRAITS_COUNT,
                forall|j: int| 0 <= j < i ==> #[trigger] slots@[j]@.len() <= u32::MAX,
            decreases slots@.len() - i,
        {
            if slots[i].len() > u32::MAX as usize {
                assert(blobs_view(slots@)[i as int].len() > u32::MAX);
                return Err(ErrorCode::MalformedCiphertext);
            }
            i += 1;
        }
        assert(forall|j: int| 0 <= j < slots@.len()
            ==> #[trigger] blobs_view(slots@)[j].len() <= u32::MAX);
        Ok(TraitVector { slots })
    }

    /// The blob in attribute slot `i`.
    pub fn slot(&self, i: usize) -> (r: &Vec<u8>)
        requires
            i < FHE_TRAITS_COUNT,
        ensures
            r@ == self@[i as int],
    {
        proof {
            use_type_invariant(self);
        }
        &self.slots[i]
    }

    /// Encodes this vector as the shared wire format.
    pub fn encode(&self) -> (r: Vec<u8>)
        ensures
            r@ == spec_encode(self@),
    {
        proof {
            use_type_invariant(self);
        }
        let mut out: Vec<u8> = Vec::new();
        out.push(self.slots.len() as u8);
        let mut i: usize = 0;
        while i < self.slots.len()
            invariant
                0 <= i <= self.slots@.len(),
                valid_trait_view(self@),
                self@ == blobs_view(self.slots@),
                out@ == seq![self.slots@.len() as u8] + spec_encode_slots(self@.take(i as int)),
            decreases self.slots@.len() - i,
        {
            let slot: &Vec<u8> = &self.slots[i];
            assert(slot@ == self@[i as int]);
            assert(slot@.len() <= u32::MAX);
            let n: u32 = slot.len() as u32;
            let ghost out_before = out@;
            out.push((n % 256) as u8);
            out.push(((n / 256) % 256) as u8);
            out.push(((n / 65536) % 256) as u8);
            out.push(((n / 16777216) % 256) as u8);
            assert(out@ =~= out_before + le32(slot@.len() as int));
            let ghost out_mid = out@;
            let mut j: usize = 0;
            while j < slot.len()
                invariant
                    0 <= j <= slot@.len(),
                    out@ == out_mid + slot@.take(j as int),
                decreases slot@.len() - j,
            {
                out.push(slot[j]);
                assert(out@ =~= out_mid + slot@.take(j + 1)) by {
                    assert(slot@.take(j as int).push(slot@[j as int]) =~= slot@.take(j + 1));
                }
                j += 1;
            }
            assert(slot@.take(slot@.len() as int) =~= slot@);
            proof {
                lemma_encode_slots_take_step(self@, i as int);
                assert(out@ =~= seq![self.slots@.len() as u8]
                    + spec_encode_slots(self@.take(i + 1)));
            }
            i += 1;
        }
        assert(self@.take(self@.len() as int) =~= self@);
        out
    }

    /// Decodes the shared wire format, accepting exactly the encodings of
    /// trait vectors: anything unparseable is `MalformedCiphertext`, a
    /// parseable vector of the wrong cardinality is `InvalidTraitVector`.
    pub fn decode(bytes: &Vec<u8>) -> (r: Result<TraitVector, ErrorCode>)
        ensures
            match r {
                Ok(tv) => spec_decode(bytes@) == Some(tv@) && valid_trait_view(tv@),
                Err(e) => (e == ErrorCode::MalformedCiphertext && spec_decode(bytes@) is None)
                    || (e == ErrorCode::InvalidTraitVector
                        && (spec_decode(bytes@) matches Some(s) && s.len() != FHE_TRAITS_COUNT)),
            },
    {
        let blen: usize = bytes.len();
        if blen < 1 {
            return Err(ErrorCode::MalformedCiphertext);
        }
        let count: u8 = bytes[0];
        let mut slots: Vec<Vec<u8>> = Vec::new();
        let mut pos: usize = 1;
        let mut k: usize = 0;
        while k < count as usize
            invariant
                1 <= pos <= bytes@.len(),
                0 <= k <= count,
                count == bytes@[0],
                bytes@.len() == blen,
                spec_parse_slots(bytes@, 1, k as nat) == Some((blobs_view(slots@), pos as int)),
                slots@.len() == k,
                forall|j: int| 0 <= j < slots@.len()
                    ==> #[trigger] slots@[j]@.len() <= u32::MAX,
            decreases count - k,
        {
            proof {
                lemma_parse_slots_split(bytes@, 1, k as nat, (count - k) as nat);
            }
            if blen - pos < 4 {
                assert(spec_parse_slot(bytes@, pos as int) is None);
                assert(spec_parse_slots(bytes@, pos as int, (count - k) as nat) is None);
                return Err(ErrorCode::MalformedCiphertext);
            }
            let b0: u8 = bytes[pos];
            let b1: u8 = bytes[pos + 1];
            let b2: u8 = bytes[pos + 2];
            let b3: u8 = bytes[pos + 3];
            let n64: u64 = b0 as u64 + 256 * (b1 as u64) + 65536 * (b2 as u64)
                + 16777216 * (b3 as u64);
            assert(n64 == le32_val(b0, b1, b2, b3));
            assert(n64 <= u32::MAX);
            if ((blen - pos) as u64) - 4 < n64 {
                assert(spec_parse_slot(bytes@, pos as int) is None);
                assert(spec_parse_slots(bytes@, pos as int, (count - k) as nat) is None);
                return Err(ErrorCode::MalformedCiphertext);
            }
            let n: usize = n64 as usize;
            let start: usize = pos + 4;
            let mut slot: Vec<u8> = Vec::new();
            let mut j: usize = 0;
            while j < n
                invariant
                    0 <= j <= n,
                    start + n <= bytes@.len(),
                    bytes@.len() == blen,
                    slot@ == bytes@.subrange(start as int, start + j),
                decreases n - j,
            {
                slot.push(bytes[start + j]);
                assert(slot@ =~= bytes@.subrange(start as int, start + j + 1));
                j += 1;
            }
            assert(spec_parse_slot(bytes@, pos as int) == Some((slot@, start + n as int)));
            let ghost old_view = blobs_view(slots@);
            let ghost old_pos = pos as int;
            slots.push(slot);
            pos = start + n;
            k += 1;
            proof {
                assert(blobs_view(slots@) =~~= old_view.push(slot@));
                lemma_parse_slots_split(bytes@, 1, (k - 1) as nat, 1nat);
                assert(spec_parse_slots(bytes@, pos as int, 0nat)
                    == Some((Seq::<Seq<u8>>::empty(), pos as int)));
                assert(spec_parse_slots(bytes@, old_pos, 1nat)
                    == Some((seq![slot@] + Seq::<Seq<u8>>::empty(), pos as int)));
                assert(seq![slot@] + Seq::<Seq<u8>>::empty() =~= seq![slot@]);
                assert(old_view + seq![slot@] =~~= blobs_view(slots@));
            }
        }
        if pos != blen {
            return Err(ErrorCode::MalformedCiphertext);
        }
        if count as usize != FHE_TRAITS_COUNT {
            return Err(ErrorCode::InvalidTraitVector);
        }
        let tv = TraitVector { slots };
        assert(spec_decode(bytes@) == Some(tv@));
        Ok(tv)
    }
}

/// Appending one run of slots to another concatenates their encodings.
proof fn lemma_encode_slots_append(s1: Seq<Seq<u8>>, s2: Seq<Seq<u8>>)
    ensures
        spec_encode_slots(s1 + s2) == spec_encode_slots(s1) + spec_encode_slots(s2),
    decreases s1.len(),
{
    if s1.len() == 0 {
        assert(s1 + s2 =~= s2);
        assert(spec_encode_slots(s1) + spec_encode_slots(s2) =~= spec_encode_slots(s2));
    } else {
        assert((s1 + s2).drop_first() =~= s1.drop_first() + s2);
        lemma_encode_slots_append(s1.drop_first(), s2);
        assert((s1 + s2)[0] == s1[0]);
        assert(spec_encode_slots(s1 + s2) =~= spec_encode_slots(s1) + spec_encode_slots(s2));
    }
}

/// One more slot in a prefix of `s` extends the encoded prefix in place.
proof fn lemma_encode_slots_take_step(s: Seq<Seq<u8>>, i: int)
    requires
        0 <= i < s.len(),
    ensures
        spec_encode_slots(s.take(i + 1)) == spec_encode_slots(s.take(i))
            + le32(s[i].len() as int) + s[i],
{
    assert(s.take(i + 1) =~= s.take(i) + seq![s[i]]);
    lemma_encode_slots_append(s.take(i), seq![s[i]]);
    assert(seq![s[i]].drop_first() =~= Seq::<Seq<u8>>::empty());
    assert(spec_encode_slots(Seq::<Seq<u8>>::empty()) == Seq::<u8>::empty());
    assert(spec_encode_slots(seq![s[i]]) =~= le32(s[i].len() as int) + s[i]);
    assert(spec_encode_slots(s.take(i)) + (le32(s[i].len() as int) + s[i])
        =~= spec_encode_slots(s.take(i)) + le32(s[i].len() as int) + s[i]);
}

/// Parsing `k1 + k2` slots is parsing `k1`, then `k2` from where they end.
proof fn lemma_parse_slots_split(b: Seq<u8>, pos: int, k1: nat, k2: nat)
    ensures
        spec_parse_slots(b, pos, k1 + k2) == (match spec_parse_slots(b, pos, k1) {
            None => None::<(Seq<Seq<u8>>, int)>,
            Some((s1, p)) => match spec_parse_slots(b, p, k2) {
                None => None::<(Seq<Seq<u8>>, int)>,
                Some((s2, q)) => Some((s1 + s2, q)),
            },
        }),
    decreases k1,
{
    if k1 == 0 {
        match spec_parse_slots(b, pos, k2) {
            None => {},
            Some((s2, q)) => {
                assert(Seq::<Seq<u8>>::empty() + s2 =~= s2);
            },
        }
    } else {
        match spec_parse_slot(b, pos) {
            None => {},
            Some((s, p)) => {
                lemma_parse_slots_split(b, p, (k1 - 1) as nat, k2);
                match spec_parse_slots(b, p, (k1 - 1) as nat) {
                    None => {},
                    Some((s1, q)) => {
                        match spec_parse_slots(b, q, k2) {
                            None => {},
                            Some((s2, r)) => {
                                assert(seq![s] + (s1 + s2) =~= (seq![s] + s1) + s2);
                            },
                        }
                    },
                }
            },
        }
    }
}

/// The four little-endian bytes of `n` encode exactly `n`.
proof fn lemma_le32_roundtrip(n: int)
    requires
        0 <= n <= u32::MAX,
    ensures
        le32_val(le32(n)[0], le32(n)[1], le32(n)[2], le32(n)[3]) == n,
{
    lemma_fundamental_div_mod(n, 256);
    lemma_fundamental_div_mod(n / 256, 256);
    lemma_fundamental_div_mod(n / 65536, 256);
    lemma_div_denominator(n, 256, 256);
    lemma_div_denominator(n, 65536, 256);
    assert(n / 16777216 <= u32::MAX as int / 16777216) by {
        lemma_div_is_ordered(n, u32::MAX as int, 16777216);
    }
    assert(u32::MAX as int / 16777216 == 255);
    assert((n / 16777216) % 256 == n / 16777216) by {
        lemma_small_mod((n / 16777216) as nat, 256nat);
    }
}

/// An encoded run of slots parses back to exactly those slots.
proof fn lemma_parse_encoded_slots(b: Seq<u8>, pos: int, slots: Seq<Seq<u8>>)
    requires
        0 <= pos <= b.len(),
        forall|i: int| 0 <= i < slots.len() ==> #[trigger] slots[i].len() <= u32::MAX,
        b.subrange(pos, b.len() as int) == spec_encode_slots(slots),
    ensures
        spec_parse_slots(b, pos, slots.len()) == Some((slots, b.len() as int)),
    decreases slots.len(),
{
    if slots.len() == 0 {
        assert(b.subrange(pos, b.len() as int).len() == 0);
        assert(pos == b.len());
    } else {
        let head = slots[0];
        let hn = head.len() as int;
        let frame = le32(hn) + head;
        let tail_enc = spec_encode_slots(slots.drop_first());
        assert(b.subrange(pos, b.len() as int) == frame + tail_enc);
        assert(b.len() - pos == frame.len() + tail_enc.len());
        assert(b[pos] == le32(hn)[0]) by {
            assert(b.subrange(pos, b.len() as int)[0] == b[pos + 0]);
        }
        assert(b[pos + 1] == le32(hn)[1]) by {
            assert(b.subrange(pos, b.len() as int)[1] == b[pos + 1]);
        }
        assert(b[pos + 2] == le32(hn)[2]) by {
            assert(b.subrange(pos, b.len() as int)[2] == b[pos + 2]);
        }
        assert(b[pos + 3] == le32(hn)[3]) by {
            assert(b.subrange(pos, b.len() as int)[3] == b[pos + 3]);
        }
        lemma_le32_roundtrip(hn);
        assert(le32_val(b[pos], b[pos + 1], b[pos + 2], b[pos + 3]) == hn);
        assert(pos + 4 + hn <= b.len());
        assert forall|i: int| 0 <= i < hn implies b[pos + 4 + i] == head[i] by {
            assert(b.subrange(pos, b.len() as int)[4 + i] == b[pos + 4 + i]);
            assert((frame + tail_enc)[4 + i] == head[i]);
        }
        assert(b.subrange(pos + 4, pos + 4 + hn) =~= head);
        assert(spec_parse_slot(b, pos) == Some((head, pos + 4 + hn)));
        assert forall|i: int| 0 <= i < tail_enc.len()
            implies b[pos + 4 + hn + i] == tail_enc[i] by {
            assert(b.subrange(pos, b.len() as int)[4 + hn + i] == b[pos + (4 + hn + i)]);
            assert((frame + tail_enc)[4 + hn + i] == tail_enc[i]);
        }
        assert(b.subrange(pos + 4 + hn, b.len() as int) =~= tail_enc);
        lemma_parse_encoded_slots(b, pos + 4 + hn, slots.drop_first());
        assert(seq![head] + slots.drop_first() =~= slots);
    }
}

/// Round trip: decoding the encoding of any valid trait vector gives back
/// exactly that vector.
pub proof fn lemma_codec_round_trip(slots: Seq<Seq<u8>>)
    requires
        valid_trait_view(slots),
    ensures
        spec_decode(spec_encode(slots)) == Some(slots),
{
    let b = spec_encode(slots);
    assert(b[0] == slots.len() as u8);
    assert(b.subrange(1, b.len() as int) =~= spec_encode_slots(slots));
    lemma_parse_encoded_slots(b, 1, slots);
}

} // verus!
