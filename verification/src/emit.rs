//! A small writer for protobuf (v2) wire data, as used by the Perfetto
//! trace format.
//!
//! Submessages of unknown size are written with a fixed-width length:
//! `nested` spends exactly three bytes on the length varint and
//! `nested_small` exactly two, using the non-minimal encoding that the
//! wire format permits.  That caps a `nested` submessage at `2^21 - 1`
//! bytes and a `nested_small` one at `2^14 - 1` bytes.

use vstd::prelude::*;
use vstd::string::StringSliceAdditionalSpecFns;

verus! {

/// Errors surfaced by the emitter.
#[derive(Clone, Copy, Debug, PartialEq, Eq, Structural)]
pub enum EmitError {
    /// A submessage did not fit the fixed-width length reserved for it.
    NestedMessageTooLarge,
}

/// Base-128 varint encoding: little-endian 7-bit groups, high bit set on
/// all bytes but the last.
pub open spec fn varint_enc(v: nat) -> Seq<u8>
    decreases v,
{
    if v < 128 {
        seq![v as u8]
    } else {
        seq![((v % 128) + 128) as u8] + varint_enc(v / 128)
    }
}

/// The value a varint byte string stands for.
pub open spec fn varint_dec(s: Seq<u8>) -> nat
    decreases s.len(),
{
    if s.len() == 0 {
        0
    } else {
        (s[0] as nat) % 128 + 128 * varint_dec(s.drop_first())
    }
}

/// A well-formed varint: nonempty, the high bit set on every byte but the
/// last and clear on the last.
pub open spec fn is_varint(s: Seq<u8>) -> bool {
    &&& s.len() >= 1
    &&& forall|i: int| 0 <= i < s.len() - 1 ==> #[trigger] s[i] >= 128
    &&& s[s.len() - 1] < 128
}

/// The tag byte string introducing a field: the varint of
/// `field_id * 8 + wire_type`.
pub open spec fn tag_enc(field_id: u32, wire: nat) -> Seq<u8> {
    varint_enc(field_id as nat * 8 + wire)
}

/// The fixed three-byte (non-minimal) varint of a submessage length,
/// valid for lengths below `2^21`.
pub open spec fn len3_enc(n: nat) -> Seq<u8> {
    seq![
        ((n % 128) + 128) as u8,
        (((n / 128) % 128) + 128) as u8,
        ((n / 16384) % 128) as u8,
    ]
}

/// The fixed two-byte (non-minimal) varint of a submessage length, valid
/// for lengths below `2^14`.
pub open spec fn len2_enc(n: nat) -> Seq<u8> {
    seq![((n % 128) + 128) as u8, ((n / 128) % 128) as u8]
}

/// A whole length-delimited field with a three-byte length.
pub open spec fn nested_enc(field_id: u32, body: Seq<u8>) -> Seq<u8> {
    tag_enc(field_id, 2) + len3_enc(body.len()) + body
}

/// A whole length-delimited field with a two-byte length.
pub open spec fn nested_small_enc(field_id: u32, body: Seq<u8>) -> Seq<u8> {
    tag_enc(field_id, 2) + len2_enc(body.len()) + body
}

/// Eight little-endian bytes of a 64-bit value (wire type 1).
pub open spec fn le8_enc(v: u64) -> Seq<u8> {
    seq![
        (v as nat % 256) as u8,
        ((v as nat / 0x100) % 256) as u8,
        ((v as nat / 0x10000) % 256) as u8,
        ((v as nat / 0x1000000) % 256) as u8,
        ((v as nat / 0x100000000) % 256) as u8,
        ((v as nat / 0x10000000000) % 256) as u8,
        ((v as nat / 0x1000000000000) % 256) as u8,
        ((v as nat / 0x100000000000000) % 256) as u8,
    ]
}

/// Decoding a varint gives back the encoded value.
pub proof fn lemma_varint_round_trip(v: nat)
    ensures
        varint_dec(varint_enc(v)) == v,
    decreases v,
{
    if v < 128 {
        let s = seq![v as u8];
        assert(varint_enc(v) == s);
        assert(s.drop_first() =~= Seq::<u8>::empty());
        assert(varint_dec(Seq::<u8>::empty()) == 0);
        assert((v as u8) as nat == v);
        assert(varint_dec(s) == v % 128 + 128 * 0);
    } else {
        lemma_varint_round_trip(v / 128);
        let b = ((v % 128) + 128) as u8;
        assert(varint_enc(v) == seq![b] + varint_enc(v / 128));
        assert((seq![b] + varint_enc(v / 128)).drop_first() =~= varint_enc(v / 128));
        assert(varint_dec(varint_enc(v)) == (b as nat) % 128 + 128 * varint_dec(varint_enc(v / 128)));
        assert((b as nat) % 128 == v % 128);
        assert(v % 128 + 128 * (v / 128) == v) by (nonlinear_arith);
    }
}

/// A varint encoding is well formed.
pub proof fn lemma_varint_wf(v: nat)
    ensures
        is_varint(varint_enc(v)),
    decreases v,
{
    if v < 128 {
    } else {
        lemma_varint_wf(v / 128);
        let s = varint_enc(v);
        let rest = varint_enc(v / 128);
        assert(s == seq![((v % 128) + 128) as u8] + rest);
        assert forall|i: int| 0 <= i < s.len() - 1 implies #[trigger] s[i] >= 128 by {
            if i > 0 {
                assert(s[i] == rest[i - 1]);
            }
        }
        assert(s[s.len() - 1] == rest[rest.len() - 1]);
    }
}

/// Powers of 128, to bound varint lengths.
pub open spec fn pow128(k: nat) -> nat
    decreases k,
{
    if k == 0 {
        1
    } else {
        128 * pow128((k - 1) as nat)
    }
}

/// A value below `128^k` encodes in at most `k` bytes.
pub proof fn lemma_varint_len_le(v: nat, k: nat)
    requires
        1 <= k,
        v < pow128(k),
    ensures
        varint_enc(v).len() <= k,
    decreases k,
{
    if v < 128 {
    } else {
        assert(pow128(k) == 128 * pow128((k - 1) as nat));
        assert(v / 128 < pow128((k - 1) as nat)) by (nonlinear_arith)
            requires
                v < 128 * pow128((k - 1) as nat),
        ;
        assert(k >= 2) by {
            if k == 1 {
                assert(pow128(1) == 128);
            }
        }
        lemma_varint_len_le(v / 128, (k - 1) as nat);
    }
}

/// Any 64-bit value encodes in at most ten bytes.
pub proof fn lemma_varint_len10(v: u64)
    ensures
        1 <= varint_enc(v as nat).len() <= 10,
{
    reveal_with_fuel(pow128, 11);
    assert(pow128(10) > 0x1_0000_0000_0000_0000);
    lemma_varint_len_le(v as nat, 10);
    lemma_varint_wf(v as nat);
}

/// The three-byte length form is a well-formed varint that decodes to the
/// length it was built from.
pub proof fn lemma_len3_round_trip(n: nat)
    requires
        n < 0x20_0000,
    ensures
        is_varint(len3_enc(n)),
        varint_dec(len3_enc(n)) == n,
        len3_enc(n).len() == 3,
{
    reveal_with_fuel(varint_dec, 5);
    let s = len3_enc(n);
    let s1 = s.drop_first();
    let s2 = s1.drop_first();
    assert(s1 =~= seq![(((n / 128) % 128) + 128) as u8, ((n / 16384) % 128) as u8]);
    assert(s2 =~= seq![((n / 16384) % 128) as u8]);
    assert(s2.drop_first() =~= Seq::<u8>::empty());
    assert(s[0] as nat == n % 128 + 128);
    assert(s1[0] as nat == (n / 128) % 128 + 128);
    assert(s2[0] as nat == (n / 16384) % 128);
    assert((n % 128 + 128) % 128 == n % 128) by (nonlinear_arith);
    assert(((n / 128) % 128 + 128) % 128 == (n / 128) % 128) by (nonlinear_arith);
    assert(((n / 16384) % 128) % 128 == (n / 16384) % 128) by (nonlinear_arith)
        requires
            n < 0x20_0000,
    ;
    assert(varint_dec(s2) == (n / 16384) % 128);
    assert(varint_dec(s1) == (n / 128) % 128 + 128 * ((n / 16384) % 128));
    assert(varint_dec(s) == n % 128 + 128 * ((n / 128) % 128 + 128 * ((n / 16384) % 128)));
    assert(n % 128 + 128 * ((n / 128) % 128 + 128 * ((n / 16384) % 128)) == n) by (nonlinear_arith)
        requires
            n < 0x20_0000,
    ;
}

/// The two-byte length form is a well-formed varint that decodes to the
/// length it was built from.
pub proof fn lemma_len2_round_trip(n: nat)
    requires
        n < 0x4000,
    ensures
        is_varint(len2_enc(n)),
        varint_dec(len2_enc(n)) == n,
        len2_enc(n).len() == 2,
{
    reveal_with_fuel(varint_dec, 4);
    let s = len2_enc(n);
    let s1 = s.drop_first();
    assert(s1 =~= seq![((n / 128) % 128) as u8]);
    assert(s1.drop_first() =~= Seq::<u8>::empty());
    assert(s[0] as nat == n % 128 + 128);
    assert(s1[0] as nat == (n / 128) % 128);
    assert((n % 128 + 128) % 128 == n % 128) by (nonlinear_arith);
    assert(((n / 128) % 128) % 128 == (n / 128) % 128) by (nonlinear_arith);
    assert(varint_dec(s1) == (n / 128) % 128);
    assert(varint_dec(s) == n % 128 + 128 * ((n / 128) % 128));
    assert((n / 128) % 128 == n / 128) by (nonlinear_arith)
        requires
            n < 0x4000,
    ;
    assert(n % 128 + 128 * (n / 128) == n) by (nonlinear_arith)
        requires
            n < 0x4000,
    ;
}

/// A `nested` field parses back into its parts: the tag stands for the
/// field id with wire type 2, the three length bytes decode to the body
/// length, and the tail is exactly the body handed to the builder.
pub proof fn lemma_nested_round_trip(field_id: u32, body: Seq<u8>)
    requires
        body.len() < 0x20_0000,
    ensures
        varint_dec(tag_enc(field_id, 2)) == field_id as nat * 8 + 2,
        varint_dec(len3_enc(body.len())) == body.len(),
        nested_enc(field_id, body).skip(
            tag_enc(field_id, 2).len() as int + 3,
        ) =~= body,
{
    lemma_varint_round_trip(field_id as nat * 8 + 2);
    lemma_len3_round_trip(body.len());
}

/// Append raw bytes to a byte vector.
pub fn extend_bytes(dst: &mut Vec<u8>, src: &[u8])
    ensures
        final(dst)@ == old(dst)@ + src@,
{
    dst.extend_from_slice(src);
    proof {
        assert forall|i: int| 0 <= i < dst@.len() implies dst@[i] == (old(dst)@ + src@)[i] by {
            if i >= old(dst)@.len() {
                assert(vstd::pervasive::cloned::<u8>(src@[i - old(dst)@.len()], dst@[i]));
            }
        }
        assert(dst@ =~= old(dst)@ + src@);
    }
}

/// An append-only byte buffer with helpers for the protobuf wire format.
pub struct ProtoEmitter {
    data: Vec<u8>,
}

impl View for ProtoEmitter {
    type V = Seq<u8>;

    closed spec fn view(&self) -> Seq<u8> {
        self.data@
    }
}

impl ProtoEmitter {
    pub fn new() -> (r: Self)
        ensures
            r@ == Seq::<u8>::empty(),
    {
        ProtoEmitter { data: Vec::new() }
    }

    /// Drop the contents, keeping the allocation.
    pub fn clear(&mut self)
        ensures
            final(self)@ == Seq::<u8>::empty(),
    {
        self.data.clear();
    }

    pub fn as_bytes(&self) -> (r: &[u8])
        ensures
            r@ == self@,
    {
        self.data.as_slice()
    }

    /// Append raw bytes unchanged.
    fn append_bytes(&mut self, other: &[u8])
        ensures
            final(self)@ == old(self)@ + other@,
    {
        extend_bytes(&mut self.data, other);
    }

    /// Append the varint of `val`.
    fn push_varint(&mut self, val: u64)
        ensures
            final(self)@ == old(self)@ + varint_enc(val as nat),
    {
        let ghost start = self@;
        let mut v: u64 = val;
        while v >= 128
            invariant
                start + varint_enc(val as nat) =~= self@ + varint_enc(v as nat),
            decreases v,
        {
            let ghost pre = self@;
            self.data.push(((v % 128) as u8) + 128);
            proof {
                assert(varint_enc(v as nat) == seq![((v as nat % 128) + 128) as u8] + varint_enc(
                    v as nat / 128,
                ));
                assert(self@ =~= pre + seq![((v as nat % 128) + 128) as u8]);
                assert(start + varint_enc(val as nat) =~= self@ + varint_enc(v as nat / 128));
            }
            v = v / 128;
        }
        let ghost pre = self@;
        self.data.push(v as u8);
        proof {
            assert(varint_enc(v as nat) == seq![v as u8]);
            assert(self@ =~= pre + seq![v as u8]);
            assert(final(self)@ =~= start + varint_enc(val as nat));
        }
    }

    /// Append a varint-valued field: tag, then the varint of `data`.
    ///
    /// Use for the protobuf types int32, int64, uint32, uint64, bool and
    /// enum (no zigzag: signed values are reinterpreted as unsigned).
    pub fn varint_field(&mut self, field_id: u32, data: u64)
        requires
            field_id < 0x2000_0000,
        ensures
            final(self)@ == old(self)@ + tag_enc(field_id, 0) + varint_enc(data as nat),
    {
        self.push_varint(field_id as u64 * 8);
        self.push_varint(data);
        assert(final(self)@ =~= old(self)@ + tag_enc(field_id, 0) + varint_enc(data as nat));
    }

    /// Append a string field: tag, byte length, raw UTF-8 bytes.
    pub fn string_field(&mut self, field_id: u32, data: &str)
        requires
            field_id < 0x2000_0000,
        ensures
            final(self)@ == old(self)@ + tag_enc(field_id, 2) + varint_enc(data.spec_bytes().len())
                + data.spec_bytes(),
    {
        let b = data.as_bytes();
        self.push_varint(field_id as u64 * 8 + 2);
        self.push_varint(b.len() as u64);
        self.append_bytes(b);
        assert(final(self)@ =~= old(self)@ + tag_enc(field_id, 2) + varint_enc(
            data.spec_bytes().len(),
        ) + data.spec_bytes());
    }

    /// Append a bytes field: same wire form as a string field.
    pub fn bytes_field(&mut self, field_id: u32, data: &[u8])
        requires
            field_id < 0x2000_0000,
        ensures
            final(self)@ == old(self)@ + tag_enc(field_id, 2) + varint_enc(data@.len()) + data@,
    {
        self.push_varint(field_id as u64 * 8 + 2);
        self.push_varint(data.len() as u64);
        self.append_bytes(data);
        assert(final(self)@ =~= old(self)@ + tag_enc(field_id, 2) + varint_enc(data@.len())
            + data@);
    }

    /// Append a fixed 64-bit field (wire type 1), eight bytes
    /// little-endian.  The value is given as its raw bit pattern, so an
    /// IEEE-754 double is passed as its bits.
    pub fn double_field(&mut self, field_id: u32, bits: u64)
        requires
            field_id < 0x2000_0000,
        ensures
            final(self)@ == old(self)@ + tag_enc(field_id, 1) + le8_enc(bits),
    {
        self.push_varint(field_id as u64 * 8 + 1);
        let ghost mid = self@;
        self.data.push((bits % 256) as u8);
        self.data.push(((bits / 0x100) % 256) as u8);
        self.data.push(((bits / 0x10000) % 256) as u8);
        self.data.push(((bits / 0x1000000) % 256) as u8);
        self.data.push(((bits / 0x100000000) % 256) as u8);
        self.data.push(((bits / 0x10000000000) % 256) as u8);
        self.data.push(((bits / 0x1000000000000) % 256) as u8);
        self.data.push(((bits / 0x100000000000000) % 256) as u8);
        assert(self@ =~= mid + le8_enc(bits));
        assert(final(self)@ =~= old(self)@ + tag_enc(field_id, 1) + le8_enc(bits));
    }

    /// Append a length-delimited field whose length is written as a fixed
    /// three-byte varint.  Fails, leaving the buffer untouched, when the
    /// body does not fit in `2^21 - 1` bytes.
    pub fn nested(&mut self, field_id: u32, body: &[u8]) -> (r: Result<(), EmitError>)
        requires
            field_id < 0x2000_0000,
        ensures
            r is Ok <==> body@.len() < 0x20_0000,
            r is Ok ==> final(self)@ == old(self)@ + nested_enc(field_id, body@),
            r is Err ==> r == Err::<(), EmitError>(EmitError::NestedMessageTooLarge)
                && final(self)@ == old(self)@,
    {
        if body.len() >= 0x20_0000 {
            return Err(EmitError::NestedMessageTooLarge);
        }
        self.push_varint(field_id as u64 * 8 + 2);
        let n = body.len();
        let ghost mid = self@;
        self.data.push(((n % 128) as u8) + 128);
        self.data.push((((n / 128) % 128) as u8) + 128);
        self.data.push(((n / 16384) % 128) as u8);
        assert(self@ =~= mid + len3_enc(n as nat));
        self.append_bytes(body);
        assert(final(self)@ =~= old(self)@ + nested_enc(field_id, body@));
        Ok(())
    }

    /// Like `nested` with a fixed two-byte length: the body is capped at
    /// `2^14 - 1` bytes.
    pub fn nested_small(&mut self, field_id: u32, body: &[u8]) -> (r: Result<(), EmitError>)
        requires
            field_id < 0x2000_0000,
        ensures
            r is Ok <==> body@.len() < 0x4000,
            r is Ok ==> final(self)@ == old(self)@ + nested_small_enc(field_id, body@),
            r is Err ==> r == Err::<(), EmitError>(EmitError::NestedMessageTooLarge)
                && final(self)@ == old(self)@,
    {
        if body.len() >= 0x4000 {
            return Err(EmitError::NestedMessageTooLarge);
        }
        self.push_varint(field_id as u64 * 8 + 2);
        let n = body.len();
        let ghost mid = self@;
        self.data.push(((n % 128) as u8) + 128);
        self.data.push(((n / 128) % 128) as u8);
        assert(self@ =~= mid + len2_enc(n as nat));
        self.append_bytes(body);
        assert(final(self)@ =~= old(self)@ + nested_small_enc(field_id, body@));
        Ok(())
    }
}

} // verus!
