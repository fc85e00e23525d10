//! The container: a four-byte tag, the payload length as a little-endian u64,
//! the CRC-32 of the payload as a little-endian u32, then the payload.
use vstd::prelude::*;

verus! {

/// Why a container was refused.
#[derive(Clone, Copy, Debug, PartialEq, Eq, Structural)]
pub enum CodecError {
    /// Fewer than the sixteen bytes of the header.
    TooShort,
    /// The first four bytes are not the tag.
    BadMagic,
    /// The declared length differs from the length of the payload.
    SizeMismatch,
    /// The checksum of the payload differs from the stored one.
    ChecksumMismatch,
}

impl CodecError {
    /// Whether the error concerns the framing rather than the checksum.
    pub open spec fn is_format_spec(self) -> bool {
        !(self is ChecksumMismatch)
    }

    pub fn is_format(&self) -> (r: bool)
        ensures
            r == self.is_format_spec(),
    {
        !matches!(self, CodecError::ChecksumMismatch)
    }
}

/// The length of the header.
pub const HEADER_LEN: usize = 16;

/// The tag "SGIL".
pub open spec fn magic() -> Seq<u8> {
    seq![0x53u8, 0x47u8, 0x49u8, 0x4cu8]
}

/// The CRC-32 (IEEE) checksum of a byte sequence.
pub uninterp spec fn crc32_of(data: Seq<u8>) -> u32;

/// Relies on crc32fast::hash: the CRC-32 checksum of the bytes, which depends
/// on the bytes alone.
#[verifier::external_body]
fn crc32(data: &[u8]) -> (r: u32)
    ensures
        r == crc32_of(data@),
{
    crc32fast::hash(data)
}

/// `x` written in `k` bytes, least significant first.
pub open spec fn le_encode(x: nat, k: nat) -> Seq<u8>
    decreases k,
{
    if k == 0 {
        seq![]
    } else {
        seq![(x % 256) as u8] + le_encode(x / 256, (k - 1) as nat)
    }
}

/// The number that the bytes `s` write, least significant first.
pub open spec fn le_value(s: Seq<u8>) -> nat
    decreases s.len(),
{
    if s.len() == 0 {
        0
    } else {
        s[0] as nat + 256 * le_value(s.subrange(1, s.len() as int))
    }
}

pub open spec fn pow256(k: nat) -> nat
    decreases k,
{
    if k == 0 {
        1
    } else {
        256 * pow256((k - 1) as nat)
    }
}

/// The container of a payload.
pub open spec fn container_spec(payload: Seq<u8>) -> Seq<u8> {
    magic() + le_encode(payload.len(), 8) + le_encode(crc32_of(payload) as nat, 4) + payload
}

/// The declared payload length of a container with a full header.
pub open spec fn declared_len(s: Seq<u8>) -> nat {
    le_value(s.subrange(4, 12))
}

/// The stored checksum of a container with a full header.
pub open spec fn stored_crc(s: Seq<u8>) -> nat {
    le_value(s.subrange(12, 16))
}

/// The bytes after the header.
pub open spec fn payload_of(s: Seq<u8>) -> Seq<u8> {
    s.subrange(16, s.len() as int)
}

/// What checking a container finds, in the order the checks are made.
pub open spec fn check_spec(s: Seq<u8>) -> Result<(), CodecError> {
    if s.len() < 16 {
        Err(CodecError::TooShort)
    } else if s.subrange(0, 4) != magic() {
        Err(CodecError::BadMagic)
    } else if declared_len(s) != s.len() - 16 {
        Err(CodecError::SizeMismatch)
    } else if stored_crc(s) != crc32_of(payload_of(s)) {
        Err(CodecError::ChecksumMismatch)
    } else {
        Ok(())
    }
}

proof fn lemma_le_round_trip(x: nat, k: nat)
    requires
        x < pow256(k),
    ensures
        le_encode(x, k).len() == k,
        le_value(le_encode(x, k)) == x,
    decreases k,
{
    if k > 0 {
        let p = pow256((k - 1) as nat);
        assert(x / 256 < p) by (nonlinear_arith)
            requires
                x < 256 * p,
        ;
        lemma_le_round_trip(x / 256, (k - 1) as nat);
        let e = le_encode(x, k);
        assert(e.subrange(1, e.len() as int) =~= le_encode(x / 256, (k - 1) as nat));
    }
}

proof fn lemma_pow256_facts()
    ensures
        pow256(4) == 0x1_0000_0000,
        pow256(8) == 0x1_0000_0000_0000_0000,
{
    reveal_with_fuel(pow256, 9);
}

proof fn lemma_byte_split(v: u64)
    by (bit_vector)
    ensures
        v & 0xffu64 == v % 256u64,
        v >> 8u64 == v / 256u64,
{
}

/// Append `v` as `k` bytes, least significant first.
fn push_le(out: &mut Vec<u8>, v: u64, k: usize)
    requires
        v < pow256(k as nat),
    ensures
        final(out)@ == old(out)@ + le_encode(v as nat, k as nat),
{
    let ghost start = out@;
    let mut rest = v;
    let mut i: usize = 0;
    while i < k
        invariant
            i <= k,
            start + le_encode(v as nat, k as nat) == out@ + le_encode(rest as nat, (k - i) as nat),
        decreases k - i,
    {
        proof {
            lemma_byte_split(rest);
        }
        let ghost before = out@;
        out.push((rest & 0xff) as u8);
        proof {
            assert(out@ + le_encode((rest / 256) as nat, (k - i - 1) as nat) =~= before + le_encode(
                rest as nat,
                (k - i) as nat,
            ));
        }
        rest = rest >> 8;
        i += 1;
    }
    assert(out@ + le_encode(rest as nat, 0) =~= out@);
}

/// The number written in `k` bytes of `s` from `start`, least significant first.
fn read_le(s: &[u8], start: usize, k: usize) -> (r: u64)
    requires
        start + k <= s@.len(),
        k <= 8,
    ensures
        r == le_value(s@.subrange(start as int, (start + k) as int)),
{
    let ghost end = (start + k) as int;
    let n = s.len();
    let mut v: u64 = 0;
    let mut i: usize = k;
    proof {
        reveal_with_fuel(pow256, 9);
    }
    while i > 0
        invariant
            i <= k <= 8,
            start + k <= s@.len(),
            n == s@.len(),
            end == start + k,
            v == le_value(s@.subrange(start + i, end)),
            v < pow256((k - i) as nat),
            pow256(7) * 256 == 0x1_0000_0000_0000_0000,
        decreases i,
    {
        let ghost before = v;
        let ghost tail = s@.subrange(start + i, end);
        let ghost whole = s@.subrange(start + i - 1, end);
        proof {
            assert(whole.subrange(1, whole.len() as int) =~= tail);
            lemma_pow256_monotone((k - i) as nat, 7);
            assert(v * 256 + 255 < 0x1_0000_0000_0000_0000) by (nonlinear_arith)
                requires
                    v < pow256((k - i) as nat),
                    pow256((k - i) as nat) <= pow256(7),
                    pow256(7) * 256 == 0x1_0000_0000_0000_0000,
            ;
        }
        v = v * 256 + s[start + (i - 1)] as u64;
        i -= 1;
        proof {
            assert(v < pow256((k - i) as nat)) by (nonlinear_arith)
                requires
                    v == before * 256 + s@[start + i] as int,
                    before < pow256((k - i - 1) as nat),
                    pow256((k - i) as nat) == 256 * pow256((k - i - 1) as nat),
                    s@[start + i] < 256,
            ;
        }
    }
    v
}

proof fn lemma_pow256_monotone(a: nat, b: nat)
    requires
        a <= b,
    ensures
        pow256(a) <= pow256(b),
    decreases b,
{
    if a < b {
        lemma_pow256_monotone(a, (b - 1) as nat);
    }
}

/// Frame a payload: tag, length, checksum, payload.
pub fn seal(payload: &[u8]) -> (r: Vec<u8>)
    ensures
        r@ == container_spec(payload@),
        r@.len() == HEADER_LEN + payload@.len(),
{
    let crc = crc32(payload);
    let mut out: Vec<u8> = Vec::new();
    out.push(0x53);
    out.push(0x47);
    out.push(0x49);
    out.push(0x4c);
    proof {
        lemma_pow256_facts();
    }
    push_le(&mut out, payload.len() as u64, 8);
    push_le(&mut out, crc as u64, 4);
    let mut i: usize = 0;
    let ghost head = out@;
    while i < payload.len()
        invariant
            i <= payload@.len(),
            out@ == head + payload@.subrange(0, i as int),
        decreases payload@.len() - i,
    {
        out.push(payload[i]);
        i += 1;
        assert(out@ =~= head + payload@.subrange(0, i as int));
    }
    proof {
        assert(payload@.subrange(0, payload@.len() as int) =~= payload@);
        assert(head =~= magic() + le_encode(payload@.len(), 8) + le_encode(crc as nat, 4));
        lemma_le_round_trip(payload@.len(), 8);
        lemma_le_round_trip(crc as nat, 4);
    }
    out
}

fn has_magic(input: &[u8]) -> (r: bool)
    requires
        input@.len() >= 4,
    ensures
        r == (input@.subrange(0, 4) == magic()),
{
    let r = input[0] == 0x53 && input[1] == 0x47 && input[2] == 0x49 && input[3] == 0x4c;
    proof {
        if r {
            assert(input@.subrange(0, 4) =~= magic());
        } else {
            let m = magic();
            assert(m[0] == 0x53 && m[1] == 0x47 && m[2] == 0x49 && m[3] == 0x4c);
            if input@.subrange(0, 4) == magic() {
                assert(input@.subrange(0, 4)[0] == input@[0]);
                assert(input@.subrange(0, 4)[1] == input@[1]);
                assert(input@.subrange(0, 4)[2] == input@[2]);
                assert(input@.subrange(0, 4)[3] == input@[3]);
            }
        }
    }
    r
}

/// Check a container without decoding it.
pub fn verify_data(input: &[u8]) -> (r: Result<(), CodecError>)
    ensures
        r == check_spec(input@),
{
    if input.len() < HEADER_LEN {
        return Err(CodecError::TooShort);
    }
    if !has_magic(input) {
        return Err(CodecError::BadMagic);
    }
    let declared = read_le(input, 4, 8);
    if declared != (input.len() - HEADER_LEN) as u64 {
        return Err(CodecError::SizeMismatch);
    }
    let stored = read_le(input, 12, 4);
    let payload = vstd::slice::slice_subrange(input, HEADER_LEN, input.len());
    let actual = crc32(payload);
    if stored != actual as u64 {
        return Err(CodecError::ChecksumMismatch);
    }
    Ok(())
}

/// The payload of a container that passes every check.
pub fn open(input: &[u8]) -> (r: Result<Vec<u8>, CodecError>)
    ensures
        match r {
            Ok(p) => check_spec(input@) == Ok::<(), CodecError>(()) && p@ == payload_of(input@),
            Err(e) => check_spec(input@) == Err::<(), CodecError>(e),
        },
{
    match verify_data(input) {
        Ok(()) => {
            let payload = vstd::slice::slice_subrange(input, HEADER_LEN, input.len());
            Ok(vstd::slice::slice_to_vec(payload))
        },
        Err(e) => Err(e),
    }
}

/// Every sealed payload passes the checks, and opening it gives the payload back.
pub proof fn sealed_is_valid(payload: Seq<u8>)
    requires
        payload.len() < pow256(8),
    ensures
        check_spec(container_spec(payload)) == Ok::<(), CodecError>(()),
        payload_of(container_spec(payload)) == payload,
        container_spec(payload).len() == 16 + payload.len(),
{
    lemma_pow256_facts();
    lemma_le_round_trip(payload.len(), 8);
    lemma_le_round_trip(crc32_of(payload) as nat, 4);
    let s = container_spec(payload);
    assert(s.subrange(0, 4) =~= magic());
    assert(s.subrange(4, 12) =~= le_encode(payload.len(), 8));
    assert(s.subrange(12, 16) =~= le_encode(crc32_of(payload) as nat, 4));
    assert(payload_of(s) =~= payload);
}

/// The buffer that repair decodes: the declared number of bytes, taken from
/// the payload as far as it reaches and zero beyond.
pub open spec fn padded_spec(s: Seq<u8>) -> Seq<u8> {
    let p = payload_of(s);
    Seq::new(declared_len(s), |i: int| if i < p.len() { p[i] } else { 0u8 })
}

/// Whether a container with a full header is whole: its payload has the
/// declared length and the stored checksum.
pub open spec fn intact_spec(s: Seq<u8>) -> bool {
    payload_of(s).len() == declared_len(s) && stored_crc(s) == crc32_of(payload_of(s))
}

/// The payload of a possibly truncated or corrupted container, padded with
/// zeros to the declared length, and whether the container was whole. Only a
/// short header or a wrong tag is refused, and a declared length that no
/// buffer of this machine can hold.
pub fn repair_frame(input: &[u8]) -> (r: Result<(Vec<u8>, bool), CodecError>)
    ensures
        input@.len() < 16 ==> r == Err::<(Vec<u8>, bool), CodecError>(CodecError::TooShort),
        input@.len() >= 16 && input@.subrange(0, 4) != magic() ==> r == Err::<(Vec<u8>, bool), CodecError>(
            CodecError::BadMagic,
        ),
        input@.len() >= 16 && input@.subrange(0, 4) == magic() && declared_len(input@) > usize::MAX
            ==> r == Err::<(Vec<u8>, bool), CodecError>(CodecError::SizeMismatch),
        input@.len() >= 16 && input@.subrange(0, 4) == magic() && declared_len(input@) <= usize::MAX
            ==> r is Ok,
        r matches Ok((p, valid)) ==> p@ == padded_spec(input@) && valid == intact_spec(input@),
{
    if input.len() < HEADER_LEN {
        return Err(CodecError::TooShort);
    }
    if !has_magic(input) {
        return Err(CodecError::BadMagic);
    }
    let declared = read_le(input, 4, 8);
    if declared > usize::MAX as u64 {
        return Err(CodecError::SizeMismatch);
    }
    let size = declared as usize;
    let stored = read_le(input, 12, 4);
    let payload = vstd::slice::slice_subrange(input, HEADER_LEN, input.len());
    let actual = crc32(payload);
    let valid = stored == actual as u64 && payload.len() == size;
    let mut out: Vec<u8> = Vec::new();
    let mut i: usize = 0;
    while i < size
        invariant
            i <= size,
            size == declared_len(input@),
            payload@ == payload_of(input@),
            out@ == padded_spec(input@).subrange(0, i as int),
        decreases size - i,
    {
        if i < payload.len() {
            out.push(payload[i]);
        } else {
            out.push(0);
        }
        i += 1;
        assert(out@ =~= padded_spec(input@).subrange(0, i as int));
    }
    assert(out@ =~= padded_spec(input@));
    Ok((out, valid))
}

/// Changing one payload byte of a sealed container never breaks its framing:
/// the checks then fail on the checksum exactly when the payload's checksum
/// changed.
pub proof fn payload_change_detected(payload: Seq<u8>, i: int, v: u8)
    requires
        payload.len() < pow256(8),
        0 <= i < payload.len(),
    ensures
        check_spec(container_spec(payload).update(16 + i, v)) == if crc32_of(payload.update(i, v))
            == crc32_of(payload) {
            Ok::<(), CodecError>(())
        } else {
            Err::<(), CodecError>(CodecError::ChecksumMismatch)
        },
{
    sealed_is_valid(payload);
    let s = container_spec(payload);
    let t = s.update(16 + i, v);
    assert(t.subrange(0, 4) =~= s.subrange(0, 4));
    assert(t.subrange(4, 12) =~= s.subrange(4, 12));
    assert(t.subrange(12, 16) =~= s.subrange(12, 16));
    assert(payload_of(t) =~= payload.update(i, v));
}

} // verus!
