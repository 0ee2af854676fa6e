//! Snapshot framing: a header, a body, and the little-endian CRC32C of the body.
//!
//! Encoding values to and from bytes happens outside the library; here the frame is
//! built and checked.

use vstd::prelude::*;
use vstd::string::StringExecFns;
use crate::text::{decimal_text, hex_digits, push_decimal, push_hex_digits};

verus! {

/// Magic bytes at the start of every snapshot header.
pub open spec fn spec_magic() -> Seq<u8> {
    seq![76u8, 69u8, 77u8, 83u8]
}

/// The CRC32C (Castagnoli) checksum of a byte sequence.
pub uninterp spec fn crc32c_of(data: Seq<u8>) -> u32;

/// `crc32c::crc32c`: the CRC32C of the whole slice. The contract names the result and
/// claims only that it is a function of the bytes (the crate computes the same value
/// with or without hardware support).
#[verifier::external_body]
fn body_checksum(body: &[u8]) -> (c: u32)
    ensures
        c == crc32c_of(body@),
{
    crc32c::crc32c(body)
}

/// A rejected snapshot.
#[derive(Debug, Clone, PartialEq, Eq)]
pub struct SnapshotError {
    pub message: String,
}

/// Little-endian bytes of a 32-bit value.
pub open spec fn le_bytes(c: u32) -> Seq<u8> {
    seq![(c % 256) as u8, ((c / 256) % 256) as u8, ((c / 65536) % 256) as u8, (c / 16777216) as u8]
}

/// The 32-bit value of four little-endian bytes.
pub open spec fn from_le(b: Seq<u8>) -> int {
    b[0] + 256 * b[1] + 65536 * b[2] + 16777216 * b[3]
}

proof fn lemma_le_round_trip(c: u32)
    ensures
        from_le(le_bytes(c)) == c,
{
    let b = le_bytes(c);
    assert(b[0] == c % 256);
    assert(b[1] == (c / 256) % 256);
    assert(b[2] == (c / 65536) % 256);
    assert(b[3] == c / 16777216) by {
        assert(c / 16777216 < 256);
    }
    assert(c == c % 256 + 256 * ((c / 256) % 256) + 65536 * ((c / 65536) % 256) + 16777216 * (c / 16777216)) by (nonlinear_arith);
}

fn le_bytes_of(c: u32) -> (r: Vec<u8>)
    ensures
        r@ == le_bytes(c),
{
    let mut r: Vec<u8> = Vec::new();
    r.push((c % 256) as u8);
    r.push(((c / 256) % 256) as u8);
    r.push(((c / 65536) % 256) as u8);
    r.push((c / 16777216) as u8);
    proof {
        assert(r@ =~= le_bytes(c));
    }
    r
}

/// Header, then body, then the little-endian CRC32C of the body.
pub open spec fn spec_frame(header: Seq<u8>, body: Seq<u8>) -> Seq<u8> {
    header + body + le_bytes(crc32c_of(body))
}

/// Frame an encoded header and body.
pub fn frame_snapshot(header: &[u8], body: &[u8]) -> (r: Vec<u8>)
    ensures
        r@ == spec_frame(header@, body@),
{
    let checksum = body_checksum(body);
    let mut bytes: Vec<u8> = Vec::new();
    let mut i: usize = 0;
    while i < header.len()
        invariant
            i <= header@.len(),
            bytes@ == header@.subrange(0, i as int),
        decreases header@.len() - i,
    {
        bytes.push(header[i]);
        proof {
            assert(bytes@ =~= header@.subrange(0, i + 1));
        }
        i = i + 1;
    }
    let mut j: usize = 0;
    while j < body.len()
        invariant
            j <= body@.len(),
            bytes@ == header@ + body@.subrange(0, j as int),
        decreases body@.len() - j,
    {
        bytes.push(body[j]);
        proof {
            assert(bytes@ =~= header@ + body@.subrange(0, j + 1));
        }
        j = j + 1;
    }
    let tail = le_bytes_of(checksum);
    let mut k: usize = 0;
    while k < 4
        invariant
            k <= 4,
            tail@ == le_bytes(checksum),
            bytes@ == header@ + body@ + tail@.subrange(0, k as int),
        decreases 4 - k,
    {
        bytes.push(tail[k]);
        proof {
            assert(bytes@ =~= header@ + body@ + tail@.subrange(0, k + 1));
        }
        k = k + 1;
    }
    proof {
        assert(header@.subrange(0, header@.len() as int) =~= header@);
        assert(body@.subrange(0, body@.len() as int) =~= body@);
        assert(tail@.subrange(0, 4) =~= tail@);
        assert(bytes@ =~= spec_frame(header@, body@));
    }
    bytes
}

/// The message for a snapshot too short to hold the checksum.
pub open spec fn spec_too_short_message(n: nat) -> Seq<char> {
    "engine snapshot body too short: "@ + decimal_text(n) + " bytes after header, need at least 4 for the checksum"@
}

/// The message for a checksum mismatch.
pub open spec fn spec_mismatch_message(stored: u32, computed: u32) -> Seq<char> {
    "engine snapshot checksum mismatch: stored 0x"@ + hex_digits(stored as nat, 8) + ", computed 0x"@
        + hex_digits(computed as nat, 8)
}

/// Accept a body whose stored checksum equals the computed one.
pub fn checksum_verdict(body: &[u8], stored: u32, computed: u32) -> (r: Result<Vec<u8>, SnapshotError>)
    ensures
        stored == computed ==> (r is Ok && r->Ok_0@ == body@),
        stored != computed ==> (r is Err && r->Err_0.message@ == spec_mismatch_message(stored, computed)),
{
    if stored != computed {
        let mut msg = String::from_str("engine snapshot checksum mismatch: stored 0x");
        push_hex_digits(&mut msg, stored as u64, 8);
        msg.append(", computed 0x");
        push_hex_digits(&mut msg, computed as u64, 8);
        return Err(SnapshotError { message: msg });
    }
    let mut out: Vec<u8> = Vec::new();
    let mut i: usize = 0;
    while i < body.len()
        invariant
            i <= body@.len(),
            out@ == body@.subrange(0, i as int),
        decreases body@.len() - i,
    {
        out.push(body[i]);
        proof {
            assert(out@ =~= body@.subrange(0, i + 1));
        }
        i = i + 1;
    }
    proof {
        assert(body@.subrange(0, body@.len() as int) =~= body@);
    }
    Ok(out)
}

/// What checking the part of a snapshot after its header gives: the body when the
/// stored checksum matches, else why not.
pub open spec fn spec_unframe(rest: Seq<u8>) -> Result<Seq<u8>, Seq<char>> {
    if rest.len() < 4 {
        Err(spec_too_short_message(rest.len()))
    } else {
        let body = rest.subrange(0, rest.len() - 4);
        let stored = from_le(rest.subrange(rest.len() - 4, rest.len() as int));
        if stored == crc32c_of(body) {
            Ok(body)
        } else {
            Err(spec_mismatch_message(stored as u32, crc32c_of(body)))
        }
    }
}

/// Split the part of a snapshot after its header into body and checksum, and accept
/// the body when the checksum matches.
pub fn unframe_body(rest: &[u8]) -> (r: Result<Vec<u8>, SnapshotError>)
    ensures
        match spec_unframe(rest@) {
            Ok(b) => r is Ok && r->Ok_0@ == b,
            Err(m) => r is Err && r->Err_0.message@ == m,
        },
{
    let n = rest.len();
    if n < 4 {
        let mut msg = String::from_str("engine snapshot body too short: ");
        push_decimal(&mut msg, n as u128);
        msg.append(" bytes after header, need at least 4 for the checksum");
        return Err(SnapshotError { message: msg });
    }
    let body_len = n - 4;
    let mut body: Vec<u8> = Vec::new();
    let mut i: usize = 0;
    while i < body_len
        invariant
            body_len == rest@.len() - 4,
            i <= body_len,
            body@ == rest@.subrange(0, i as int),
        decreases body_len - i,
    {
        body.push(rest[i]);
        proof {
            assert(body@ =~= rest@.subrange(0, i + 1));
        }
        i = i + 1;
    }
    let stored: u32 = rest[body_len] as u32 + 256 * (rest[body_len + 1] as u32) + 65536 * (rest[body_len + 2] as u32)
        + 16777216 * (rest[body_len + 3] as u32);
    proof {
        let tail = rest@.subrange(rest@.len() - 4, rest@.len() as int);
        assert(tail[0] == rest@[body_len as int] && tail[1] == rest@[body_len + 1] && tail[2] == rest@[body_len + 2]
            && tail[3] == rest@[body_len + 3]);
        assert(stored == from_le(tail));
    }
    let computed = body_checksum(body.as_slice());
    checksum_verdict(body.as_slice(), stored, computed)
}

/// Reading back what was framed gives the body: checking the frame of `body` (after
/// its header) accepts and returns `body`.
pub proof fn lemma_unframe_of_frame(header: Seq<u8>, body: Seq<u8>)
    ensures
        spec_frame(header, body).subrange(header.len() as int, spec_frame(header, body).len() as int) == body
            + le_bytes(crc32c_of(body)),
        spec_unframe(body + le_bytes(crc32c_of(body))) == Ok::<Seq<u8>, Seq<char>>(body),
{
    let rest = body + le_bytes(crc32c_of(body));
    assert(spec_frame(header, body).subrange(header.len() as int, spec_frame(header, body).len() as int) =~= rest);
    assert(rest.subrange(0, rest.len() - 4) =~= body);
    assert(rest.subrange(rest.len() - 4, rest.len() as int) =~= le_bytes(crc32c_of(body)));
    lemma_le_round_trip(crc32c_of(body));
}

/// The message for a header whose magic bytes are wrong.
pub open spec fn bytes_debug(b: Seq<u8>) -> Seq<char> {
    "["@ + decimal_text(b[0] as nat) + ", "@ + decimal_text(b[1] as nat) + ", "@ + decimal_text(b[2] as nat) + ", "@
        + decimal_text(b[3] as nat) + "]"@
}

fn push_bytes_debug(out: &mut String, b: &[u8; 4])
    ensures
        final(out)@ == old(out)@ + bytes_debug(b@),
{
    out.append("[");
    push_decimal(out, b[0] as u128);
    out.append(", ");
    push_decimal(out, b[1] as u128);
    out.append(", ");
    push_decimal(out, b[2] as u128);
    out.append(", ");
    push_decimal(out, b[3] as u128);
    out.append("]");
}

/// Check a decoded header: the magic bytes must be `LEMS` and the version must be the
/// running engine's.
pub fn check_snapshot_header(magic: &[u8; 4], engine_version: &str, expected_version: &str) -> (r: Result<(), SnapshotError>)
    ensures
        magic@ != spec_magic() ==> (r is Err && r->Err_0.message@ == "engine snapshot magic mismatch: expected "@
            + bytes_debug(spec_magic()) + ", got "@ + bytes_debug(magic@)),
        magic@ == spec_magic() && engine_version@ != expected_version@ ==> (r is Err && r->Err_0.message@
            == "engine snapshot version mismatch: snapshot is '"@ + engine_version@ + "', this engine is '"@
            + expected_version@ + "'"@),
        r is Ok <==> (magic@ == spec_magic() && engine_version@ == expected_version@),
{
    let expected: [u8; 4] = [76u8, 69u8, 77u8, 83u8];
    proof {
        assert(expected@ =~= spec_magic());
    }
    if !(magic[0] == 76 && magic[1] == 69 && magic[2] == 77 && magic[3] == 83) {
        proof {
            if magic@ == spec_magic() {
                assert(magic@[0] == 76u8);
            }
        }
        let mut msg = String::from_str("engine snapshot magic mismatch: expected ");
        push_bytes_debug(&mut msg, &expected);
        msg.append(", got ");
        push_bytes_debug(&mut msg, magic);
        return Err(SnapshotError { message: msg });
    }
    proof {
        assert(magic@ =~= spec_magic());
    }
    if crate::text::compare_text(engine_version, expected_version) != 0 {
        let mut msg = String::from_str("engine snapshot version mismatch: snapshot is '");
        msg.append(engine_version);
        msg.append("', this engine is '");
        msg.append(expected_version);
        msg.append("'");
        return Err(SnapshotError { message: msg });
    }
    Ok(())
}

} // verus!
