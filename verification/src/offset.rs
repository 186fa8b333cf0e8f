//! The sidecar that remembers where reading stopped: its name, and the eight
//! little-endian bytes it holds.

use byteorder::ByteOrder;
use byteorder::LittleEndian;
use vstd::prelude::*;

use crate::errors::ErrorKind;

verus! {

/// Number of bytes in a sidecar file.
pub const STATE_LEN: usize = 8;

/// The number that `bytes` spell, least significant byte first.
pub open spec fn le_value(bytes: Seq<u8>) -> nat
    decreases bytes.len(),
{
    if bytes.len() == 0 {
        0
    } else {
        bytes[0] as nat + 256 * le_value(bytes.drop_first())
    }
}

/// The `width` low-order bytes of `value`, least significant byte first.
pub open spec fn le_bytes(value: nat, width: nat) -> Seq<u8>
    decreases width,
{
    if width == 0 {
        Seq::empty()
    } else {
        seq![(value % 256) as u8] + le_bytes(value / 256, (width - 1) as nat)
    }
}

/// 256 to the power `width`: the number of values that `width` bytes tell apart.
pub open spec fn radix(width: nat) -> nat
    decreases width,
{
    if width == 0 {
        1
    } else {
        256 * radix((width - 1) as nat)
    }
}

/// What a sidecar of the given content restores: the cursor spelt by its
/// first eight bytes, or nothing when it is shorter than that.
pub open spec fn stored_offset(bytes: Seq<u8>) -> Option<u64> {
    if bytes.len() >= 8 {
        Some(le_value(bytes.subrange(0, 8)) as u64)
    } else {
        None
    }
}

/// The name of the sidecar that belongs to a log file named `name`: a dot,
/// the name, and the suffix `.state`.
pub open spec fn state_name(name: Seq<u8>) -> Seq<u8> {
    seq![46u8] + name + seq![46u8, 115u8, 116u8, 97u8, 116u8, 101u8]
}

/// As many bytes are written as were asked for.
pub proof fn lemma_le_bytes_len(value: nat, width: nat)
    ensures
        le_bytes(value, width).len() == width,
    decreases width,
{
    if width > 0 {
        lemma_le_bytes_len(value / 256, (width - 1) as nat);
    }
}

/// Reading back what was written gives the number written.
pub proof fn lemma_le_value_of_bytes(value: nat, width: nat)
    requires
        value < radix(width),
    ensures
        le_value(le_bytes(value, width)) == value,
    decreases width,
{
    if width > 0 {
        let rest = le_bytes(value / 256, (width - 1) as nat);
        let all = le_bytes(value, width);
        lemma_le_bytes_len(value / 256, (width - 1) as nat);
        assert(all.drop_first() =~= rest);
        lemma_le_value_of_bytes(value / 256, (width - 1) as nat);
    }
}

/// Eight bytes tell apart the values of a `u64`.
pub proof fn lemma_radix_8()
    ensures
        radix(8) == 0x1_0000_0000_0000_0000,
{
    reveal_with_fuel(radix, 9);
}

/// `byteorder::LittleEndian::write_u64` on a fresh buffer of eight bytes:
/// the bytes it leaves spell `pos`, least significant byte first.
#[verifier::external_body]
fn write_le_u64(pos: u64) -> (out: Vec<u8>)
    ensures
        out@ == le_bytes(pos as nat, 8),
{
    let mut buf = [0u8; 8];
    LittleEndian::write_u64(&mut buf, pos);
    buf.to_vec()
}

/// `byteorder::LittleEndian::read_u64`: the number spelt by the first eight
/// bytes of `buf`, least significant byte first. It panics on a shorter
/// slice, which the precondition excludes.
#[verifier::external_body]
fn read_le_u64(buf: &[u8]) -> (pos: u64)
    requires
        buf@.len() >= 8,
    ensures
        pos as nat == le_value(buf@.subrange(0, 8)),
{
    LittleEndian::read_u64(buf)
}

/// The content of the sidecar for a cursor at `pos`.
pub fn encode_offset(pos: u64) -> (out: Vec<u8>)
    ensures
        out@ == le_bytes(pos as nat, 8),
        out@.len() == STATE_LEN,
        stored_offset(out@) == Some(pos),
{
    let out = write_le_u64(pos);
    proof {
        lemma_le_bytes_len(pos as nat, 8);
        lemma_radix_8();
        lemma_le_value_of_bytes(pos as nat, 8);
        assert(out@.subrange(0, 8) =~= out@);
    }
    out
}

/// The cursor that a sidecar of the given content holds. A sidecar shorter
/// than eight bytes cannot be read; bytes after the eighth are ignored.
pub fn decode_offset(bytes: &[u8]) -> (r: Result<u64, ErrorKind>)
    ensures
        match stored_offset(bytes@) {
            Some(pos) => r == Ok::<u64, ErrorKind>(pos),
            None => r == Err::<u64, ErrorKind>(ErrorKind::IOError),
        },
{
    if bytes.len() < STATE_LEN {
        Err(ErrorKind::IOError)
    } else {
        let pos = read_le_u64(bytes);
        Ok(pos)
    }
}

/// The name of the sidecar for the log file named `name`.
pub fn state_file_name(name: &[u8]) -> (out: Vec<u8>)
    requires
        name@.len() + 7 <= usize::MAX,
    ensures
        out@ == state_name(name@),
{
    let mut out: Vec<u8> = Vec::new();
    out.push(46u8);
    let mut i: usize = 0;
    while i < name.len()
        invariant
            i <= name@.len(),
            out@ == seq![46u8] + name@.subrange(0, i as int),
        decreases name@.len() - i,
    {
        out.push(name[i]);
        i += 1;
        assert(out@ =~= seq![46u8] + name@.subrange(0, i as int));
    }
    assert(name@.subrange(0, i as int) =~= name@);
    out.push(46u8);
    out.push(115u8);
    out.push(116u8);
    out.push(97u8);
    out.push(116u8);
    out.push(101u8);
    assert(out@ =~= state_name(name@));
    out
}

/// A cursor that was saved is the cursor that is restored.
pub proof fn lemma_offset_round_trip(pos: u64)
    ensures
        stored_offset(le_bytes(pos as nat, 8)) == Some(pos),
{
    lemma_le_bytes_len(pos as nat, 8);
    lemma_radix_8();
    lemma_le_value_of_bytes(pos as nat, 8);
    assert(le_bytes(pos as nat, 8).subrange(0, 8) =~= le_bytes(pos as nat, 8));
}

} // verus!
