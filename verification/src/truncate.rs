//! Arithmetic of front truncation: how many bytes may be reclaimed from the
//! head of a log file, and where the read cursor lands afterwards.

use vstd::prelude::*;

verus! {

/// Whole blocks between `lower_size` and `size`, rounded towards minus
/// infinity; not positive when `size` does not reach `lower_size + blksize`.
pub open spec fn spare_blocks(size: int, lower_size: int, blksize: int) -> int
    recommends
        blksize > 0,
{
    (size - lower_size) / blksize
}

/// Bytes to remove from the front of a file of `size` bytes. Nothing is
/// removed unless the file has outgrown `upper_size`; then every whole block
/// above `lower_size` goes.
pub open spec fn removable_bytes(size: int, lower_size: int, upper_size: int, blksize: int) -> int
    recommends
        blksize > 0,
{
    if size > upper_size && spare_blocks(size, lower_size, blksize) > 0 {
        spare_blocks(size, lower_size, blksize) * blksize
    } else {
        0
    }
}

/// The cursor after `bytes` were removed in front of it. A cursor that lay
/// inside the removed range lands on the new start of the file.
pub open spec fn shifted_cursor(cursor: int, bytes: int) -> int {
    if cursor >= bytes {
        cursor - bytes
    } else {
        0
    }
}

/// What a truncation does to a file: how much goes, and the size and cursor
/// that remain.
#[derive(Clone, Copy, Debug, PartialEq, Eq, Structural)]
pub struct Truncation {
    /// Bytes removed from the front; zero when nothing is to be done.
    pub bytes: u64,
    /// File size once the bytes are gone.
    pub size: u64,
    /// Read cursor once the bytes are gone.
    pub cursor: u64,
}

/// The removable bytes are a whole number of blocks that fits between
/// `lower_size` and `size`.
pub proof fn lemma_removable_bounds(size: int, lower_size: int, upper_size: int, blksize: int)
    requires
        blksize > 0,
        0 <= lower_size,
        0 <= size,
    ensures
        0 <= removable_bytes(size, lower_size, upper_size, blksize) <= size,
        removable_bytes(size, lower_size, upper_size, blksize) > 0 ==> size > upper_size
            && size - removable_bytes(size, lower_size, upper_size, blksize) >= lower_size
            && size - removable_bytes(size, lower_size, upper_size, blksize) < lower_size + blksize,
        removable_bytes(size, lower_size, upper_size, blksize) % blksize == 0,
{
    let d = size - lower_size;
    let q = d / blksize;
    assert(d == q * blksize + d % blksize && 0 <= d % blksize < blksize) by (nonlinear_arith)
        requires
            blksize > 0,
            q == d / blksize,
    ;
    assert((q * blksize) % blksize == 0) by (nonlinear_arith)
        requires
            blksize > 0,
    ;
    assert(q > 0 ==> q * blksize > 0) by (nonlinear_arith)
        requires
            blksize > 0,
    ;
    assert(0int % blksize == 0) by (nonlinear_arith)
        requires
            blksize > 0,
    ;
}

/// Bytes to remove from the front of a file of `size` bytes.
pub fn bytes_to_remove(size: u64, lower_size: u64, upper_size: u64, blksize: u64) -> (bytes: u64)
    requires
        blksize > 0,
    ensures
        bytes == removable_bytes(size as int, lower_size as int, upper_size as int, blksize as int),
        bytes <= size,
{
    proof {
        lemma_removable_bounds(size as int, lower_size as int, upper_size as int, blksize as int);
    }
    if size > upper_size && size > lower_size {
        let spare: u64 = size - lower_size;
        let blocks: u64 = spare / blksize;
        assert(blocks == spare_blocks(size as int, lower_size as int, blksize as int));
        assert(blocks * blksize <= spare) by (nonlinear_arith)
            requires
                blksize > 0,
                blocks == spare / blksize,
        ;
        if blocks > 0 {
            blocks * blksize
        } else {
            0
        }
    } else {
        let ghost d = size as int - lower_size as int;
        let ghost b = blksize as int;
        assert(d <= 0 ==> d / b <= 0) by (nonlinear_arith)
            requires
                b > 0,
        ;
        0
    }
}

/// The cursor after `bytes` were removed from the front of the file.
pub fn shift_cursor(cursor: u64, bytes: u64) -> (moved: u64)
    ensures
        moved == shifted_cursor(cursor as int, bytes as int),
{
    if cursor >= bytes {
        cursor - bytes
    } else {
        0
    }
}

/// Plans the truncation of a file of `size` bytes that has been read up to
/// `cursor`.
pub fn plan_truncation(
    size: u64,
    cursor: u64,
    lower_size: u64,
    upper_size: u64,
    blksize: u64,
) -> (plan: Truncation)
    requires
        blksize > 0,
    ensures
        plan.bytes == removable_bytes(
            size as int,
            lower_size as int,
            upper_size as int,
            blksize as int,
        ),
        plan.size == size - plan.bytes,
        plan.cursor == shifted_cursor(cursor as int, plan.bytes as int),
{
    let bytes = bytes_to_remove(size, lower_size, upper_size, blksize);
    Truncation { bytes, size: size - bytes, cursor: shift_cursor(cursor, bytes) }
}

/// Truncation arithmetic. For a file of `size` bytes above `upper_size`, read
/// up to a cursor inside the file: whole blocks above `lower_size` are
/// removed, the size drops by as much, the cursor moves back by as much when
/// it lay beyond the removed range, and it always ends inside the new file.
pub proof fn lemma_truncation_arithmetic(
    size: int,
    cursor: int,
    lower_size: int,
    upper_size: int,
    blksize: int,
)
    requires
        blksize > 0,
        0 <= lower_size,
        0 <= cursor <= size,
        size > upper_size,
    ensures
        ({
            let blocks = (size - lower_size) / blksize;
            let bytes = removable_bytes(size, lower_size, upper_size, blksize);
            let after = shifted_cursor(cursor, bytes);
            &&& blocks > 0 ==> bytes == blocks * blksize
            &&& blocks <= 0 ==> bytes == 0
            &&& 0 <= bytes <= size
            &&& cursor >= bytes ==> after == cursor - bytes
            &&& 0 <= after <= size - bytes
        }),
{
    lemma_removable_bounds(size, lower_size, upper_size, blksize);
}

} // verus!
