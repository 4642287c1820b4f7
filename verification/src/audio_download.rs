use vstd::prelude::*;

verus! {

/// The smallest size, in bytes, a downloaded copy of the soundtrack is trusted at.
pub const MIN_EXPECTED_FILE_SIZE: u64 = 50_000_000;

/// The largest size, in bytes, a downloaded copy of the soundtrack is trusted at.
pub const MAX_EXPECTED_FILE_SIZE: u64 = 100_000_000;

/// Whether a file of `size` bytes lies in the size range expected of the soundtrack,
/// bounds included; a file outside it is treated as a broken download.
pub fn audio_size_plausible(size: u64) -> (ok: bool)
    ensures
        ok == (MIN_EXPECTED_FILE_SIZE <= size <= MAX_EXPECTED_FILE_SIZE),
{
    !(size < MIN_EXPECTED_FILE_SIZE || size > MAX_EXPECTED_FILE_SIZE)
}

} // verus!
