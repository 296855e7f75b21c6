use vstd::prelude::*;

verus! {

/// Bytes that one message takes on average.
pub const BYTES_PER_MESSAGE: u64 = 1000;

/// The estimate for a file of `size` bytes: `size / 1000` rounded up, and at least 1.
pub open spec fn estimated_count(size: nat) -> nat {
    let q = if size % 1000 == 0 { size / 1000 } else { size / 1000 + 1 };
    if q == 0 { 1 } else { q }
}

/// Estimates how many messages a file of `file_size` bytes holds; a count that `usize`
/// cannot hold becomes `usize::MAX`.
pub fn estimate_message_count_from_size(file_size: u64) -> (r: usize)
    ensures
        estimated_count(file_size as nat) <= usize::MAX ==> r as nat == estimated_count(
            file_size as nat,
        ),
        estimated_count(file_size as nat) > usize::MAX ==> r == usize::MAX,
        r >= 1,
{
    let whole = file_size / BYTES_PER_MESSAGE;
    let q: u64 = if file_size % BYTES_PER_MESSAGE == 0 { whole } else { whole + 1 };
    if q == 0 {
        1
    } else if q > usize::MAX as u64 {
        usize::MAX
    } else {
        q as usize
    }
}

} // verus!
