//! The figures reported when a run has ended.

use vstd::prelude::*;

verus! {

/// The size `bytes` written for a reader in binary units (B, KiB, MiB and so
/// on), as `humansize` writes it with its `BINARY` options.
pub uninterp spec fn binary_size_text(bytes: u64) -> Seq<char>;

/// `humansize::format_size` with the `BINARY` options: the size scaled by
/// powers of 1024 and followed by its unit. The text depends on the number
/// of bytes alone; nothing more is claimed of it.
#[verifier::external_body]
fn format_binary_size(bytes: u64) -> (res: String)
    ensures
        res@ == binary_size_text(bytes),
{
    humansize::format_size(bytes, humansize::BINARY)
}

/// What a run reports at its end.
pub struct Summary {
    /// The number of candidates written.
    pub lines: usize,
    /// The size of the output, for a reader.
    pub size: String,
    /// The whole hours that the run took.
    pub hours: u64,
    /// The whole minutes beyond the hours, below 60.
    pub minutes: u64,
    /// The seconds beyond the minutes, below 60.
    pub seconds: u64,
}

impl Summary {
    /// The summary of a run that wrote `lines` candidates, whose size reads
    /// `size`, in `elapsed` seconds.
    pub fn new(lines: usize, size: String, elapsed: u64) -> (s: Summary)
        ensures
            s.lines == lines,
            s.size == size,
            s.hours == elapsed / 3600,
            s.minutes == elapsed % 3600 / 60,
            s.seconds == elapsed % 60,
            s.hours * 3600 + s.minutes * 60 + s.seconds == elapsed,
            s.minutes < 60,
            s.seconds < 60,
    {
        Summary {
            lines,
            size,
            hours: elapsed / 3600,
            minutes: elapsed % 3600 / 60,
            seconds: elapsed % 60,
        }
    }
}

/// The summary of a run that wrote `lines` candidates in `bytes` bytes and
/// took `elapsed` seconds.
pub fn summarize(lines: usize, bytes: u64, elapsed: u64) -> (s: Summary)
    ensures
        s.lines == lines,
        s.size@ == binary_size_text(bytes),
        s.hours == elapsed / 3600,
        s.minutes == elapsed % 3600 / 60,
        s.seconds == elapsed % 60,
{
    Summary::new(lines, format_binary_size(bytes), elapsed)
}

} // verus!
