//! Shared rules on paths, limits and temporary output.

use vstd::prelude::*;
use vstd::string::*;
use crate::error::{ArchiveError, ArchiveResult, ErrorView};
use crate::joined;
use crate::text;

verus! {

/// The outcome of an addition under a limit.
pub open spec fn limited_sum(total: u64, more: u64, limit: u64, subject: Seq<char>) -> Result<
    u64,
    ErrorView,
> {
    if total + more > u64::MAX {
        Err(ErrorView::LimitExceeded(subject + " overflow"@))
    } else if total + more > limit {
        Err(ErrorView::LimitExceeded(subject + " exceeds the configured limit"@))
    } else {
        Ok((total + more) as u64)
    }
}

/// A result with the view of its error.
pub open spec fn result_view<T>(result: ArchiveResult<T>) -> Result<T, ErrorView> {
    match result {
        Ok(value) => Ok(value),
        Err(error) => Err(error@),
    }
}

/// The error of a result, if it is one.
pub open spec fn failure<T>(result: ArchiveResult<T>) -> Option<ErrorView> {
    match result {
        Ok(_) => None,
        Err(error) => Some(error@),
    }
}

/// Adds to a total that must stay within a limit.
pub fn checked_add_with_limit(total: u64, add: u64, limit: u64, subject: &str) -> (sum:
    ArchiveResult<u64>)
    ensures
        result_view(sum) == limited_sum(total, add, limit, subject@),
{
    let next: Option<u64> = total.checked_add(add);
    match next {
        None => Err(ArchiveError::LimitExceeded(text::join(subject, " overflow"))),
        Some(next) => {
            if next > limit {
                return Err(
                    ArchiveError::LimitExceeded(
                        text::join(subject, " exceeds the configured limit"),
                    ),
                );
            }
            Ok(next)
        },
    }
}

/// The buffer of a stream over a large file.
pub const STREAM_BUFFER_SIZE: usize = 0x10_0000;

/// The smallest buffer of a stream.
pub const MIN_STREAM_BUFFER_SIZE: usize = 0x1000;

/// The buffer for a file of the given size: the size itself, within bounds.
pub open spec fn buffer_size(file_size: u64) -> usize {
    if file_size < MIN_STREAM_BUFFER_SIZE {
        MIN_STREAM_BUFFER_SIZE
    } else if file_size > STREAM_BUFFER_SIZE {
        STREAM_BUFFER_SIZE
    } else {
        file_size as usize
    }
}

/// [`buffer_size`], executable.
pub fn stream_buffer_size(file_size: u64) -> (size: usize)
    ensures
        size == buffer_size(file_size),
{
    if file_size < MIN_STREAM_BUFFER_SIZE as u64 {
        MIN_STREAM_BUFFER_SIZE
    } else if file_size > STREAM_BUFFER_SIZE as u64 {
        STREAM_BUFFER_SIZE
    } else {
        file_size as usize
    }
}

/// Stops a cancelled operation.
pub fn check_cancel(cancelled: bool) -> (go_on: ArchiveResult<()>)
    ensures
        result_view(go_on) == if cancelled {
            Err::<(), ErrorView>(ErrorView::Cancelled)
        } else {
            Ok::<(), ErrorView>(())
        },
{
    if cancelled {
        Err(ArchiveError::Cancelled)
    } else {
        Ok(())
    }
}

/// The length of an archive, by the lengths of its volumes.
pub fn file_length(lengths: &Vec<u64>) -> (total: ArchiveResult<u64>)
    ensures
        result_view(total) == if joined::sum_to(lengths@, lengths@.len() as int) <= u64::MAX {
            Ok(joined::sum_to(lengths@, lengths@.len() as int) as u64)
        } else {
            Err(ErrorView::LimitExceeded("split archive size overflow"@))
        },
{
    let mut total: u64 = 0;
    let mut i: usize = 0;
    while i < lengths.len()
        invariant
            i <= lengths@.len(),
            total == joined::sum_to(lengths@, i as int),
        decreases lengths@.len() - i,
    {
        let next: Option<u64> = total.checked_add(lengths[i]);
        match next {
            Some(next) => {
                total = next;
            },
            None => {
                proof {
                    joined::lemma_sum_to_monotonic(lengths@, i + 1, lengths@.len() as int);
                }
                return Err(
                    ArchiveError::LimitExceeded("split archive size overflow".to_owned()),
                );
            },
        }
        i += 1;
    }
    Ok(total)
}

/// The name of a temporary file for the file `name`.
pub open spec fn temporary_name(name: Option<Seq<char>>, process: u32, nonce: u128) -> Seq<char> {
    "."@ + match name {
        Some(name) => name,
        None => "output"@,
    } + ".archive-rclick-"@ + text::decimal(process as nat) + "-"@ + text::decimal(nonce as nat)
        + ".tmp"@
}

/// The name of a temporary file beside the file it will replace, told apart
/// by the process and by the time in nanoseconds.
pub fn temporary_path(name: &Option<String>, process: u32, nonce: u128) -> (temporary: String)
    ensures
        temporary@ == temporary_name(text::option_text(*name), process, nonce),
{
    let mut temporary = ".".to_owned();
    match name {
        Some(name) => {
            temporary.append(name.as_str());
        },
        None => {
            temporary.append("output");
        },
    }
    temporary.append(".archive-rclick-");
    temporary.append(text::decimal_text(process as u64).as_str());
    temporary.append("-");
    temporary.append(text::wide_decimal_text(nonce).as_str());
    temporary.append(".tmp");
    temporary
}

/// Whether two paths are the same up to ASCII case.
pub fn same_windows_path(left: &str, right: &str) -> (same: bool)
    ensures
        same == (text::lower(left@) == text::lower(right@)),
{
    text::same_ignoring_case(left, right)
}

/// A sum is given exactly when it is within the limit, and it is the sum.
pub proof fn law_sums_stay_within_the_limit(
    total: u64,
    more: u64,
    limit: u64,
    subject: Seq<char>,
)
    ensures
        limited_sum(total, more, limit, subject) is Ok <==> total + more <= limit,
        total + more <= limit ==> limited_sum(total, more, limit, subject)->Ok_0 == total + more,
        total + more > limit ==> limited_sum(total, more, limit, subject)->Err_0 is LimitExceeded,
{
}

/// The buffer of a file is as large as the file, from 4 KiB to 1 MiB.
pub proof fn law_buffers_fit_their_files(size: u64)
    ensures
        0x1000 <= buffer_size(size) <= 0x10_0000,
        0x1000 <= size <= 0x10_0000 ==> buffer_size(size) == size,
{
}

} // verus!
