//! Joining the two halves of an image layer fetch: the worker that consumes
//! the stream and the driver that feeds it from the image proxy.
use vstd::prelude::*;
use vstd::string::*;

verus! {

/// Why a fetch failed.
#[derive(Debug, PartialEq, Eq)]
pub enum FetchError {
    /// The worker failed; the driver succeeded, or failed only because the
    /// worker stopped reading (a broken pipe).
    Worker(String),
    /// The driver failed while the worker succeeded.
    Driver(String),
    /// Both failed, the driver for a reason of its own (its root cause given).
    Both { worker: String, proxy: String },
}

/// `s` ends with `broken pipe`.
pub open spec fn ends_with_broken_pipe(s: Seq<char>) -> bool {
    "broken pipe"@.is_suffix_of(s)
}

/// Combines the results; `driver`'s error is its root cause. A broken pipe
/// from the driver is a consequence of the worker's failure, so only the
/// worker's error is kept then.
pub fn join_fetch<T>(worker: Result<T, String>, driver: Result<(), String>) -> (r: Result<T, FetchError>)
    ensures
        worker is Ok && driver is Ok ==> r == Ok::<T, FetchError>(worker->Ok_0),
        worker is Ok && driver is Err ==> (r matches Err(FetchError::Driver(d)) && d@ == driver->Err_0@),
        worker is Err && driver is Ok ==> (r matches Err(FetchError::Worker(w)) && w@ == worker->Err_0@),
        worker is Err && driver is Err && ends_with_broken_pipe(driver->Err_0@) ==> (r matches Err(
            FetchError::Worker(w),
        ) && w@ == worker->Err_0@),
        worker is Err && driver is Err && !ends_with_broken_pipe(driver->Err_0@) ==> (r matches Err(
            FetchError::Both { worker: w, proxy: p },
        ) && w@ == worker->Err_0@ && p@ == driver->Err_0@),
{
    match (worker, driver) {
        (Ok(t), Ok(())) => Ok(t),
        (Err(w), Err(d)) => {
            if ends_with(d.as_str(), "broken pipe") {
                Err(FetchError::Worker(w))
            } else {
                Err(FetchError::Both { worker: w, proxy: d })
            }
        },
        (Ok(_), Err(d)) => Err(FetchError::Driver(d)),
        (Err(w), Ok(())) => Err(FetchError::Worker(w)),
    }
}

fn ends_with(s: &str, suffix: &str) -> (r: bool)
    ensures
        r == suffix@.is_suffix_of(s@),
{
    let a = crate::text::chars_of(s);
    let b = crate::text::chars_of(suffix);
    if b.len() > a.len() {
        return false;
    }
    let n = a.len();
    let off = n - b.len();
    let mut i: usize = 0;
    while i < b.len()
        invariant
            n == a@.len(),
            off + b@.len() == a@.len(),
            a@ == s@,
            b@ == suffix@,
            i <= b@.len(),
            forall|m: int| 0 <= m < i ==> a@[off + m] == b@[m],
        decreases b@.len() - i,
    {
        if a[off + i] != b[i] {
            assert(a@.subrange(off as int, a@.len() as int)[i as int] != b@[i as int]);
            return false;
        }
        i = i + 1;
    }
    assert(a@.subrange(off as int, a@.len() as int) =~= b@);
    true
}

} // verus!
