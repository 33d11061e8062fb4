//! The array library's memory controls: what their status codes mean.

use vstd::prelude::*;

use crate::text;
use crate::text::{concat3, decimal_int_text};

verus! {

/// A memory call failed, with this status.
#[derive(Debug, Clone, Copy, PartialEq, Eq, Structural)]
pub struct MemoryError(pub i32);

impl MemoryError {
    /// The text shown to a user.
    pub fn message(&self) -> (r: String)
        ensures
            r@ == "mlx memory call failed (rc="@ + text::decimal_int(self.0 as int) + ")"@,
    {
        concat3("mlx memory call failed (rc=", decimal_int_text(self.0).as_str(), ")")
    }
}

/// What a memory call without a result comes to: it succeeded where its status
/// is 0.
pub fn done(rc: i32) -> (r: Result<(), MemoryError>)
    ensures
        r == (if rc == 0 {
            Ok::<(), MemoryError>(())
        } else {
            Err::<(), MemoryError>(MemoryError(rc))
        }),
{
    if rc == 0 {
        Ok(())
    } else {
        Err(MemoryError(rc))
    }
}

/// What a memory call that writes a number of bytes comes to: the number, where
/// its status is 0.
pub fn bytes_of(rc: i32, bytes: usize) -> (r: Result<usize, MemoryError>)
    ensures
        r == (if rc == 0 {
            Ok::<usize, MemoryError>(bytes)
        } else {
            Err::<usize, MemoryError>(MemoryError(rc))
        }),
{
    if rc == 0 {
        Ok(bytes)
    } else {
        Err(MemoryError(rc))
    }
}

/// The memory before and after a generation, in whole megabytes.
#[derive(Debug, Clone, Copy, PartialEq, Eq, Structural)]
pub struct Snapshot {
    pub active_mb_before: usize,
    pub active_mb_after: usize,
    pub cache_mb_before: usize,
    pub cache_mb_after: usize,
}

fn or_zero(bytes: Result<usize, MemoryError>) -> (r: usize)
    ensures
        r == (match bytes {
            Ok(n) => n,
            Err(_) => 0,
        }),
{
    match bytes {
        Ok(n) => n,
        Err(_) => 0,
    }
}

/// The whole megabytes in what was read, or 0 where it could not be read.
pub open spec fn megabytes(bytes: Result<usize, MemoryError>) -> usize {
    match bytes {
        Ok(n) => n / 1048576usize,
        Err(_) => 0,
    }
}

/// What four readings of the memory come to: of the active bytes and of the cached
/// ones, before a generation and after it.
pub fn snapshot_of(
    active_before: Result<usize, MemoryError>,
    cache_before: Result<usize, MemoryError>,
    active_after: Result<usize, MemoryError>,
    cache_after: Result<usize, MemoryError>,
) -> (r: Snapshot)
    ensures
        r.active_mb_before == megabytes(active_before),
        r.active_mb_after == megabytes(active_after),
        r.cache_mb_before == megabytes(cache_before),
        r.cache_mb_after == megabytes(cache_after),
{
    Snapshot {
        active_mb_before: or_zero(active_before) / 1024 / 1024,
        active_mb_after: or_zero(active_after) / 1024 / 1024,
        cache_mb_before: or_zero(cache_before) / 1024 / 1024,
        cache_mb_after: or_zero(cache_after) / 1024 / 1024,
    }
}

/// Runs `f` and gives back its result, with what was read of the memory before it, by
/// `active_before` and `cache_before`, and after it, by `active_after` and
/// `cache_after`: in whole megabytes, or 0 where it could not be read.
pub fn instrumented<
    T,
    F: FnOnce() -> T,
    A: FnOnce() -> Result<usize, MemoryError>,
    B: FnOnce() -> Result<usize, MemoryError>,
    C: FnOnce() -> Result<usize, MemoryError>,
    D: FnOnce() -> Result<usize, MemoryError>,
>(active_before: A, cache_before: B, f: F, active_after: C, cache_after: D) -> (r: (T, Snapshot))
    requires
        call_requires(active_before, ()),
        call_requires(cache_before, ()),
        call_requires(f, ()),
        call_requires(active_after, ()),
        call_requires(cache_after, ()),
    ensures
        call_ensures(f, (), r.0),
        exists|x: Result<usize, MemoryError>| #[trigger]
            call_ensures(active_before, (), x) && r.1.active_mb_before == megabytes(x),
        exists|x: Result<usize, MemoryError>| #[trigger]
            call_ensures(cache_before, (), x) && r.1.cache_mb_before == megabytes(x),
        exists|x: Result<usize, MemoryError>| #[trigger]
            call_ensures(active_after, (), x) && r.1.active_mb_after == megabytes(x),
        exists|x: Result<usize, MemoryError>| #[trigger]
            call_ensures(cache_after, (), x) && r.1.cache_mb_after == megabytes(x),
{
    let a = active_before();
    let b = cache_before();
    let out = f();
    let c = active_after();
    let d = cache_after();
    let r = (out, snapshot_of(a, b, c, d));
    assert(r.1.active_mb_before == megabytes(a));
    assert(r.1.cache_mb_before == megabytes(b));
    assert(r.1.active_mb_after == megabytes(c));
    assert(r.1.cache_mb_after == megabytes(d));
    r
}

/// As many whole megabytes are said as fit into what was read, and none where nothing
/// could be read.
pub proof fn law_megabytes_are_whole(bytes: Result<usize, MemoryError>)
    ensures
        bytes matches Ok(n) ==> megabytes(bytes) * 0x10_0000 <= n && n < (megabytes(bytes) + 1)
            * 0x10_0000,
        bytes is Err ==> megabytes(bytes) == 0,
{
}

} // verus!
