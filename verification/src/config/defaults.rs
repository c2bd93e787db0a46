use vstd::prelude::*;

verus! {

/// The default polling interval, in milliseconds.
pub fn poll_interval_ms() -> (r: u64)
    ensures
        r == 1000,
{
    1000
}

/// The default metric ring capacity.
pub fn buffer_capacity() -> (r: usize)
    ensures
        r == 1024,
{
    1024
}

/// The default directory for bundles.
pub fn output_dir() -> (r: String)
    ensures
        r@ == "/var/lib/ada"@,
{
    "/var/lib/ada".to_owned()
}

/// The default memory limit of a plugin module, in MiB.
pub fn memory_limit_mb() -> (r: u64)
    ensures
        r == 64,
{
    64
}

} // verus!
