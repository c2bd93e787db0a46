use vstd::prelude::*;

use crate::text::{chars_of, parse_u64, parse_u64_spec};

verus! {

/// What parsing `t` as a `u32` gives (as `u32::from_str`).
pub open spec fn parse_u32_spec(t: Seq<char>) -> Option<u32> {
    match parse_u64_spec(t) {
        Some(v) => if v <= u32::MAX { Some(v as u32) } else { None },
        None => None,
    }
}

/// Parses `t` as a `u32`.
pub fn parse_u32(t: &str) -> (r: Option<u32>)
    ensures
        r == parse_u32_spec(t@),
{
    match parse_u64(&chars_of(t)) {
        Some(v) => if v <= u32::MAX as u64 { Some(v as u32) } else { None },
        None => None,
    }
}

/// Whether the service manager handed this process a listening socket
/// (systemd socket activation): both `LISTEN_PID` and `LISTEN_FDS` are set
/// and parse as `u32`, `LISTEN_PID` names this process, and at least one
/// descriptor was passed.
pub open spec fn activation_requested(listen_pid: Option<Seq<char>>, listen_fds: Option<Seq<char>>, own_pid: u32) -> bool {
    match (listen_pid, listen_fds) {
        (Some(p), Some(f)) => match (parse_u32_spec(p), parse_u32_spec(f)) {
            (Some(pid), Some(fds)) => pid == own_pid && fds >= 1,
            _ => false,
        },
        _ => false,
    }
}

/// Decides, from the values of `LISTEN_PID` and `LISTEN_FDS` (absent when
/// unset or not Unicode) and this process's id, whether to take the
/// inherited socket (descriptor 3) instead of binding one.
pub fn socket_activation_requested(listen_pid: Option<&str>, listen_fds: Option<&str>, own_pid: u32) -> (b: bool)
    ensures
        b == activation_requested(
            match listen_pid { Some(s) => Some(s@), None => None },
            match listen_fds { Some(s) => Some(s@), None => None },
            own_pid,
        ),
{
    match (listen_pid, listen_fds) {
        (Some(p), Some(f)) => match (parse_u32(p), parse_u32(f)) {
            (Some(pid), Some(fds)) => pid == own_pid && fds >= 1,
            _ => false,
        },
        _ => false,
    }
}

} // verus!
