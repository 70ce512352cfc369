//! Service-manager notifications of the storage daemon: the states it
//! reports, where it sends them, and how often it reports that it is alive.
use vstd::prelude::*;
use vstd::string::{StrSliceExecFns, StringExecFns};

verus! {

/// The state reported once the daemon serves.
pub const READY_STATE: &'static str = "READY=1";

/// The state reported when the daemon stops.
pub const STOPPING_STATE: &'static str = "STOPPING=1";

/// The state reported to the watchdog.
pub const WATCHDOG_STATE: &'static str = "WATCHDOG=1";

/// The address of the notification socket that the value of `NOTIFY_SOCKET`
/// names: none when the variable is unset or empty (the daemon does not run
/// under the service manager); an abstract socket when the value starts
/// with `@`, whose address starts with a zero character in place of the `@`;
/// else the value itself, a file path.
pub fn notify_socket_address(var: Option<String>) -> (r: Option<String>)
    ensures
        match notify_socket_address_spec(var) {
            None => r is None,
            Some(a) => r is Some && r->Some_0@ == a,
        },
{
    match var {
        None => None,
        Some(p) => {
            let s = p.as_str();
            if s.is_empty() {
                return None;
            }
            proof {
                assert(s@.len() > 0);
            }
            if s.get_char(0) == '@' {
                let n = s.unicode_len();
                let rest = s.substring_char(1, n);
                let mut addr = String::from_str("\0");
                proof {
                    reveal_strlit("\0");
                }
                addr.append(rest);
                assert(addr@ =~= seq!['\0'] + p@.skip(1));
                Some(addr)
            } else {
                Some(p)
            }
        },
    }
}

/// A notification datagram: the state and the address of the socket it is
/// sent to.
pub struct Notification {
    pub address: String,
    pub state: String,
}

/// The notification of a state for the value of `NOTIFY_SOCKET`: none when
/// the daemon does not run under the service manager, else the state sent to
/// the address of [`notify_socket_address`].
pub fn notify_systemd(state: &str, var: Option<String>) -> (r: Option<Notification>)
    ensures
        match notify_socket_address_spec(var) {
            None => r is None,
            Some(a) => r is Some && r->Some_0.address@ == a && r->Some_0.state@ == state@,
        },
{
    match notify_socket_address(var) {
        None => None,
        Some(address) => Some(Notification { address, state: String::from_str(state) }),
    }
}

/// The address that [`notify_socket_address`] computes, as a plain value.
pub open spec fn notify_socket_address_spec(var: Option<String>) -> Option<Seq<char>> {
    match var {
        None => None,
        Some(p) => if p@.len() == 0 {
            None
        } else if p@[0] == '@' {
            Some(seq!['\0'] + p@.skip(1))
        } else {
            Some(p@)
        },
    }
}

/// The notification that the daemon serves.
pub fn notify_systemd_ready(var: Option<String>) -> (r: Option<Notification>)
    ensures
        match notify_socket_address_spec(var) {
            None => r is None,
            Some(a) => r is Some && r->Some_0.address@ == a && r->Some_0.state@ == READY_STATE@,
        },
{
    notify_systemd(READY_STATE, var)
}

/// The notification that the daemon stops.
pub fn notify_systemd_stopping(var: Option<String>) -> (r: Option<Notification>)
    ensures
        match notify_socket_address_spec(var) {
            None => r is None,
            Some(a) => r is Some && r->Some_0.address@ == a && r->Some_0.state@ == STOPPING_STATE@,
        },
{
    notify_systemd(STOPPING_STATE, var)
}

/// The notification that keeps the watchdog from firing.
pub fn notify_systemd_watchdog(var: Option<String>) -> (r: Option<Notification>)
    ensures
        match notify_socket_address_spec(var) {
            None => r is None,
            Some(a) => r is Some && r->Some_0.address@ == a && r->Some_0.state@ == WATCHDOG_STATE@,
        },
{
    notify_systemd(WATCHDOG_STATE, var)
}

/// The period of the watchdog notifications in milliseconds: half the
/// watchdog timeout, which the service manager gives in microseconds.
pub fn watchdog_interval_ms(watchdog_usec: u64) -> (ms: u64)
    ensures
        ms == watchdog_usec / 1000 / 2,
{
    watchdog_usec / 1000 / 2
}

} // verus!
