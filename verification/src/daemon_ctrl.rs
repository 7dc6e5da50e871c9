//! Decisions of the sidebar daemon's lifecycle: its command line, the pid it
//! records, and when to stop waiting for its socket.
use vstd::prelude::*;

use crate::text::{chars_of, opt_view, string_from_chars, trim, trim_chars};

verus! {

/// The pid recorded for the daemon, from the captured output of the query
/// for it: the trimmed output, unless the query failed or printed nothing.
pub open spec fn spec_daemon_pid(captured: Option<Seq<char>>) -> Option<Seq<char>> {
    match captured {
        Some(out) => if trim(out).len() == 0 {
            None
        } else {
            Some(trim(out))
        },
        None => None,
    }
}

/// Read the daemon PID from the captured output of the tmux option query
/// (`None` where the query failed).
pub fn daemon_pid(captured: Option<String>) -> (r: Option<String>)
    ensures
        opt_view(r) == spec_daemon_pid(opt_view(captured)),
{
    match captured {
        Some(out) => {
            let c = chars_of(out.as_str());
            let t = trim_chars(c.as_slice());
            if t.len() == 0 {
                None
            } else {
                Some(string_from_chars(t.as_slice()))
            }
        },
        None => None,
    }
}

/// The arguments of the daemon process: the hidden subcommand, the Squad
/// data source where the Squad environment is set, and the instance id so
/// that the daemon uses the same socket path as the client.
pub open spec fn spec_daemon_args(squad_env: bool, instance_id: Seq<char>) -> Seq<Seq<char>> {
    seq!["_sidebar-daemon"@] + (if squad_env {
        seq!["--data-source"@, "squad"@]
    } else {
        Seq::empty()
    }) + seq!["--instance-id"@, instance_id]
}

/// The arguments to spawn the sidebar daemon with.
///
/// `squad_env` says whether `SQUAD_BASE` or `SQUAD_HOME` is set; then the
/// daemon uses the Squad data source instead of the default tmux one.
pub fn daemon_args(squad_env: bool, instance_id: &str) -> (r: Vec<String>)
    ensures
        r@.map_values(|a: String| a@) == spec_daemon_args(squad_env, instance_id@),
{
    let mut args: Vec<String> = Vec::new();
    args.push(String::from_str("_sidebar-daemon"));
    if squad_env {
        args.push(String::from_str("--data-source"));
        args.push(String::from_str("squad"));
    }
    args.push(String::from_str("--instance-id"));
    args.push(String::from_str(instance_id));
    assert(args@.map_values(|a: String| a@) =~= spec_daemon_args(squad_env, instance_id@));
    args
}

/// What to do next while waiting for the daemon's socket.
#[derive(Debug, Clone, Copy, PartialEq, Eq, Structural)]
pub enum SocketWait {
    /// The socket exists: the daemon is up.
    Ready,
    /// The timeout has passed: give up.
    GiveUp,
    /// Sleep a little and look again.
    Retry,
}

/// One step of waiting for the daemon's socket: give up once the elapsed
/// time reaches the timeout, else stop when the socket exists, else retry.
pub fn socket_wait_step(elapsed_ms: u64, timeout_ms: u64, socket_exists: bool) -> (r: SocketWait)
    ensures
        r == (if elapsed_ms >= timeout_ms {
            SocketWait::GiveUp
        } else if socket_exists {
            SocketWait::Ready
        } else {
            SocketWait::Retry
        }),
{
    if elapsed_ms >= timeout_ms {
        SocketWait::GiveUp
    } else if socket_exists {
        SocketWait::Ready
    } else {
        SocketWait::Retry
    }
}

} // verus!
