//! The process's life: what the exit of a task means, how long a shutdown may take,
//! and the address that it is reached at.
use vstd::prelude::*;
use crate::cast::client::{lan_ip_in, server_lan_ip};
use crate::sys::command::{asked, Answer, CommandRunner, Invocation};
use crate::text::{decimal, digits_have_their_places, opt_str_view, parse_up_to, parsed, str_views, surrounding_white_space_does_not_matter, trim, trimmed, trimming_takes_white_space_off_the_ends, white, written_numbers_read_back};

verus! {

/// Seconds that a shutdown may take before the process exits by force. Stays below
/// the time that the service manager grants.
pub const DEFAULT_SHUTDOWN_TIMEOUT_SECS: u64 = 8;

/// The seconds that a setting gives: a whole number above zero, or the default.
pub open spec fn timeout_of(setting: Option<Seq<char>>) -> u64 {
    match setting {
        Some(s) => match parsed(trimmed(s), u64::MAX as nat) {
            Some(n) => if n > 0 {
                n as u64
            } else {
                DEFAULT_SHUTDOWN_TIMEOUT_SECS
            },
            None => DEFAULT_SHUTDOWN_TIMEOUT_SECS,
        },
        None => DEFAULT_SHUTDOWN_TIMEOUT_SECS,
    }
}

/// Resolve the shutdown timeout from `SOUNDSYNC_SHUTDOWN_TIMEOUT` (seconds). A value
/// that is no number, or zero, gives the default: a timeout of zero would defeat a
/// clean shutdown.
pub fn resolve_shutdown_timeout(setting: Option<&str>) -> (secs: u64)
    ensures
        secs == timeout_of(opt_str_view(setting)),
        secs > 0,
{
    match setting {
        Some(s) => match parse_up_to(trim(s).as_str(), u64::MAX) {
            Some(n) => if n > 0 {
                n
            } else {
                DEFAULT_SHUTDOWN_TIMEOUT_SECS
            },
            None => DEFAULT_SHUTDOWN_TIMEOUT_SECS,
        },
        None => DEFAULT_SHUTDOWN_TIMEOUT_SECS,
    }
}

/// What the exit of a critical background task means.
#[derive(Debug, PartialEq, Eq)]
pub enum TaskExit {
    /// It came with a shutdown that was asked for.
    Expected,
    /// The task of that name ended while the daemon was meant to run: the process
    /// exits, so that the service manager restarts all of it.
    Fatal(String),
}

/// Classify the exit of a critical task: expected once a shutdown was asked for, else
/// fatal.
pub fn classify_task_exit(shutdown_requested: bool, name: &str) -> (exit: TaskExit)
    ensures
        shutdown_requested ==> exit == TaskExit::Expected,
        !shutdown_requested ==> exit is Fatal && exit->Fatal_0@ == name@,
{
    if shutdown_requested {
        TaskExit::Expected
    } else {
        TaskExit::Fatal(name.to_owned())
    }
}

/// The arguments that ask for the host's addresses.
pub open spec fn addresses_args() -> Seq<Seq<char>> {
    seq!["-I"@]
}

/// The address that an answer of `hostname -I` gives; empty where it gives none.
pub open spec fn lan_ip_told(answer: Answer) -> Seq<char> {
    match answer {
        Ok(o) => if o.ok() && lan_ip_in(o.stdout@) is Some {
            lan_ip_in(o.stdout@)->0
        } else {
            Seq::empty()
        },
        Err(_) => Seq::empty(),
    }
}

/// Ask for the server's IPv4 address on the local network via `hostname -I`. Empty
/// where there is none yet: casting is then not available, all else is.
pub fn probe_lan_ip<R: CommandRunner>(runner: &mut R) -> (ip: String)
    ensures
        exists|run: Invocation|
            final(runner).trace() == old(runner).trace().push(run) && #[trigger] asked(
                run,
                "hostname"@,
                addresses_args(),
            ) && ip@ == lan_ip_told(run.answer),
{
    let args: [&str; 1] = ["-I"];
    let answer = runner.run("hostname", &args);
    proof {
        assert(str_views((&args)@) =~= addresses_args());
        let run = Invocation { program: "hostname"@, args: str_views((&args)@), answer };
        assert(asked(run, "hostname"@, addresses_args()));
    }
    match &answer {
        Ok(o) => if o.success() {
            match server_lan_ip(o.stdout.as_str()) {
                Some(ip) => ip,
                None => String::new(),
            }
        } else {
            String::new()
        },
        Err(_) => String::new(),
    }
}

/// A timeout is the number that the setting writes, whatever white space stands around it;
/// zero, anything else and no setting give eight seconds.
pub proof fn timeouts_are_read_from_the_setting(a: Seq<char>, n: u64, b: Seq<char>, s: Seq<char>)
    requires
        forall|k: int| 0 <= k < a.len() ==> white(#[trigger] a[k]),
        forall|k: int| 0 <= k < b.len() ==> white(#[trigger] b[k]),
    ensures
        n > 0 ==> timeout_of(Some(a + decimal(n as nat) + b)) == n,
        timeout_of(Some(a + decimal(0) + b)) == 8,
        parsed(trimmed(s), u64::MAX as nat) is None ==> timeout_of(Some(s)) == 8,
        timeout_of(None) == 8,
        timeout_of(Some(s)) > 0,
{
    surrounding_white_space_does_not_matter(a, decimal(n as nat), b);
    surrounding_white_space_does_not_matter(a, decimal(0), b);
    lemma_digits_stay(n as nat);
    lemma_digits_stay(0);
    written_numbers_read_back(n as nat, u64::MAX as nat);
    written_numbers_read_back(0, u64::MAX as nat);
}

proof fn lemma_digits_stay(n: nat)
    ensures
        trimmed(decimal(n)) == decimal(n),
{
    let d = decimal(n);
    digits_have_their_places(n);
    assert(0x30 <= d[0] as u32 <= 0x39);
    assert(0x30 <= d[d.len() - 1] as u32 <= 0x39);
    assert(!white(d[0]) && !white(d.last()));
    trimming_takes_white_space_off_the_ends(d);
}

/// The address is the one that was printed with success, and none otherwise.
pub proof fn only_printed_addresses_count(answer: Answer)
    ensures
        answer is Err || answer->Ok_0.status != 0 ==> lan_ip_told(answer).len() == 0,
        answer is Ok && answer->Ok_0.status == 0 && lan_ip_in(answer->Ok_0.stdout@) is Some
            ==> lan_ip_told(answer) == lan_ip_in(answer->Ok_0.stdout@)->0,
        answer is Ok && answer->Ok_0.status == 0 && lan_ip_in(answer->Ok_0.stdout@) is None
            ==> lan_ip_told(answer).len() == 0,
{
}

/// The addresses of the host are asked for all at once.
pub proof fn all_addresses_are_asked_for()
    ensures
        addresses_args() == seq!["-I"@],
{
}

} // verus!
