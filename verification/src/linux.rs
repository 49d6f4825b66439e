//! What the manager learns from Linux, as plain values: events, messages, and the contents
//! of the files of a cgroup.

use vstd::prelude::*;

use crate::protocol::MAX_PACKET_LEN;
use crate::text;

verus! {

broadcast use vstd::string::group_string_axioms;

/// An event of a source that is waited for.
#[derive(Clone, Copy, Debug, PartialEq, Eq, Structural)]
pub struct ReadyEvent {
    pub token: u64,
    pub readable: bool,
    pub writable: bool,
    pub hangup: bool,
}

/// Who is at the other end of a control connection.
#[derive(Clone, Copy, Debug, PartialEq, Eq, Structural)]
pub struct PeerCredentials {
    pub pid: i32,
    pub uid: u32,
    pub gid: u32,
}

/// What a read of the readiness socket of a service gave.
#[derive(Debug, PartialEq, Eq)]
pub enum NotificationRead {
    Pending,
    Message(Vec<u8>),
    Closed,
}

/// Why a process could not be run or looked after.
#[derive(Debug)]
pub enum ProcessError {
    PrepareIo { stream: &'static str, reason: String },
    NotifySocket(String),
    Spawn(String),
    Pidfd { pid: u32, reason: String },
    InvalidPid(u32),
    Signal { pid: u32, reason: String },
    Wait { pid: u32, reason: String },
}

/// The text of a [`ProcessError`].
pub open spec fn process_error_message(error: ProcessError) -> Seq<char> {
    match error {
        ProcessError::PrepareIo { stream, reason } => "failed to prepare "@ + stream@ + ": "@
            + reason@,
        ProcessError::NotifySocket(reason) => "failed to create readiness socket: "@ + reason@,
        ProcessError::Spawn(reason) => "failed to spawn process: "@ + reason@,
        ProcessError::Pidfd { pid, reason } => "pidfd_open failed for PID "@ + text::decimal(
            pid as nat,
        ) + ": "@ + reason@,
        ProcessError::InvalidPid(pid) => "PID "@ + text::decimal(pid as nat)
            + " does not fit Linux pid_t"@,
        ProcessError::Signal { pid, reason } => "failed to signal process group "@
            + text::decimal(pid as nat) + ": "@ + reason@,
        ProcessError::Wait { pid, reason } => "failed to wait for PID "@ + text::decimal(
            pid as nat,
        ) + ": "@ + reason@,
    }
}

impl ProcessError {
    /// The text of the error.
    pub fn message(&self) -> (r: String)
        ensures
            r@ == process_error_message(*self),
    {
        match self {
            ProcessError::PrepareIo { stream, reason } => {
                let mut r = text::concat3("failed to prepare ", stream, ": ");
                r.append(reason.as_str());
                r
            },
            ProcessError::NotifySocket(reason) => text::concat2(
                "failed to create readiness socket: ",
                reason.as_str(),
            ),
            ProcessError::Spawn(reason) => text::concat2(
                "failed to spawn process: ",
                reason.as_str(),
            ),
            ProcessError::Pidfd { pid, reason } => {
                let number = text::decimal_string(*pid as u64);
                let mut r = text::concat3("pidfd_open failed for PID ", number.as_str(), ": ");
                r.append(reason.as_str());
                r
            },
            ProcessError::InvalidPid(pid) => {
                let number = text::decimal_string(*pid as u64);
                text::concat3("PID ", number.as_str(), " does not fit Linux pid_t")
            },
            ProcessError::Signal { pid, reason } => {
                let number = text::decimal_string(*pid as u64);
                let mut r = text::concat3(
                    "failed to signal process group ",
                    number.as_str(),
                    ": ",
                );
                r.append(reason.as_str());
                r
            },
            ProcessError::Wait { pid, reason } => {
                let number = text::decimal_string(*pid as u64);
                let mut r = text::concat3("failed to wait for PID ", number.as_str(), ": ");
                r.append(reason.as_str());
                r
            },
        }
    }
}

/// A line without the carriage return at its end.
pub open spec fn bare_line(line: Seq<char>) -> Seq<char> {
    if line.len() > 0 && line.last() == '\r' {
        line.drop_last()
    } else {
        line
    }
}

/// The lines of a text. A line ends with a newline, with a carriage return before it or
/// not; the last one needs no end.
pub open spec fn lines(source: Seq<char>) -> Seq<Seq<char>> {
    let parts = text::split(source, '\n');
    Seq::new(
        if parts.last().len() == 0 {
            (parts.len() - 1) as nat
        } else {
            parts.len()
        },
        |i: int|
            if i + 1 < parts.len() {
                bare_line(parts[i])
            } else {
                parts[i]
            },
    )
}

fn without_return(line: &str) -> (r: String)
    ensures
        r@ == bare_line(line@),
{
    let chars = text::chars_of(line);
    if chars.len() > 0 && chars[chars.len() - 1] == '\r' {
        let r = text::string_of_range(chars.as_slice(), 0, chars.len() - 1);
        proof {
            assert(line@.subrange(0, line@.len() - 1) =~= line@.drop_last());
        }
        r
    } else {
        text::owned(line)
    }
}

fn lines_of(source: &str) -> (r: Vec<String>)
    ensures
        text::texts(r@) == lines(source@),
{
    let parts = text::split_string(source, '\n');
    let ghost all = text::split(source@, '\n');
    proof {
        text::split_law(source@, '\n');
        assert(all.len() == parts@.len());
    }
    let mut r: Vec<String> = Vec::new();
    let mut i: usize = 0;
    while i < parts.len() - 1
        invariant
            all == text::texts(parts@),
            all == text::split(source@, '\n'),
            parts@.len() >= 1,
            i < parts@.len(),
            r@.len() == i,
            forall|k: int| 0 <= k < i ==> (#[trigger] r@[k])@ == bare_line(all[k]),
        decreases parts@.len() - i,
    {
        proof {
            assert(all[i as int] == parts@[i as int]@);
        }
        r.push(without_return(parts[i].as_str()));
        i = i + 1;
    }
    proof {
        assert(all[i as int] == parts@[i as int]@);
        assert(all.last() == parts@[i as int]@);
    }
    if !parts[i].as_str().is_empty() {
        r.push(text::owned(parts[i].as_str()));
    }
    proof {
        assert(text::texts(r@) =~= lines(source@));
    }
    r
}

/// What follows a beginning in the first of the first `n` lines that has it.
pub open spec fn line_after(lines: Seq<Seq<char>>, prefix: Seq<char>, n: nat) -> Option<Seq<char>>
    decreases n,
{
    if n == 0 {
        None
    } else {
        match line_after(lines, prefix, (n - 1) as nat) {
            Some(rest) => Some(rest),
            None => if text::has_prefix(lines[n - 1], prefix) {
                Some(lines[n - 1].skip(prefix.len() as int))
            } else {
                None
            },
        }
    }
}

/// What follows a beginning in the first line of a text that has it.
pub open spec fn found_line(source: Seq<char>, prefix: Seq<char>) -> Option<Seq<char>> {
    line_after(lines(source), prefix, lines(source).len())
}

proof fn line_after_tail(lines: Seq<Seq<char>>, prefix: Seq<char>, n: nat)
    requires
        n <= lines.len(),
        line_after(lines, prefix, n) is Some,
    ensures
        line_after(lines, prefix, lines.len()) == line_after(lines, prefix, n),
    decreases lines.len() - n,
{
    if n < lines.len() {
        line_after_tail(lines, prefix, n + 1);
    }
}

fn find_line(source: &str, prefix: &str) -> (r: Option<String>)
    ensures
        text::optional_text(r) == found_line(source@, prefix@),
{
    let list = lines_of(source);
    let ghost all = lines(source@);
    let mut i: usize = 0;
    while i < list.len()
        invariant
            all == text::texts(list@),
            all == lines(source@),
            i <= list@.len(),
            line_after(all, prefix@, i as nat) is None,
        decreases list@.len() - i,
    {
        proof {
            assert(all[i as int] == list@[i as int]@);
        }
        if let Some(rest) = text::strip_prefix(list[i].as_str(), prefix) {
            proof {
                line_after_tail(all, prefix@, (i + 1) as nat);
            }
            return Some(rest);
        }
        i = i + 1;
    }
    None
}

/// Whether the file `cgroup.events` of a cgroup says that the cgroup holds no process.
pub open spec fn empty_cgroup(events: Seq<u8>) -> Result<bool, Seq<char>> {
    match text::utf8(events) {
        None => Err("invalid cgroup.events"@),
        Some(source) => match found_line(source, "populated "@) {
            Some(value) => if value == "0"@ {
                Ok(true)
            } else if value == "1"@ {
                Ok(false)
            } else {
                Err("missing cgroup populated state"@)
            },
            None => Err("missing cgroup populated state"@),
        },
    }
}

/// Whether the file `cgroup.events` of a cgroup says that the cgroup holds no process.
pub fn cgroup_is_empty(events: &Vec<u8>) -> (r: Result<bool, &'static str>)
    ensures
        (match r {
            Ok(empty) => Ok::<bool, Seq<char>>(empty),
            Err(reason) => Err(reason@),
        }) == empty_cgroup(events@),
{
    match text::utf8_text(events.as_slice()) {
        None => Err("invalid cgroup.events"),
        Some(source) => match find_line(source.as_str(), "populated ") {
            Some(value) => if text::same_text(value.as_str(), "0") {
                Ok(true)
            } else if text::same_text(value.as_str(), "1") {
                Ok(false)
            } else {
                Err("missing cgroup populated state")
            },
            None => Err("missing cgroup populated state"),
        },
    }
}

/// A path without the slashes at its beginning.
pub open spec fn relative_path(path: Seq<char>) -> Seq<char>
    decreases path.len(),
{
    if text::begins_with(path, '/') {
        relative_path(path.drop_first())
    } else {
        path
    }
}

fn without_slashes(path: &str) -> (r: String)
    ensures
        r@ == relative_path(path@),
{
    let chars = text::chars_of(path);
    let mut i: usize = 0;
    proof {
        assert(path@.skip(0) =~= path@);
    }
    while i < chars.len() && chars[i] == '/'
        invariant
            chars@ == path@,
            i <= chars@.len(),
            relative_path(path@) == relative_path(path@.skip(i as int)),
        decreases chars@.len() - i,
    {
        proof {
            assert(path@.skip(i as int).drop_first() =~= path@.skip(i + 1));
        }
        i = i + 1;
    }
    let r = text::string_of_range(chars.as_slice(), i, chars.len());
    proof {
        assert(path@.subrange(i as int, path@.len() as int) =~= path@.skip(i as int));
    }
    r
}

/// The cgroup of the manager below the mount, out of the file `/proc/self/cgroup`: what
/// follows `0::`, without slashes at its beginning.
pub fn own_cgroup(membership: &str) -> (r: Option<String>)
    ensures
        text::optional_text(r) == (match found_line(membership@, "0::"@) {
            Some(entry) => Some(relative_path(entry)),
            None => None,
        }),
{
    match find_line(membership, "0::") {
        Some(entry) => Some(without_slashes(entry.as_str())),
        None => None,
    }
}

/// The name of the manager's cgroup.
pub fn cgroup_name(system: bool, uid: u32) -> (r: String)
    ensures
        r@ == if system {
            "loom"@
        } else {
            "loom-user-"@ + text::decimal(uid as nat)
        },
{
    if system {
        text::owned("loom")
    } else {
        let number = text::decimal_string(uid as u64);
        text::concat2("loom-user-", number.as_str())
    }
}

/// The name of the cgroup of an attempt.
pub fn domain_name(service: &str, generation: u64) -> (r: String)
    ensures
        r@ == service@ + "-"@ + text::decimal(generation as nat),
{
    let number = text::decimal_string(generation);
    text::concat3(service, "-", number.as_str())
}

/// Processes that a file lists, and whether the list could be read to its end.
#[derive(Debug, PartialEq, Eq)]
pub struct ProcessList {
    pub pids: Vec<i32>,
    pub valid: bool,
}

/// The processes of the first `n` lines, up to the first line that holds no number.
pub open spec fn listed(lines: Seq<Seq<char>>, n: nat) -> (Seq<i32>, bool)
    decreases n,
{
    if n == 0 {
        (Seq::empty(), true)
    } else {
        let (pids, valid) = listed(lines, (n - 1) as nat);
        match text::parse_i32(lines[n - 1]) {
            Some(pid) => if valid {
                (pids.push(pid), true)
            } else {
                (pids, false)
            },
            None => (pids, false),
        }
    }
}

proof fn listed_tail(lines: Seq<Seq<char>>, n: nat)
    requires
        n <= lines.len(),
        !listed(lines, n).1,
    ensures
        listed(lines, lines.len()) == listed(lines, n),
    decreases lines.len() - n,
{
    if n < lines.len() {
        listed_tail(lines, n + 1);
    }
}

/// The processes that the file `cgroup.procs` lists, one in a line. They are signalled in
/// their order, up to the first line that holds no number.
pub fn listed_processes(source: &str) -> (r: ProcessList)
    ensures
        (r.pids@, r.valid) == listed(lines(source@), lines(source@).len()),
{
    let list = lines_of(source);
    let ghost all = lines(source@);
    let mut pids: Vec<i32> = Vec::new();
    let mut i: usize = 0;
    while i < list.len()
        invariant
            all == text::texts(list@),
            all == lines(source@),
            i <= list@.len(),
            listed(all, i as nat) == (pids@, true),
        decreases list@.len() - i,
    {
        proof {
            assert(all[i as int] == list@[i as int]@);
        }
        match text::parse_i32_string(list[i].as_str()) {
            Some(pid) => {
                pids.push(pid);
            },
            None => {
                proof {
                    listed_tail(all, (i + 1) as nat);
                }
                return ProcessList { pids, valid: false };
            },
        }
        i = i + 1;
    }
    ProcessList { pids, valid: true }
}

/// The children among the first `n` words that are not watched, up to the first word that
/// holds no process.
pub open spec fn unwatched(words: Seq<Seq<char>>, watched: Seq<u32>, n: nat) -> (Seq<i32>, bool)
    decreases n,
{
    if n == 0 {
        (Seq::empty(), true)
    } else {
        let (pids, valid) = unwatched(words, watched, (n - 1) as nat);
        if !valid {
            (pids, false)
        } else {
            match text::parse_u32(words[n - 1]) {
                None => (pids, false),
                Some(pid) => if watched.contains(pid) {
                    (pids, true)
                } else if pid <= i32::MAX {
                    (pids.push(pid as i32), true)
                } else {
                    (pids, false)
                },
            }
        }
    }
}

proof fn unwatched_tail(words: Seq<Seq<char>>, watched: Seq<u32>, n: nat)
    requires
        n <= words.len(),
        !unwatched(words, watched, n).1,
    ensures
        unwatched(words, watched, words.len()) == unwatched(words, watched, n),
    decreases words.len() - n,
{
    if n < words.len() {
        unwatched_tail(words, watched, n + 1);
    }
}

fn contains_pid(list: &Vec<u32>, pid: u32) -> (r: bool)
    ensures
        r == list@.contains(pid),
{
    let mut i: usize = 0;
    while i < list.len()
        invariant
            i <= list@.len(),
            forall|k: int| 0 <= k < i ==> list@[k] != pid,
        decreases list@.len() - i,
    {
        if list[i] == pid {
            return true;
        }
        i = i + 1;
    }
    false
}

/// The adopted children that are to be reaped: those that the file `children` lists and
/// that are not watched, so that the end of a watched one is never consumed.
pub fn unwatched_children(source: &str, watched: &Vec<u32>) -> (r: ProcessList)
    ensures
        (r.pids@, r.valid) == unwatched(
            text::words(source@),
            watched@,
            text::words(source@).len(),
        ),
        forall|i: int| 0 <= i < r.pids@.len() ==> !watched@.contains((#[trigger] r.pids@[i]) as u32),
{
    let list = text::split_words(source);
    let ghost all = text::words(source@);
    let mut pids: Vec<i32> = Vec::new();
    let mut i: usize = 0;
    while i < list.len()
        invariant
            all == text::texts(list@),
            all == text::words(source@),
            i <= list@.len(),
            unwatched(all, watched@, i as nat) == (pids@, true),
            forall|k: int|
                0 <= k < pids@.len() ==> !watched@.contains((#[trigger] pids@[k]) as u32),
        decreases list@.len() - i,
    {
        proof {
            assert(all[i as int] == list@[i as int]@);
        }
        let pid = match text::parse_u32_string(list[i].as_str()) {
            Some(pid) => pid,
            None => {
                proof {
                    unwatched_tail(all, watched@, (i + 1) as nat);
                }
                return ProcessList { pids, valid: false };
            },
        };
        if !contains_pid(watched, pid) {
            if pid > i32::MAX as u32 {
                proof {
                    unwatched_tail(all, watched@, (i + 1) as nat);
                }
                return ProcessList { pids, valid: false };
            }
            pids.push(pid as i32);
        }
        i = i + 1;
    }
    ProcessList { pids, valid: true }
}

/// The event that the kernel reports by bits.
pub fn ready_event(token: u64, bits: u32, input: u32, output: u32, closed: u32) -> (r: ReadyEvent)
    ensures
        r.token == token,
        r.readable == (bits & input != 0),
        r.writable == (bits & output != 0),
        r.hangup == (bits & closed != 0),
{
    ReadyEvent {
        token,
        readable: bits & input != 0,
        writable: bits & output != 0,
        hangup: bits & closed != 0,
    }
}

/// The time to which a timer is set, in seconds and nanoseconds. A timer that is set to no
/// time at all would be switched off, so it is set to one nanosecond.
pub fn timer_value(seconds: u64, nanoseconds: u32) -> (r: (i64, i64))
    ensures
        r.0 == if seconds > i64::MAX {
            i64::MAX as int
        } else {
            seconds as int
        },
        r.1 == if seconds == 0 && nanoseconds == 0 {
            1int
        } else {
            nanoseconds as int
        },
        r.0 > 0 || r.1 > 0,
{
    (
        if seconds > i64::MAX as u64 {
            i64::MAX
        } else {
            seconds as i64
        },
        if seconds == 0 && nanoseconds == 0 {
            1
        } else {
            nanoseconds as i64
        },
    )
}

fn contains_zero(path: &Vec<u8>) -> (r: bool)
    ensures
        r == path@.contains(0),
{
    let mut i: usize = 0;
    while i < path.len()
        invariant
            i <= path@.len(),
            forall|k: int| 0 <= k < i ==> path@[k] != 0,
        decreases path@.len() - i,
    {
        if path[i] == 0 {
            return true;
        }
        i = i + 1;
    }
    false
}

/// Whether a path can name a socket: it holds no zero byte, and an address has room for it
/// and for a zero byte after it.
pub fn check_socket_path(path: &Vec<u8>, room: usize) -> (r: Result<(), &'static str>)
    ensures
        match r {
            Ok(_) => !path@.contains(0) && path@.len() < room,
            Err(reason) => if path@.contains(0) {
                reason@ == "socket path contains NUL"@
            } else {
                path@.len() >= room && reason@ == "socket path is too long"@
            },
        },
{
    if contains_zero(path) {
        Err("socket path contains NUL")
    } else if path.len() >= room {
        Err("socket path is too long")
    } else {
        Ok(())
    }
}

/// The whole milliseconds of a duration.
pub open spec fn milliseconds(seconds: u64, nanoseconds: u32) -> int {
    seconds * 1_000 + nanoseconds / 1_000_000
}

fn bounded_milliseconds(seconds: u64, nanoseconds: u32) -> (r: i32)
    ensures
        r == if milliseconds(seconds, nanoseconds) > i32::MAX {
            i32::MAX as int
        } else {
            milliseconds(seconds, nanoseconds)
        },
{
    let total: u128 = seconds as u128 * 1_000 + (nanoseconds / 1_000_000) as u128;
    if total > i32::MAX as u128 {
        i32::MAX
    } else {
        total as i32
    }
}

/// How long a wait for events may take, in milliseconds: as long as it is given, up to what
/// the kernel takes, or without a bound.
pub fn event_timeout(after: Option<(u64, u32)>) -> (r: i32)
    ensures
        r == match after {
            None => -1int,
            Some((seconds, nanoseconds)) => if milliseconds(seconds, nanoseconds) > i32::MAX {
                i32::MAX as int
            } else {
                milliseconds(seconds, nanoseconds)
            },
        },
{
    match after {
        None => -1,
        Some((seconds, nanoseconds)) => bounded_milliseconds(seconds, nanoseconds),
    }
}

/// How long to wait for a manager that starts, in milliseconds, out of the time that is
/// left: no longer than that, at least one, and not at all where nothing is left.
pub fn startup_timeout(seconds: u64, nanoseconds: u32) -> (r: Option<i32>)
    ensures
        r == if seconds == 0 && nanoseconds == 0 {
            None::<i32>
        } else if milliseconds(seconds, nanoseconds) < 1 {
            Some(1i32)
        } else if milliseconds(seconds, nanoseconds) > i32::MAX {
            Some(i32::MAX)
        } else {
            Some(milliseconds(seconds, nanoseconds) as i32)
        },
{
    if seconds == 0 && nanoseconds == 0 {
        return None;
    }
    let whole = bounded_milliseconds(seconds, nanoseconds);
    if whole < 1 {
        Some(1)
    } else {
        Some(whole)
    }
}

/// What a manager that has started writes to the one who started it.
pub const READY_BYTE: u8 = 82;

/// Whether a manager has said that it is ready, out of what a read of one byte gave.
pub fn startup_reply(count: i64, byte: u8) -> (r: Result<(), &'static str>)
    ensures
        match r {
            Ok(_) => count == 1 && byte == READY_BYTE,
            Err(reason) => !(count == 1 && byte == READY_BYTE) && reason@
                == "user manager exited before readiness"@,
        },
{
    if count == 1 && byte == READY_BYTE {
        Ok(())
    } else {
        Err("user manager exited before readiness")
    }
}

/// Whether a packet is short enough to be sent.
pub fn check_packet_length(length: usize) -> (r: Result<(), &'static str>)
    ensures
        match r {
            Ok(_) => length <= MAX_PACKET_LEN,
            Err(reason) => length > MAX_PACKET_LEN && reason@
                == "control packet exceeds hard limit"@,
        },
{
    if length > MAX_PACKET_LEN {
        Err("control packet exceeds hard limit")
    } else {
        Ok(())
    }
}

/// The packet that was received into a buffer, out of its full length; one that was longer
/// than the buffer is refused.
pub fn received_packet(buffer: Vec<u8>, length: usize) -> (r: Result<Vec<u8>, &'static str>)
    ensures
        match r {
            Ok(packet) => length <= buffer@.len() && packet@ == buffer@.take(length as int),
            Err(reason) => length > buffer@.len() && reason@
                == "control packet exceeds hard limit"@,
        },
{
    if length > buffer.len() {
        return Err("control packet exceeds hard limit");
    }
    let mut packet = buffer;
    packet.truncate(length);
    Ok(packet)
}

/// Whether a packet was sent in one piece.
pub fn check_sent(sent: usize, length: usize) -> (r: Result<(), &'static str>)
    ensures
        match r {
            Ok(_) => sent == length,
            Err(reason) => sent != length && reason@ == "short seqpacket send"@,
        },
{
    if sent == length {
        Ok(())
    } else {
        Err("short seqpacket send")
    }
}

/// Whether what stands at the path of a control socket may be replaced: only a socket of
/// the expected owner.
pub fn check_old_socket(socket: bool, owner: u32, expected: u32) -> (r: Result<
    (),
    &'static str,
>)
    ensures
        match r {
            Ok(_) => socket && owner == expected,
            Err(reason) => !(socket && owner == expected) && reason@
                == "refusing to replace unsafe control socket path"@,
        },
{
    if socket && owner == expected {
        Ok(())
    } else {
        Err("refusing to replace unsafe control socket path")
    }
}

/// Whether a directory may hold the control socket: only a directory of the expected owner.
pub fn check_control_directory(directory: bool, owner: u32, expected: u32) -> (r: Result<
    (),
    &'static str,
>)
    ensures
        match r {
            Ok(_) => directory && owner == expected,
            Err(reason) => !(directory && owner == expected) && reason@
                == "unsafe Loom control directory"@,
        },
{
    if directory && owner == expected {
        Ok(())
    } else {
        Err("unsafe Loom control directory")
    }
}

/// How a text falls into lines: each ends with a newline, and a carriage return before that is
/// no part of it; what follows the last newline is a line where there is anything.
pub proof fn lines_law(source: Seq<char>)
    ensures
        ({
            let parts = text::split(source, '\n');
            let list = lines(source);
            &&& text::join(parts, seq!['\n']) == source
            &&& list.len() == parts.len() || list.len() == parts.len() - 1 && parts.last().len()
                == 0
            &&& parts.last().len() == 0 ==> list.len() == parts.len() - 1
            &&& forall|i: int|
                0 <= i < parts.len() - 1 ==> #[trigger] list[i] == parts[i] && !(parts[i].len() > 0
                    && parts[i].last() == '\r') || parts[i] == list[i].push('\r')
            &&& parts.last().len() > 0 ==> list.last() == parts.last()
        }),
{
    text::split_law(source, '\n');
    let parts = text::split(source, '\n');
    let list = lines(source);
    assert forall|i: int| 0 <= i < parts.len() - 1 implies #[trigger] list[i] == parts[i] && !(
    parts[i].len() > 0 && parts[i].last() == '\r') || parts[i] == list[i].push('\r') by {
        if parts[i].len() > 0 && parts[i].last() == '\r' {
            assert(parts[i] =~= list[i].push('\r'));
        }
    }
}

/// Which line is found: the first that has the beginning, without it, and none where none has.
pub proof fn line_after_law(list: Seq<Seq<char>>, prefix: Seq<char>, n: nat)
    requires
        n <= list.len(),
    ensures
        match line_after(list, prefix, n) {
            Some(rest) => exists|i: int|
                0 <= i < n && #[trigger] list[i] == prefix + rest && forall|k: int|
                    0 <= k < i ==> !text::has_prefix(#[trigger] list[k], prefix),
            None => forall|k: int| 0 <= k < n ==> !text::has_prefix(#[trigger] list[k], prefix),
        },
    decreases n,
{
    if n > 0 {
        line_after_law(list, prefix, (n - 1) as nat);
        if line_after(list, prefix, (n - 1) as nat) is None && text::has_prefix(
            list[n - 1],
            prefix,
        ) {
            let rest = line_after(list, prefix, n)->0;
            assert(list[n - 1] =~= prefix + rest);
        }
    }
}

/// When a cgroup is empty: where its file says so, with a zero; with a one it is not, and
/// anything else, and a file without that line, says nothing.
pub proof fn cgroup_law(events: Seq<u8>)
    ensures
        match empty_cgroup(events) {
            Ok(true) => text::utf8(events) matches Some(source) && found_line(
                source,
                "populated "@,
            ) == Some("0"@),
            Ok(false) => text::utf8(events) matches Some(source) && found_line(
                source,
                "populated "@,
            ) == Some("1"@),
            Err(_) => match text::utf8(events) {
                None => true,
                Some(source) => found_line(source, "populated "@) != Some("0"@) && found_line(
                    source,
                    "populated "@,
                ) != Some("1"@),
            },
        },
{
}

/// What is left of a path without the slashes at its beginning: the rest from the first other
/// character on.
pub proof fn relative_law(path: Seq<char>)
    ensures
        ({
            let rest = relative_path(path);
            &&& rest.len() <= path.len()
            &&& rest == path.skip(path.len() - rest.len())
            &&& rest.len() > 0 ==> rest[0] != '/'
            &&& forall|i: int| 0 <= i < path.len() - rest.len() ==> #[trigger] path[i] == '/'
        }),
    decreases path.len(),
{
    if text::begins_with(path, '/') {
        relative_law(path.drop_first());
        let rest = relative_path(path);
        assert(rest =~= path.skip(path.len() - rest.len()));
        assert forall|i: int| 0 <= i < path.len() - rest.len() implies #[trigger] path[i] == '/' by {
            if i > 0 {
                assert(path.drop_first()[i - 1] == path[i]);
            }
        }
    } else {
        assert(path.skip(0) =~= path);
    }
}

/// Which processes a file lists: where each line holds a number they are these in order, and
/// else those before the first line that holds none.
pub proof fn listed_law(list: Seq<Seq<char>>, n: nat)
    requires
        n <= list.len(),
    ensures
        ({
            let (pids, valid) = listed(list, n);
            &&& valid <==> forall|k: int| 0 <= k < n ==> text::parse_i32(#[trigger] list[k]) is Some
            &&& valid ==> pids.len() == n
            &&& pids.len() <= n
            &&& forall|k: int|
                0 <= k < pids.len() ==> text::parse_i32(#[trigger] list[k]) == Some(pids[k])
            &&& !valid ==> pids.len() < n && text::parse_i32(list[pids.len() as int]) is None
        }),
    decreases n,
{
    if n > 0 {
        listed_law(list, (n - 1) as nat);
        let (pids, valid) = listed(list, n);
        let (before, was) = listed(list, (n - 1) as nat);
        if valid {
            assert forall|k: int| 0 <= k < pids.len() implies text::parse_i32(#[trigger] list[k])
                == Some(pids[k]) by {
                if k < n - 1 {
                    assert(pids[k] == before[k]);
                }
            }
        }
    }
}

/// Which children are reported: of a list in which each word is a process those that are not
/// watched, and no other; of a list in which one is not, some of those that are not watched.
pub proof fn unwatched_law(words: Seq<Seq<char>>, watched: Seq<u32>, n: nat)
    requires
        n <= words.len(),
    ensures
        ({
            let (pids, valid) = unwatched(words, watched, n);
            &&& forall|q: int|
                0 <= q < pids.len() ==> child_of(words, watched, n, #[trigger] pids[q])
            &&& valid ==> forall|k: int|
                0 <= k < n ==> (text::parse_u32(#[trigger] words[k]) matches Some(pid) && (
                watched.contains(pid) || pid <= i32::MAX && pids.contains(pid as i32)))
        }),
    decreases n,
{
    if n > 0 {
        unwatched_law(words, watched, (n - 1) as nat);
        let (pids, valid) = unwatched(words, watched, n);
        let (before, was) = unwatched(words, watched, (n - 1) as nat);
        assert forall|q: int| 0 <= q < pids.len() implies child_of(
            words,
            watched,
            n,
            #[trigger] pids[q],
        ) by {
            if q < before.len() {
                assert(pids[q] == before[q]);
                assert(child_of(words, watched, (n - 1) as nat, before[q]));
                let k = choose|k: int|
                    0 <= k < n - 1 && (text::parse_u32(#[trigger] words[k]) matches Some(pid)
                        && pid == before[q] && !watched.contains(pid));
                assert(text::parse_u32(words[k]) is Some);
            } else {
                assert(text::parse_u32(words[n - 1]) is Some);
            }
        }
        if valid {
            assert forall|k: int| 0 <= k < n implies (text::parse_u32(#[trigger] words[k])
                matches Some(pid) && (watched.contains(pid) || pid <= i32::MAX && pids.contains(
                pid as i32,
            ))) by {
                let pid = text::parse_u32(words[k])->0;
                if k < n - 1 {
                    if !watched.contains(pid) {
                        let q = choose|q: int| 0 <= q < before.len() && before[q] == pid as i32;
                        assert(pids[q] == pid as i32);
                    }
                } else if !watched.contains(pid) {
                    assert(pids[before.len() as int] == pid as i32);
                }
            }
        }
    }
}

/// Whether one of the first `n` words is a process that is not watched.
pub open spec fn child_of(words: Seq<Seq<char>>, watched: Seq<u32>, n: nat, pid: i32) -> bool {
    exists|k: int|
        0 <= k < n && (text::parse_u32(#[trigger] words[k]) matches Some(found) && found == pid
            && !watched.contains(found))
}

/// How many milliseconds a duration has: as many as are whole, and a thousand each second.
pub proof fn milliseconds_law(seconds: u64, nanoseconds: u32)
    requires
        nanoseconds < 1_000_000_000,
    ensures
        seconds * 1_000 <= milliseconds(seconds, nanoseconds) < (seconds + 1) * 1_000,
        milliseconds(seconds, nanoseconds) * 1_000_000 <= seconds * 1_000_000_000 + nanoseconds
            < (milliseconds(seconds, nanoseconds) + 1) * 1_000_000,
        READY_BYTE == 0x52,
{
}

} // verus!
