//! The operator's side of the program: the configured mode, the menu
//! commands, the device list and the names of log files.
use vstd::prelude::*;
use vstd::string::StringSliceAdditionalSpecFns;
use crate::records::{
    digit_run, digit_run_exec, digits_value, digits_value_exec, has_at_exec,
    lemma_run_digits,
};
use crate::session::Mode;
use crate::text::{decimal, push_all, push_decimal};

verus! {

pub const CODE_LIST_LOGS: usize = 0;

pub const CODE_CROSS_REFERENCE: usize = 101;

pub const CODE_DELETE_LOG: usize = 336;

pub open spec fn summary_word() -> Seq<u8> {
    seq![115u8, 117, 109, 109, 97, 114, 121]
}

pub open spec fn detailed_word() -> Seq<u8> {
    seq![100u8, 101, 116, 97, 105, 108, 101, 100]
}

/// The display mode that the configuration word `s` names.
pub open spec fn mode_of(s: Seq<u8>) -> Option<Mode> {
    if s == summary_word() {
        Some(Mode::Summary)
    } else if s == detailed_word() {
        Some(Mode::Detailed)
    } else {
        None
    }
}

/// Reads the configured display mode: `summary` or `detailed`, nothing else.
pub fn parse_mode(s: &str) -> (r: Option<Mode>)
    ensures
        r == mode_of(s.spec_bytes()),
{
    let b = s.as_bytes();
    let summary: Vec<u8> = vec![115u8, 117, 109, 109, 97, 114, 121];
    let detailed: Vec<u8> = vec![100u8, 101, 116, 97, 105, 108, 101, 100];
    if b.len() == summary.len() && has_at_exec(b, 0, summary.as_slice()) {
        assert(b@.subrange(0, b@.len() as int) =~= b@);
        Some(Mode::Summary)
    } else if b.len() == detailed.len() && has_at_exec(b, 0, detailed.as_slice()) {
        assert(b@.subrange(0, b@.len() as int) =~= b@);
        Some(Mode::Detailed)
    } else {
        proof {
            if b@ == summary_word() {
                assert(b@.subrange(0, b@.len() as int) =~= b@);
            }
            if b@ == detailed_word() {
                assert(b@.subrange(0, b@.len() as int) =~= b@);
            }
        }
        None
    }
}

/// Why a capture cannot start.
#[derive(Clone, Copy, Debug, PartialEq, Eq, Structural)]
pub enum StartupError {
    /// The device list is empty.
    NoDevices,
}

/// Whether a capture can be offered on a list of `n_devices` devices: only
/// where the list is not empty.
pub fn check_devices(n_devices: usize) -> (r: Result<(), StartupError>)
    ensures
        r is Err <==> n_devices == 0,
        r is Err ==> r == Err::<(), StartupError>(StartupError::NoDevices),
{
    if n_devices == 0 {
        Err(StartupError::NoDevices)
    } else {
        Ok(())
    }
}

/// A command typed at the menu.
#[derive(Clone, Copy, Debug, PartialEq, Eq, Structural)]
pub enum MenuCommand {
    /// List the log files.
    ListLogs,
    /// Cross-reference a log against the alert address.
    CrossReference,
    /// Delete a log file.
    DeleteLog,
    /// Start a capture on the device at this position of the list.
    Capture { device: usize },
    /// Not a command: ask again.
    Invalid,
}

pub open spec fn is_space(b: u8) -> bool {
    b == 32 || 9 <= b <= 13
}

/// The number of whitespace bytes of `s` from position `i` on.
pub open spec fn leading_spaces(s: Seq<u8>, i: int) -> nat
    decreases s.len() - i,
{
    if 0 <= i < s.len() && is_space(s[i]) {
        1 + leading_spaces(s, i + 1)
    } else {
        0
    }
}

/// The number of whitespace bytes of `s` that end at position `j`.
pub open spec fn trailing_spaces(s: Seq<u8>, j: int) -> nat
    decreases j,
{
    if 0 < j <= s.len() && is_space(s[j - 1]) {
        1 + trailing_spaces(s, j - 1)
    } else {
        0
    }
}

/// The number that `s` holds between leading and trailing whitespace: one
/// or more decimal digits whose value fits in a `usize`.
pub open spec fn number_of(s: Seq<u8>) -> Option<nat> {
    let a = leading_spaces(s, 0) as int;
    let b = s.len() - trailing_spaces(s, s.len() as int);
    if a < b && digit_run(s, a) >= b - a && digits_value(s, a, (b - a) as nat) <= usize::MAX {
        Some(digits_value(s, a, (b - a) as nat))
    } else {
        None
    }
}

/// The command that the number `n` stands for with `n_devices` devices:
/// the three fixed codes first, then the devices numbered from 1.
pub open spec fn command_of(n: Option<nat>, n_devices: nat) -> MenuCommand {
    match n {
        None => MenuCommand::Invalid,
        Some(k) => if k == CODE_LIST_LOGS {
            MenuCommand::ListLogs
        } else if k == CODE_CROSS_REFERENCE {
            MenuCommand::CrossReference
        } else if k == CODE_DELETE_LOG {
            MenuCommand::DeleteLog
        } else if 1 <= k <= n_devices {
            MenuCommand::Capture { device: (k - 1) as usize }
        } else {
            MenuCommand::Invalid
        },
    }
}

/// Reads a line typed at the menu, given the number of devices listed.
/// Anything that is not a number, or names no command, is `Invalid`.
pub fn parse_command(line: &str, n_devices: usize) -> (r: MenuCommand)
    ensures
        r == command_of(number_of(line.spec_bytes()), n_devices as nat),
{
    let s = line.as_bytes();
    let mut a: usize = 0;
    while a < s.len() && (s[a] == 32u8 || (9u8 <= s[a] && s[a] <= 13u8))
        invariant
            0 <= a <= s.len(),
            leading_spaces(s@, 0) == a + leading_spaces(s@, a as int),
        decreases s.len() - a,
    {
        a = a + 1;
    }
    let mut b: usize = s.len();
    while b > a && (s[b - 1] == 32u8 || (9u8 <= s[b - 1] && s[b - 1] <= 13u8))
        invariant
            a <= b <= s.len(),
            a == leading_spaces(s@, 0),
            trailing_spaces(s@, s.len() as int) == (s.len() - b) + trailing_spaces(s@, b as int),
        decreases b,
    {
        b = b - 1;
    }
    proof {
        if b > a {
            assert(!is_space(s@[b - 1]));
        }
    }
    if a >= b {
        return MenuCommand::Invalid;
    }
    let k = digit_run_exec(s, a);
    proof {
        lemma_run_digits(s@, a as int);
    }
    if k < b - a {
        return MenuCommand::Invalid;
    }
    let n: usize = match digits_value_exec(s, a, b - a) {
        None => return MenuCommand::Invalid,
        Some(v) => if v <= usize::MAX as u64 {
            v as usize
        } else {
            return MenuCommand::Invalid;
        },
    };
    if n == CODE_LIST_LOGS {
        MenuCommand::ListLogs
    } else if n == CODE_CROSS_REFERENCE {
        MenuCommand::CrossReference
    } else if n == CODE_DELETE_LOG {
        MenuCommand::DeleteLog
    } else if 1 <= n && n <= n_devices {
        MenuCommand::Capture { device: n - 1 }
    } else {
        MenuCommand::Invalid
    }
}

pub open spec fn log_dir_prefix() -> Seq<u8> {
    seq![46u8, 47, 108, 111, 103, 115, 47, 108, 111, 103]
}

pub open spec fn log_extension() -> Seq<u8> {
    seq![46u8, 116, 120, 116]
}

/// The name of the log file of a session stopped at the given local time:
/// `./logs/log` and the year, month, day, hour, minute and second in
/// decimal, without separators or padding, then `.txt`.
pub open spec fn log_file_name(
    year: u32,
    month: u32,
    day: u32,
    hour: u32,
    minute: u32,
    second: u32,
) -> Seq<u8> {
    log_dir_prefix() + decimal(year as nat) + decimal(month as nat) + decimal(day as nat)
        + decimal(hour as nat) + decimal(minute as nat) + decimal(second as nat)
        + log_extension()
}

/// The name of the log file of a session stopped at the given local time.
pub fn log_file_name_text(
    year: u32,
    month: u32,
    day: u32,
    hour: u32,
    minute: u32,
    second: u32,
) -> (r: Vec<u8>)
    ensures
        r@ == log_file_name(year, month, day, hour, minute, second),
{
    let mut out: Vec<u8> = vec![46u8, 47, 108, 111, 103, 115, 47, 108, 111, 103];
    push_decimal(&mut out, year as u64);
    push_decimal(&mut out, month as u64);
    push_decimal(&mut out, day as u64);
    push_decimal(&mut out, hour as u64);
    push_decimal(&mut out, minute as u64);
    push_decimal(&mut out, second as u64);
    let ext: Vec<u8> = vec![46u8, 116, 120, 116];
    push_all(&mut out, ext.as_slice());
    assert(out@ =~= log_file_name(year, month, day, hour, minute, second));
    out
}

/// With an empty device list no input starts a capture: no device is ever
/// looked up in the empty list, and the start-up check reports it.
pub proof fn lemma_empty_device_list_starts_nothing(n: Option<nat>)
    ensures
        !(command_of(n, 0) is Capture),
{
}

} // verus!
