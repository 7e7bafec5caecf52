//! The control socket of the bar: where it lives, which peers and command lines
//! it accepts, and what answers a launcher command.

use crate::text::{decimal, len_bytes};
use vstd::prelude::*;
use vstd::string::*;

verus! {

/// The longest command line that is read, in bytes.
pub const MAX_COMMAND_BYTES: u64 = 65536;

/// The longest socket path that is known to bind everywhere, in bytes.
pub const SOCKET_PATH_WARNING_BYTES: usize = 100;

/// The control socket.
#[derive(Debug)]
pub struct Ipc {
    path: String,
}

/// What was found at the runtime directory, without following a link.
#[derive(Clone, Copy, Debug, PartialEq, Eq, Structural)]
pub struct RuntimeDirFacts {
    pub is_dir: bool,
    pub uid: u32,
    pub mode: u32,
}

/// Why the runtime directory cannot hold the socket.
#[derive(Clone, Copy, Debug, PartialEq, Eq, Structural)]
pub enum RuntimeDirError {
    /// `XDG_RUNTIME_DIR` is missing or empty.
    Missing,
    NotADirectory,
    WrongOwner { uid: u32, expected: u32 },
    SharedMode { mode: u32 },
}

/// The first rule that the runtime directory breaks, if any.
pub open spec fn runtime_dir_fault(facts: RuntimeDirFacts, expected_uid: u32) -> Option<
    RuntimeDirError,
> {
    if !facts.is_dir {
        Some(RuntimeDirError::NotADirectory)
    } else if facts.uid != expected_uid {
        Some(RuntimeDirError::WrongOwner { uid: facts.uid, expected: expected_uid })
    } else if (facts.mode & 0o777u32) & 0o077u32 != 0 {
        Some(RuntimeDirError::SharedMode { mode: facts.mode & 0o777u32 })
    } else {
        None
    }
}

/// A number in octal notation.
pub open spec fn octal_text(n: nat) -> Seq<char>
    decreases n,
{
    if n < 8 {
        seq![crate::text::digit_char(n as int)]
    } else {
        octal_text(n / 8).push(crate::text::digit_char((n % 8) as int))
    }
}

/// A mode in octal notation, with three digits at least.
pub open spec fn mode_text(mode: u32) -> Seq<char> {
    if mode < 8 {
        "00"@ + octal_text(mode as nat)
    } else if mode < 64 {
        "0"@ + octal_text(mode as nat)
    } else {
        octal_text(mode as nat)
    }
}

fn push_octal(out: &mut String, n: u32)
    ensures
        final(out)@ == old(out)@ + octal_text(n as nat),
    decreases n,
{
    let ghost before = out@;
    if n >= 8 {
        push_octal(out, n / 8);
    }
    let digit: u32 = n % 8;
    let text = decimal(digit as u128);
    proof {
        assert(crate::text::decimal_text(digit as nat) =~= seq![
            crate::text::digit_char(digit as int),
        ]);
    }
    out.append(text.as_str());
    assert(out@ =~= before + octal_text(n as nat));
}

impl RuntimeDirError {
    /// The complaint about a runtime directory in words.
    pub open spec fn text(self, directory: Seq<char>) -> Seq<char> {
        match self {
            RuntimeDirError::Missing => "XDG_RUNTIME_DIR is required for secure IPC"@,
            RuntimeDirError::NotADirectory => "XDG_RUNTIME_DIR is not a real directory: "@
                + directory,
            RuntimeDirError::WrongOwner { uid, expected } => "XDG_RUNTIME_DIR "@ + directory
                + " is owned by uid "@ + crate::text::decimal_text(uid as nat)
                + ", expected effective uid "@ + crate::text::decimal_text(expected as nat),
            RuntimeDirError::SharedMode { mode } => "XDG_RUNTIME_DIR "@ + directory
                + " has mode "@ + mode_text(mode)
                + "; group and other permissions must be zero"@,
        }
    }

    /// The complaint about a runtime directory in words.
    pub fn message(self, directory: &str) -> (r: String)
        ensures
            r@ == self.text(directory@),
    {
        match self {
            RuntimeDirError::Missing => "XDG_RUNTIME_DIR is required for secure IPC".to_owned(),
            RuntimeDirError::NotADirectory => {
                let mut out = "XDG_RUNTIME_DIR is not a real directory: ".to_owned();
                out.append(directory);
                out
            },
            RuntimeDirError::WrongOwner { uid, expected } => {
                let mut out = "XDG_RUNTIME_DIR ".to_owned();
                out.append(directory);
                out.append(" is owned by uid ");
                out.append(decimal(uid as u128).as_str());
                out.append(", expected effective uid ");
                out.append(decimal(expected as u128).as_str());
                out
            },
            RuntimeDirError::SharedMode { mode } => {
                let mut digits = if mode < 8 {
                    "00".to_owned()
                } else if mode < 64 {
                    "0".to_owned()
                } else {
                    String::new()
                };
                push_octal(&mut digits, mode);
                assert(digits@ =~= mode_text(mode));
                let mut out = "XDG_RUNTIME_DIR ".to_owned();
                out.append(directory);
                out.append(" has mode ");
                out.append(digits.as_str());
                out.append("; group and other permissions must be zero");
                out
            },
        }
    }
}

/// A real directory of the effective user, closed to everybody else.
pub fn validate_runtime_dir(facts: RuntimeDirFacts, expected_uid: u32) -> (r: Result<
    (),
    RuntimeDirError,
>)
    ensures
        r == (match runtime_dir_fault(facts, expected_uid) {
            Some(fault) => Err::<(), RuntimeDirError>(fault),
            None => Ok(()),
        }),
{
    if !facts.is_dir {
        return Err(RuntimeDirError::NotADirectory);
    }
    if facts.uid != expected_uid {
        return Err(RuntimeDirError::WrongOwner { uid: facts.uid, expected: expected_uid });
    }
    let mode: u32 = facts.mode & 0o777u32;
    if mode & 0o077u32 != 0 {
        return Err(RuntimeDirError::SharedMode { mode });
    }
    Ok(())
}

/// Only the permission bits of group and others decide about a shared mode:
/// the bits above the nine permission bits never do.
pub proof fn shared_mode_is_the_low_bits(mode: u32)
    ensures
        (mode & 0o777u32) & 0o077u32 == mode & 0o077u32,
{
    assert((mode & 0o777u32) & 0o077u32 == mode & 0o077u32) by (bit_vector);
}

impl Ipc {
    /// The path of the socket.
    pub closed spec fn spec_path(&self) -> Seq<char> {
        self.path@
    }

    /// The socket in a runtime directory that satisfies the rules. An empty
    /// directory name counts as a missing one.
    pub fn new(runtime_dir: &str, facts: RuntimeDirFacts, effective_uid: u32) -> (r: Result<
        Self,
        RuntimeDirError,
    >)
        ensures
            match r {
                Ok(ipc) => {
                    &&& runtime_dir@.len() > 0
                    &&& runtime_dir_fault(facts, effective_uid) is None
                    &&& ipc.spec_path() == crate::text::path_joined(runtime_dir@, "ironbar-ipc.sock"@)
                },
                Err(e) => if runtime_dir@.len() == 0 {
                    e == RuntimeDirError::Missing
                } else {
                    runtime_dir_fault(facts, effective_uid) == Some(e)
                },
            },
    {
        if runtime_dir.is_empty() {
            return Err(RuntimeDirError::Missing);
        }
        match validate_runtime_dir(facts, effective_uid) {
            Err(e) => Err(e),
            Ok(()) => {
                Ok(Ipc { path: crate::text::join_path(runtime_dir, "ironbar-ipc.sock") })
            },
        }
    }

    /// The path of the socket.
    pub fn path(&self) -> (r: &str)
        ensures
            r@ == self.spec_path(),
    {
        self.path.as_str()
    }

    /// Whether the path is longer than what every platform accepts.
    pub fn path_may_be_too_long(&self) -> (r: bool)
        ensures
            r == (crate::text::byte_len(self.spec_path()) > SOCKET_PATH_WARNING_BYTES),
            r <==> crate::text::byte_len(self.spec_path()) > 100,
    {
        len_bytes(self.path.as_str()) > SOCKET_PATH_WARNING_BYTES
    }
}

/// A path is only removed when it is a socket.
#[derive(Clone, Copy, Debug, PartialEq, Eq, Structural)]
pub enum SocketRemoval {
    Remove,
    /// Somebody put something else there; it is kept.
    NotASocket,
}

pub fn socket_removal(is_socket: bool) -> (r: SocketRemoval)
    ensures
        r == (if is_socket {
            SocketRemoval::Remove
        } else {
            SocketRemoval::NotASocket
        }),
{
    if is_socket {
        SocketRemoval::Remove
    } else {
        SocketRemoval::NotASocket
    }
}

/// Only the owner of the socket file may talk to it.
pub fn peer_allowed(peer_uid: u32, owner_uid: u32) -> (r: bool)
    ensures
        r == (peer_uid == owner_uid),
{
    peer_uid == owner_uid
}

/// Why a command line is refused.
#[derive(Clone, Copy, Debug, PartialEq, Eq, Structural)]
pub enum CommandLineError {
    Closed,
    TooLong,
}

/// Checks what was read up to the first newline (at most one byte more than the
/// limit): something must have come, within the limit, and end in a newline.
pub fn check_command_line(line: &Vec<u8>) -> (r: Result<(), CommandLineError>)
    ensures
        r == (if line@.len() == 0 {
            Err::<(), CommandLineError>(CommandLineError::Closed)
        } else if line@.len() > MAX_COMMAND_BYTES || line@.last() != 10u8 {
            Err(CommandLineError::TooLong)
        } else {
            Ok(())
        }),
        r is Ok <==> 0 < line@.len() <= 65536 && line@.last() == 10u8,
{
    if line.len() == 0 {
        return Err(CommandLineError::Closed);
    }
    if line.len() as u64 > MAX_COMMAND_BYTES || line[line.len() - 1] != 10u8 {
        return Err(CommandLineError::TooLong);
    }
    Ok(())
}

/// Commands for the launcher.
#[derive(Clone, Copy, Debug, PartialEq, Eq, Structural)]
pub enum LauncherCommand {
    Show,
    Hide,
    Toggle,
    Refresh,
    Status,
}

/// What a launcher command asks of a running launcher.
#[derive(Clone, Copy, Debug, PartialEq, Eq, Structural)]
pub enum LauncherCall {
    Request(crate::preparation::LauncherRequest),
    Status,
    /// There is no launcher; the command is answered with an error.
    NotInitialized,
}

/// Routes a launcher command.
pub fn route_launcher_command(command: LauncherCommand, initialized: bool) -> (r: LauncherCall)
    ensures
        r == (if !initialized {
            LauncherCall::NotInitialized
        } else {
            match command {
                LauncherCommand::Show => LauncherCall::Request(
                    crate::preparation::LauncherRequest::Show,
                ),
                LauncherCommand::Hide => LauncherCall::Request(
                    crate::preparation::LauncherRequest::Hide,
                ),
                LauncherCommand::Toggle => LauncherCall::Request(
                    crate::preparation::LauncherRequest::Toggle,
                ),
                LauncherCommand::Refresh => LauncherCall::Request(
                    crate::preparation::LauncherRequest::Refresh,
                ),
                LauncherCommand::Status => LauncherCall::Status,
            }
        }),
{
    if !initialized {
        return LauncherCall::NotInitialized;
    }
    match command {
        LauncherCommand::Show => LauncherCall::Request(crate::preparation::LauncherRequest::Show),
        LauncherCommand::Hide => LauncherCall::Request(crate::preparation::LauncherRequest::Hide),
        LauncherCommand::Toggle => LauncherCall::Request(
            crate::preparation::LauncherRequest::Toggle,
        ),
        LauncherCommand::Refresh => LauncherCall::Request(
            crate::preparation::LauncherRequest::Refresh,
        ),
        LauncherCommand::Status => LauncherCall::Status,
    }
}

/// A runtime directory is accepted exactly if it is a directory of the user's own
/// that nobody else may read, write or enter.
pub proof fn private_directories_are_accepted(facts: RuntimeDirFacts, uid: u32)
    ensures
        runtime_dir_fault(facts, uid) is None <==> facts.is_dir && facts.uid == uid && facts.mode
            & 0o077u32 == 0,
        runtime_dir_fault(facts, uid) == Some(RuntimeDirError::NotADirectory) <==> !facts.is_dir,
        facts.is_dir && facts.uid != uid ==> runtime_dir_fault(facts, uid) == Some(
            RuntimeDirError::WrongOwner { uid: facts.uid, expected: uid },
        ),
        facts.is_dir && facts.uid == uid && facts.mode & 0o077u32 != 0 ==> runtime_dir_fault(
            facts,
            uid,
        ) == Some(RuntimeDirError::SharedMode { mode: facts.mode & 0o777u32 }),
{
    let mode = facts.mode;
    assert((mode & 0o777u32) & 0o077u32 == mode & 0o077u32) by (bit_vector);
}

/// A mode is written in octal digits, three at least.
pub proof fn octal_text_appends_a_digit(n: nat, digit: nat)
    requires
        digit < 8,
    ensures
        octal_text(digit) == seq![crate::text::digit_char(digit as int)],
        n > 0 ==> octal_text(8 * n + digit) == octal_text(n).push(
            crate::text::digit_char(digit as int),
        ),
{
    if n > 0 {
        assert((8 * n + digit) / 8 == n && (8 * n + digit) % 8 == digit);
    }
}

/// A mode is written with three digits at least.
pub proof fn modes_have_three_digits(mode: u32)
    ensures
        mode < 8 ==> mode_text(mode) == "00"@ + octal_text(mode as nat),
        8 <= mode < 64 ==> mode_text(mode) == "0"@ + octal_text(mode as nat),
        mode >= 64 ==> mode_text(mode) == octal_text(mode as nat),
        mode_text(mode).len() >= 3,
{
    reveal_strlit("00");
    reveal_strlit("0");
    reveal_with_fuel(octal_text, 4);
}

/// What is said of a runtime directory names it, and what is wrong with it.
pub proof fn errors_name_the_directory(e: RuntimeDirError, directory: Seq<char>)
    ensures
        match e {
            RuntimeDirError::Missing => e.text(directory) ==
                "XDG_RUNTIME_DIR is required for secure IPC"@,
            RuntimeDirError::NotADirectory => e.text(directory) ==
                "XDG_RUNTIME_DIR is not a real directory: "@ + directory,
            RuntimeDirError::WrongOwner { uid, expected } => e.text(directory) ==
                "XDG_RUNTIME_DIR "@ + directory + " is owned by uid "@
                + crate::text::decimal_text(uid as nat) + ", expected effective uid "@
                + crate::text::decimal_text(expected as nat),
            RuntimeDirError::SharedMode { mode } => e.text(directory) == "XDG_RUNTIME_DIR "@
                + directory + " has mode "@ + mode_text(mode)
                + "; group and other permissions must be zero"@,
        },
{
}

} // verus!
