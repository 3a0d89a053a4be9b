//! Error taxonomy of the tool: configuration/parse errors surfaced before any
//! child is launched (exit 2, or 0 for help/version), and fatal runtime errors
//! from the supervisor's collaborators (exit 3, or 2 where the user can mend
//! the invocation).

use vstd::prelude::*;
use vstd::string::*;
use crate::bytes::{dec_rep, push_all, u64_to_dec};

verus! {

/// Longest permitted child command line; a constructed command whose character
/// count reaches this bound is refused.
pub const MAX_ARGS: usize = 256;

/// An error found while reading the command line or the hosts source.
#[derive(Debug)]
pub enum ParseError {
    UnknownOption,
    HelpRequested,
    VersionRequested,
    ArgCount,
    InvalidColor(Vec<u8>),
    InvalidMaxJobs,
    MaxLineLength,
    MaxOutputLength,
    GroupJoinConflict,
    AnonJoinConflict,
    JoinSilentConflict,
    IoError(Vec<u8>),
    ParsePortError,
    HostnameTooLong(u16, u16, Vec<u8>),
    Utf8Error(u16),
    HostFileFormatError(u16, Vec<u8>),
}

/// The diagnostic text of a parse error; empty for the three outcomes that
/// print usage or version information instead.
pub open spec fn parse_error_msg(e: &ParseError) -> Seq<u8> {
    match e {
        ParseError::UnknownOption => Seq::empty(),
        ParseError::HelpRequested => Seq::empty(),
        ParseError::VersionRequested => Seq::empty(),
        ParseError::ArgCount => "no command specified".spec_bytes(),
        ParseError::InvalidColor(c) => "invalid value for `-c`: ".spec_bytes() + c@,
        ParseError::InvalidMaxJobs => "invalid value for `-m`: must be an integer > 0".spec_bytes(),
        ParseError::MaxLineLength =>
            "invalid value for `--max-line-length`: must be an integer > 0".spec_bytes(),
        ParseError::MaxOutputLength =>
            "invalid value for `--max-output-length`: must be an integer > 0".spec_bytes(),
        ParseError::GroupJoinConflict => "`-g` and `-j` are mutually exclusive".spec_bytes(),
        ParseError::AnonJoinConflict => "`-a` and `-j` are mutually exclusive".spec_bytes(),
        ParseError::JoinSilentConflict => "`-j` and `-s` are mutually exclusive".spec_bytes(),
        ParseError::IoError(m) => m@,
        ParseError::ParsePortError =>
            "invalid value for `-p`: must be an integer > 0".spec_bytes(),
        ParseError::HostnameTooLong(line_no, max_len, line) =>
            "hosts file line ".spec_bytes() + dec_rep(*line_no as nat)
                + " too long (>= ".spec_bytes() + dec_rep(*max_len as nat)
                + " chars)\n".spec_bytes() + line@,
        ParseError::Utf8Error(line_no) =>
            "invalid utf-8 in hosts file line ".spec_bytes() + dec_rep(*line_no as nat),
        ParseError::HostFileFormatError(line_no, line) =>
            "Host file format error on line: ".spec_bytes() + dec_rep(*line_no as nat)
                + "\n".spec_bytes() + line@
                + "\nEnsure each host is newline separated".spec_bytes(),
    }
}

impl ParseError {
    /// The diagnostic text of this error.
    pub fn message(&self) -> (r: Vec<u8>)
        ensures
            r@ == parse_error_msg(self),
    {
        let mut r: Vec<u8> = Vec::new();
        match self {
            ParseError::UnknownOption => {},
            ParseError::HelpRequested => {},
            ParseError::VersionRequested => {},
            ParseError::ArgCount => {
                push_all(&mut r, "no command specified".as_bytes());
            },
            ParseError::InvalidColor(c) => {
                push_all(&mut r, "invalid value for `-c`: ".as_bytes());
                push_all(&mut r, c.as_slice());
            },
            ParseError::InvalidMaxJobs => {
                push_all(&mut r, "invalid value for `-m`: must be an integer > 0".as_bytes());
            },
            ParseError::MaxLineLength => {
                push_all(
                    &mut r,
                    "invalid value for `--max-line-length`: must be an integer > 0".as_bytes(),
                );
            },
            ParseError::MaxOutputLength => {
                push_all(
                    &mut r,
                    "invalid value for `--max-output-length`: must be an integer > 0".as_bytes(),
                );
            },
            ParseError::GroupJoinConflict => {
                push_all(&mut r, "`-g` and `-j` are mutually exclusive".as_bytes());
            },
            ParseError::AnonJoinConflict => {
                push_all(&mut r, "`-a` and `-j` are mutually exclusive".as_bytes());
            },
            ParseError::JoinSilentConflict => {
                push_all(&mut r, "`-j` and `-s` are mutually exclusive".as_bytes());
            },
            ParseError::IoError(m) => {
                push_all(&mut r, m.as_slice());
            },
            ParseError::ParsePortError => {
                push_all(&mut r, "invalid value for `-p`: must be an integer > 0".as_bytes());
            },
            ParseError::HostnameTooLong(line_no, max_len, line) => {
                push_all(&mut r, "hosts file line ".as_bytes());
                let d = u64_to_dec(*line_no as u64);
                push_all(&mut r, d.as_slice());
                push_all(&mut r, " too long (>= ".as_bytes());
                let d2 = u64_to_dec(*max_len as u64);
                push_all(&mut r, d2.as_slice());
                push_all(&mut r, " chars)\n".as_bytes());
                push_all(&mut r, line.as_slice());
            },
            ParseError::Utf8Error(line_no) => {
                push_all(&mut r, "invalid utf-8 in hosts file line ".as_bytes());
                let d = u64_to_dec(*line_no as u64);
                push_all(&mut r, d.as_slice());
            },
            ParseError::HostFileFormatError(line_no, line) => {
                push_all(&mut r, "Host file format error on line: ".as_bytes());
                let d = u64_to_dec(*line_no as u64);
                push_all(&mut r, d.as_slice());
                push_all(&mut r, "\n".as_bytes());
                push_all(&mut r, line.as_slice());
                push_all(&mut r, "\nEnsure each host is newline separated".as_bytes());
            },
        }
        r
    }

    /// The process exit code that this error calls for: 0 where usage or
    /// version text was requested, 2 for every true parse error.
    pub fn exit_code(&self) -> (r: u8)
        ensures
            r == 0 <==> (self is HelpRequested || self is VersionRequested),
            r == 0 || r == 2,
    {
        match self {
            ParseError::HelpRequested => 0,
            ParseError::VersionRequested => 0,
            _ => 2,
        }
    }
}

/// A fatal error from the supervisor's collaborators: pipes, spawning,
/// readiness waiting, reads, and child reaping.
#[derive(Debug)]
pub enum RuntimeError {
    SshCommandLengthExceeded(usize),
    ClosePipeError(Vec<u8>),
    PipeCreationError(Vec<u8>),
    CloneProcessError,
    TrimError,
    MonitorFdError(Vec<u8>),
    EpollWaitError(Vec<u8>),
    ReadFdError(Vec<u8>),
    CloseFdError(Vec<u8>),
    WriteStreamError,
    WaitChildProcError(Vec<u8>),
}

/// The diagnostic text of a runtime error.
pub open spec fn runtime_error_msg(e: &RuntimeError) -> Seq<u8> {
    match e {
        RuntimeError::SshCommandLengthExceeded(len) =>
            "ssh command exceeds max args: ".spec_bytes() + dec_rep(*len as nat)
                + " >= ".spec_bytes() + dec_rep(MAX_ARGS as nat),
        RuntimeError::ClosePipeError(pipe_type) =>
            "failed to close ".spec_bytes() + pipe_type@ + " pipe write end".spec_bytes(),
        RuntimeError::PipeCreationError(pipe_type) =>
            "failed to create ".spec_bytes() + pipe_type@ + " pipe".spec_bytes(),
        RuntimeError::CloneProcessError => "failed to clone process".spec_bytes(),
        RuntimeError::TrimError => "failed to get the first part of the host name.".spec_bytes(),
        RuntimeError::MonitorFdError(event) =>
            "failed during epoll_ctl system call(".spec_bytes() + event@ + ").".spec_bytes(),
        RuntimeError::EpollWaitError(error) =>
            "failed during epoll_wait system call: ".spec_bytes() + error@,
        RuntimeError::ReadFdError(e) =>
            "failed to read from file descriptor: ".spec_bytes() + e@,
        RuntimeError::CloseFdError(e) => "failed to close file descriptor: ".spec_bytes() + e@,
        RuntimeError::WriteStreamError => "stream write failed".spec_bytes(),
        RuntimeError::WaitChildProcError(e) =>
            "failed to wait for child process(waitpid): ".spec_bytes() + e@,
    }
}

impl RuntimeError {
    /// The diagnostic text of this error.
    pub fn message(&self) -> (r: Vec<u8>)
        ensures
            r@ == runtime_error_msg(self),
    {
        let mut r: Vec<u8> = Vec::new();
        match self {
            RuntimeError::SshCommandLengthExceeded(len) => {
                push_all(&mut r, "ssh command exceeds max args: ".as_bytes());
                let d = u64_to_dec(*len as u64);
                push_all(&mut r, d.as_slice());
                push_all(&mut r, " >= ".as_bytes());
                let d2 = u64_to_dec(MAX_ARGS as u64);
                push_all(&mut r, d2.as_slice());
            },
            RuntimeError::ClosePipeError(pipe_type) => {
                push_all(&mut r, "failed to close ".as_bytes());
                push_all(&mut r, pipe_type.as_slice());
                push_all(&mut r, " pipe write end".as_bytes());
            },
            RuntimeError::PipeCreationError(pipe_type) => {
                push_all(&mut r, "failed to create ".as_bytes());
                push_all(&mut r, pipe_type.as_slice());
                push_all(&mut r, " pipe".as_bytes());
            },
            RuntimeError::CloneProcessError => {
                push_all(&mut r, "failed to clone process".as_bytes());
            },
            RuntimeError::TrimError => {
                push_all(&mut r, "failed to get the first part of the host name.".as_bytes());
            },
            RuntimeError::MonitorFdError(event) => {
                push_all(&mut r, "failed during epoll_ctl system call(".as_bytes());
                push_all(&mut r, event.as_slice());
                push_all(&mut r, ").".as_bytes());
            },
            RuntimeError::EpollWaitError(error) => {
                push_all(&mut r, "failed during epoll_wait system call: ".as_bytes());
                push_all(&mut r, error.as_slice());
            },
            RuntimeError::ReadFdError(e) => {
                push_all(&mut r, "failed to read from file descriptor: ".as_bytes());
                push_all(&mut r, e.as_slice());
            },
            RuntimeError::CloseFdError(e) => {
                push_all(&mut r, "failed to close file descriptor: ".as_bytes());
                push_all(&mut r, e.as_slice());
            },
            RuntimeError::WriteStreamError => {
                push_all(&mut r, "stream write failed".as_bytes());
            },
            RuntimeError::WaitChildProcError(e) => {
                push_all(&mut r, "failed to wait for child process(waitpid): ".as_bytes());
                push_all(&mut r, e.as_slice());
            },
        }
        r
    }

    /// The process exit code that this error calls for: 2 where the user can
    /// mend the invocation, 3 for system failures.
    pub fn exit_code(&self) -> (r: u8)
        ensures
            r == 2 <==> (self is SshCommandLengthExceeded || self is TrimError),
            r == 2 || r == 3,
    {
        match self {
            RuntimeError::SshCommandLengthExceeded(_) => 2,
            RuntimeError::TrimError => 2,
            _ => 3,
        }
    }
}

} // verus!
