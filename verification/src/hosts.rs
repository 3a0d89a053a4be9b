//! Host records and the hosts-source format.
//!
//! A hosts source is a byte stream of LF-terminated lines.  Lines beginning
//! with a newline, a space, a NUL or `#` are skipped; any other line must end
//! in a newline and its trimmed hostname must stay under 255 characters.

use vstd::prelude::*;
use vstd::utf8::{is_continuation_byte, valid_utf8};
use crate::errors::ParseError;

verus! {

/// Maximum hostname character count; a hostname that reaches it is refused.
pub const HOST_NAME_MAX: u16 = 255;

/// Lifecycle of a host's child process; only ever moves forward.
#[derive(Clone, Copy, PartialEq, Eq, Structural, Debug)]
pub enum CpState {
    Ready,
    Running,
    Done,
}

/// Per-host child state: identifiers, descriptor slots, aggregated join-mode
/// output and lifecycle bookkeeping.  A descriptor slot holds -1 while unset
/// and -2 once closed after end of stream.
pub struct ChildProcess {
    pub pid: i32,
    pub stdout_fd: i32,
    pub stderr_fd: i32,
    pub stdio_fd: i32,
    pub output_buffer: Vec<u8>,
    pub output_index: i32,
    pub exit_code: i32,
    pub started_time: u128,
    pub finished_time: u128,
    pub state: CpState,
}

/// A child descriptor as it stands before any spawn.
pub open spec fn fresh_cp(cp: &ChildProcess) -> bool {
    &&& cp.pid == -1
    &&& cp.stdout_fd == -1
    &&& cp.stderr_fd == -1
    &&& cp.stdio_fd == -1
    &&& cp.output_buffer@ == Seq::<u8>::empty()
    &&& cp.output_index == -1
    &&& cp.exit_code == -1
    &&& cp.started_time == 0
    &&& cp.finished_time == 0
    &&& cp.state is Ready
}

impl ChildProcess {
    /// A descriptor with every field at its sentinel, in state Ready.
    pub fn new() -> (r: ChildProcess)
        ensures
            fresh_cp(&r),
    {
        ChildProcess {
            pid: -1,
            stdout_fd: -1,
            stderr_fd: -1,
            stdio_fd: -1,
            output_buffer: Vec::new(),
            output_index: -1,
            exit_code: -1,
            started_time: 0,
            finished_time: 0,
            state: CpState::Ready,
        }
    }
}

/// A hostname bound to the state of the child run against it.
pub struct Host {
    pub name: Vec<u8>,
    pub cp: ChildProcess,
}

impl Host {
    /// The display name of the host.
    pub fn hostname(&self) -> (r: &Vec<u8>)
        ensures
            r@ == self.name@,
    {
        &self.name
    }

    /// The exit code recorded for this host's child; -1 before Done.
    pub fn cp_exit_code(&self) -> (r: i32)
        ensures
            r == self.cp.exit_code,
    {
        self.cp.exit_code
    }

    /// The lifecycle state of this host's child.
    pub fn cp_status(&self) -> (r: CpState)
        ensures
            r == self.cp.state,
    {
        self.cp.state
    }

    /// The pid of this host's child; -1 before spawn, -2 after reaping.
    pub fn cp_pid(&self) -> (r: i32)
        ensures
            r == self.cp.pid,
    {
        self.cp.pid
    }
}

/// ASCII whitespace, as trimmed from the ends of a host line.
pub open spec fn is_ws(b: u8) -> bool {
    b == 9 || b == 10 || b == 11 || b == 12 || b == 13 || b == 32
}

/// `s` without leading whitespace.
pub open spec fn trim_front(s: Seq<u8>) -> Seq<u8>
    decreases s.len(),
{
    if s.len() > 0 && is_ws(s[0]) {
        trim_front(s.drop_first())
    } else {
        s
    }
}

/// `s` without trailing whitespace.
pub open spec fn trim_back(s: Seq<u8>) -> Seq<u8>
    decreases s.len(),
{
    if s.len() > 0 && is_ws(s.last()) {
        trim_back(s.drop_last())
    } else {
        s
    }
}

/// `s` without leading or trailing whitespace.
pub open spec fn trim_spec(s: Seq<u8>) -> Seq<u8> {
    trim_back(trim_front(s))
}

proof fn lemma_trim_front_skip(s: Seq<u8>, i: int)
    requires
        0 <= i <= s.len(),
        forall|j: int| 0 <= j < i ==> is_ws(s[j]),
        i == s.len() || !is_ws(s[i]),
    ensures
        trim_front(s) == s.skip(i),
    decreases i,
{
    if i == 0 {
        assert(s.skip(0) =~= s);
    } else {
        lemma_trim_front_skip(s.drop_first(), i - 1);
        assert(s.drop_first().skip(i - 1) =~= s.skip(i));
    }
}

proof fn lemma_trim_back_take(s: Seq<u8>, i: int)
    requires
        0 <= i <= s.len(),
        forall|j: int| i <= j < s.len() ==> is_ws(s[j]),
        i == 0 || !is_ws(s[i - 1]),
    ensures
        trim_back(s) == s.take(i),
    decreases s.len() - i,
{
    if i == s.len() {
        assert(s.take(i) =~= s);
    } else {
        assert(s.drop_last() =~= s.take(s.len() - 1));
        lemma_trim_back_take(s.take(s.len() - 1), i);
        assert(s.take(s.len() - 1).take(i) =~= s.take(i));
    }
}

/// Trim ASCII whitespace from both ends of `s`.
pub fn trim(s: &[u8]) -> (r: Vec<u8>)
    ensures
        r@ == trim_spec(s@),
{
    let mut lo: usize = 0;
    while lo < s.len() && (s[lo] == 9 || s[lo] == 10 || s[lo] == 11 || s[lo] == 12 || s[lo] == 13
        || s[lo] == 32)
        invariant
            lo <= s.len(),
            forall|j: int| 0 <= j < lo ==> is_ws(s@[j]),
        decreases s.len() - lo,
    {
        lo += 1;
    }
    proof {
        lemma_trim_front_skip(s@, lo as int);
    }
    let mut hi: usize = s.len();
    while hi > lo && (s[hi - 1] == 9 || s[hi - 1] == 10 || s[hi - 1] == 11 || s[hi - 1] == 12
        || s[hi - 1] == 13 || s[hi - 1] == 32)
        invariant
            lo <= hi <= s.len(),
            forall|j: int| 0 <= j < lo ==> is_ws(s@[j]),
            forall|j: int| hi <= j < s.len() ==> is_ws(s@[j]),
        decreases hi,
    {
        hi -= 1;
    }
    proof {
        let f = s@.skip(lo as int);
        if hi == lo {
            lemma_trim_back_take(f, 0);
        } else {
            lemma_trim_back_take(f, hi - lo);
        }
        assert(f.take(hi - lo) =~= s@.subrange(lo as int, hi as int));
    }
    let mut r: Vec<u8> = Vec::new();
    crate::bytes::push_all(&mut r, &s[lo..hi]);
    assert(r@ =~= s@.subrange(lo as int, hi as int));
    r
}

/// The character count of a UTF-8 byte sequence: one per non-continuation
/// byte.
pub open spec fn char_count(s: Seq<u8>) -> nat
    decreases s.len(),
{
    if s.len() == 0 {
        0
    } else {
        (char_count(s.drop_last()) + (if is_continuation_byte(s.last()) {
            0nat
        } else {
            1nat
        })) as nat
    }
}

/// Count the characters of a UTF-8 byte sequence.
pub fn count_chars(s: &[u8]) -> (r: usize)
    ensures
        r == char_count(s@),
{
    let mut r: usize = 0;
    let mut i: usize = 0;
    while i < s.len()
        invariant
            i <= s.len(),
            r <= i,
            r == char_count(s@.take(i as int)),
        decreases s.len() - i,
    {
        proof {
            assert(s@.take(i + 1).drop_last() =~= s@.take(i as int));
            assert(s@.take(i + 1).last() == s@[i as int]);
        }
        if s[i] < 128 || s[i] > 191 {
            r += 1;
        }
        i += 1;
    }
    assert(s@.take(s@.len() as int) =~= s@);
    r
}

/// Whether `str::from_utf8` accepts these bytes.
///
/// Relies on str::from_utf8 of std: it returns Ok exactly on byte sequences
/// that are valid UTF-8, as vstd's `valid_utf8` states that notion.
#[verifier::external_body]
fn check_utf8(s: &[u8]) -> (r: bool)
    ensures
        r == valid_utf8(s@),
{
    core::str::from_utf8(s).is_ok()
}

/// The index of the first occurrence of `b` in `d`, or `d.len()` if none.
pub open spec fn first_of(d: Seq<u8>, b: u8) -> nat
    decreases d.len(),
{
    if d.len() == 0 {
        0
    } else if d[0] == b {
        0
    } else {
        (1 + first_of(d.drop_first(), b)) as nat
    }
}

pub proof fn lemma_first_of(d: Seq<u8>, b: u8)
    ensures
        0 <= first_of(d, b) <= d.len(),
        forall|j: int| 0 <= j < first_of(d, b) ==> d[j] != b,
        first_of(d, b) < d.len() ==> d[first_of(d, b) as int] == b,
    decreases d.len(),
{
    if d.len() > 0 && d[0] != b {
        lemma_first_of(d.drop_first(), b);
        assert(forall|j: int| 1 <= j < first_of(d, b) ==> d[j] == d.drop_first()[j - 1]);
    }
}

/// The index of the first newline in `d`, or `d.len()` if none.
pub open spec fn first_nl(d: Seq<u8>) -> nat {
    first_of(d, 10)
}

pub proof fn lemma_first_nl(d: Seq<u8>)
    ensures
        0 <= first_nl(d) <= d.len(),
        forall|j: int| 0 <= j < first_nl(d) ==> d[j] != 10,
        first_nl(d) < d.len() ==> d[first_nl(d) as int] == 10,
{
    lemma_first_of(d, 10);
}

/// A line that the hosts parser skips: its first byte is a newline, a space,
/// a NUL or `#`.
pub open spec fn is_skip_line(line: Seq<u8>) -> bool {
    line.len() > 0 && (line[0] == 10 || line[0] == 32 || line[0] == 0 || line[0] == 35)
}

/// A line carrying its terminating newline.
pub open spec fn ends_nl(line: Seq<u8>) -> bool {
    line.len() > 0 && line.last() == 10
}

/// Outcome of parsing a hosts source: the trimmed hostnames in input order,
/// or the first offence with its one-based line number.
pub enum HostsOut {
    Hosts(Seq<Seq<u8>>),
    BadUtf8(int),
    TooLong(int, Seq<u8>),
    BadFormat(int, Seq<u8>),
}

/// Parse the hosts source `d`, whose first line has number `ln`.
pub open spec fn parse_hosts_spec(d: Seq<u8>, ln: int) -> HostsOut
    decreases d.len(),
{
    if d.len() == 0 {
        HostsOut::Hosts(seq![])
    } else {
        let k = first_nl(d);
        let line = if k >= d.len() {
            d
        } else {
            d.take(k + 1 as int)
        };
        let rest = if k >= d.len() {
            Seq::<u8>::empty()
        } else {
            d.skip(k + 1 as int)
        };
        if !valid_utf8(line) {
            HostsOut::BadUtf8(ln)
        } else if is_skip_line(line) {
            parse_hosts_spec(rest, ln + 1)
        } else if !ends_nl(line) {
            HostsOut::BadFormat(ln, line)
        } else if char_count(trim_spec(line)) >= HOST_NAME_MAX {
            HostsOut::TooLong(ln, line)
        } else {
            match parse_hosts_spec(rest, ln + 1) {
                HostsOut::Hosts(t) => HostsOut::Hosts(seq![trim_spec(line)] + t),
                e => e,
            }
        }
    }
}

/// Parse a hosts source into host records, one per non-skipped line.
///
/// The hostnames are the trimmed lines in input order; the first offending
/// line is reported instead with its line number: bytes that are not UTF-8,
/// a non-skipped line without its final newline, or a hostname whose
/// character count reaches 255.
pub fn parse_hosts(data: &[u8]) -> (r: Result<Vec<Host>, ParseError>)
    ensures
        ({
            let out = parse_hosts_spec(data@, 1);
            match r {
                Ok(hosts) => {
                    &&& out matches HostsOut::Hosts(names)
                    &&& hosts@.len() == names.len()
                    &&& forall|i: int|
                        0 <= i < hosts@.len() ==> hosts@[i].name@ == names[i] && fresh_cp(
                            &hosts@[i].cp,
                        )
                },
                Err(e) => match e {
                    ParseError::Utf8Error(n) => out matches HostsOut::BadUtf8(l) && n == l as u16,
                    ParseError::HostnameTooLong(n, m, line) => out matches HostsOut::TooLong(
                        l,
                        s,
                    ) && n == l as u16 && m == HOST_NAME_MAX && line@ == s,
                    ParseError::HostFileFormatError(n, line) => out matches HostsOut::BadFormat(
                        l,
                        s,
                    ) && n == l as u16 && line@ == s,
                    _ => false,
                },
            }
        }),
{
    let mut hosts: Vec<Host> = Vec::new();
    let mut pos: usize = 0;
    let mut line_no: u64 = 0;
    proof {
        assert(data@.skip(0) =~= data@);
        match parse_hosts_spec(data@, 1) {
            HostsOut::Hosts(t) => {
                assert(hosts@.map_values(|h: Host| h.name@) =~= Seq::<Seq<u8>>::empty());
                assert(Seq::<Seq<u8>>::empty() + t =~= t);
            },
            _ => {},
        }
    }
    while pos < data.len()
        invariant
            pos <= data.len(),
            line_no <= pos,
            forall|i: int| 0 <= i < hosts@.len() ==> fresh_cp(&hosts@[i].cp),
            ({
                let out = parse_hosts_spec(data@, 1);
                let sub = parse_hosts_spec(data@.skip(pos as int), line_no + 1);
                out == (match sub {
                    HostsOut::Hosts(t) => HostsOut::Hosts(
                        hosts@.map_values(|h: Host| h.name@) + t,
                    ),
                    HostsOut::BadUtf8(l) => HostsOut::BadUtf8(l),
                    HostsOut::TooLong(l, s) => HostsOut::TooLong(l, s),
                    HostsOut::BadFormat(l, s) => HostsOut::BadFormat(l, s),
                })
            }),
        decreases data.len() - pos,
    {
        let ghost rem = data@.skip(pos as int);
        let ghost hosts0 = hosts@;
        // find the end of the current line
        let mut end: usize = pos;
        while end < data.len() && data[end] != 10
            invariant
                pos <= end <= data.len(),
                forall|j: int| pos <= j < end ==> data@[j] != 10,
            decreases data.len() - end,
        {
            end += 1;
        }
        proof {
            lemma_first_nl(rem);
            // the scan found exactly the spec's first newline
            assert(forall|j: int| 0 <= j < end - pos ==> rem[j] != 10);
            if end < data.len() {
                assert(rem[end - pos] == 10);
                if first_nl(rem) < end - pos {
                    assert(rem[first_nl(rem) as int] != 10);
                }
                assert(first_nl(rem) == end - pos);
            } else {
                if first_nl(rem) < rem.len() {
                    assert(rem[first_nl(rem) as int] != 10);
                }
                assert(first_nl(rem) == rem.len());
            }
        }
        let line_end: usize = if end < data.len() {
            end + 1
        } else {
            end
        };
        let line: &[u8] = &data[pos..line_end];
        proof {
            if end < data.len() {
                assert(line@ =~= rem.take(first_nl(rem) + 1 as int));
            } else {
                assert(line@ =~= rem);
            }
        }
        line_no += 1;
        let ghost sub = parse_hosts_spec(rem, line_no as int);
        if !check_utf8(line) {
            assert(sub matches HostsOut::BadUtf8(l) && l == line_no);
            return Err(ParseError::Utf8Error(line_no as u16));
        }
        let first = line[0];
        if first == 10 || first == 32 || first == 0 || first == 35 {
            // comment or blank line: skipped
            assert(is_skip_line(line@));
        } else {
            assert(!is_skip_line(line@));
            if line[line_end - pos - 1] != 10 {
                assert(!ends_nl(line@));
                let mut owned: Vec<u8> = Vec::new();
                crate::bytes::push_all(&mut owned, line);
                assert(owned@ =~= line@);
                return Err(ParseError::HostFileFormatError(line_no as u16, owned));
            }
            assert(ends_nl(line@));
            let name = trim(line);
            let chars = count_chars(name.as_slice());
            if chars >= HOST_NAME_MAX as usize {
                let mut owned: Vec<u8> = Vec::new();
                crate::bytes::push_all(&mut owned, line);
                assert(owned@ =~= line@);
                return Err(ParseError::HostnameTooLong(line_no as u16, HOST_NAME_MAX, owned));
            }
            let cp = ChildProcess::new();
            hosts.push(Host { name, cp });
        }
        proof {
            let new_rem = data@.skip(line_end as int);
            let next = parse_hosts_spec(new_rem, line_no + 1);
            if end < data.len() {
                assert(new_rem =~= rem.skip(first_nl(rem) + 1 as int));
            } else {
                assert(new_rem =~= Seq::<u8>::empty());
            }
            if is_skip_line(line@) {
                assert(sub == next);
                assert(hosts@ == hosts0);
            } else {
                // a host was accepted: its name heads whatever the rest yields
                let nm = trim_spec(line@);
                assert(hosts@ == hosts0.push(hosts@.last()));
                assert(hosts@.last().name@ == nm);
                assert(hosts@.map_values(|h: Host| h.name@) =~= hosts0.map_values(
                    |h: Host| h.name@,
                ).push(nm));
                match next {
                    HostsOut::Hosts(t) => {
                        assert(sub == HostsOut::Hosts(seq![nm] + t));
                        assert(hosts0.map_values(|h: Host| h.name@) + (seq![nm] + t)
                            =~= hosts@.map_values(|h: Host| h.name@) + t);
                    },
                    _ => {
                        assert(sub == next);
                    },
                }
            }
        }
        pos = line_end;
    }
    proof {
        assert(data@.skip(data@.len() as int) =~= Seq::<u8>::empty());
        assert(hosts@.map_values(|h: Host| h.name@) + Seq::<Seq<u8>>::empty() =~= hosts@.map_values(
            |h: Host| h.name@,
        ));
    }
    Ok(hosts)
}

} // verus!
