//! Command-line configuration: flag scanning, validation, and the resulting
//! run parameters handed to the supervisor.

use vstd::prelude::*;
use vstd::string::*;
use crate::bytes::{all_digits, bytes_eq, dec_value, parse_dec_cap};
use crate::errors::ParseError;
use crate::hosts::{parse_hosts_spec, Host, HostsOut};

verus! {

/// Default concurrency ceiling.
pub const DEFAULT_MAX_SSH_JOBS: u64 = 50;

/// Default line-mode line cap.
pub const DEFAULT_MAX_LINE_LENGTH: u16 = 1024;

/// Default join-mode output cap.
pub const DEFAULT_MAX_OUTPUT_LENGTH: u16 = 8192;

/// The output discipline.
#[derive(Clone, Copy, PartialEq, Eq, Structural, Debug)]
pub enum ProgMode {
    Line,
    Group,
    Join,
}

/// The colour discipline after resolution against the terminal: `Auto` and
/// `On` colourise, `Off` does not.
#[derive(Clone, Copy, PartialEq, Eq, Structural, Debug)]
pub enum ColorChoice {
    Auto,
    On,
    Off,
}

/// Where the hosts come from.
pub enum ScriptInput {
    Stdin,
    HostsFile(Vec<u8>),
}

/// Options forwarded to the child command when no alternate executable is
/// set.
pub struct SshOpts {
    pub identity: Option<Vec<u8>>,
    pub login: Option<Vec<u8>>,
    pub quiet: bool,
    pub port: Option<u16>,
    pub options: Vec<Vec<u8>>,
}

impl Default for SshOpts {
    /// No identity, login, port or options; not quiet.
    fn default() -> (r: SshOpts)
        ensures
            r.identity is None,
            r.login is None,
            !r.quiet,
            r.port is None,
            r.options@.len() == 0,
    {
        SshOpts { identity: None, login: None, quiet: false, port: None, options: Vec::new() }
    }
}

/// The validated run configuration.
pub struct Config {
    pub anonymous: bool,
    pub color: ColorChoice,
    pub debug: bool,
    pub exit_codes: bool,
    pub file: ScriptInput,
    pub group: bool,
    pub join: bool,
    pub max_jobs: u64,
    pub dry_run: bool,
    pub silent: bool,
    pub trim: bool,
    pub exec_path: Option<Vec<u8>>,
    pub max_line_length: u16,
    pub max_output_length: u16,
    pub ssh_options: SshOpts,
    pub remote_command: Vec<Vec<u8>>,
    pub mode: ProgMode,
}

/// The state accumulated while scanning the flags, as mathematical values.
pub struct ScanSt {
    pub anonymous: bool,
    pub debug: bool,
    pub exit_codes: bool,
    pub group: bool,
    pub join: bool,
    pub dry_run: bool,
    pub quiet: bool,
    pub silent: bool,
    pub trim: bool,
    pub max_jobs: nat,
    pub max_line_length: nat,
    pub max_output_length: nat,
    pub port: Option<u16>,
    pub color: Seq<u8>,
    pub login: Option<Seq<u8>>,
    pub identity: Option<Seq<u8>>,
    pub stdin_hosts: bool,
    pub hosts_file: Seq<u8>,
    pub options: Seq<Seq<u8>>,
    pub exec_path: Option<Seq<u8>>,
    pub help: bool,
    pub unknown: bool,
}

/// How a flag scan ends: at the first non-flag argument, at `-v`, or at an
/// unusable port value.
pub enum ScanOut {
    St(ScanSt, int),
    Version,
    PortErr,
}

/// The scan state before any flag is read.
pub open spec fn init_scan() -> ScanSt {
    ScanSt {
        anonymous: false,
        debug: false,
        exit_codes: false,
        group: false,
        join: false,
        dry_run: false,
        quiet: false,
        silent: false,
        trim: false,
        max_jobs: DEFAULT_MAX_SSH_JOBS as nat,
        max_line_length: DEFAULT_MAX_LINE_LENGTH as nat,
        max_output_length: DEFAULT_MAX_OUTPUT_LENGTH as nat,
        port: None,
        color: "auto".spec_bytes(),
        login: None,
        identity: None,
        stdin_hosts: true,
        hosts_file: Seq::empty(),
        options: Seq::empty(),
        exec_path: None,
        help: false,
        unknown: false,
    }
}

/// A numeric option value: its decimal value when it parses and fits below
/// `cap`, zero (the invalid sentinel) otherwise.
pub open spec fn num_or_zero(s: Seq<u8>, cap: nat) -> nat {
    if s.len() > 0 && all_digits(s) && dec_value(s) <= cap {
        dec_value(s)
    } else {
        0
    }
}

/// Which flag the argument `a` is, as a small code in the order of the
/// option table; the last code stands for an unknown option.
#[verifier::opaque]
pub open spec fn opt_code(a: Seq<u8>) -> int {
    if a == "-a".spec_bytes() || a == "--anonymous".spec_bytes() {
        0
    } else if a == "-d".spec_bytes() || a == "--debug".spec_bytes() {
        1
    } else if a == "-e".spec_bytes() || a == "--exit-codes".spec_bytes() {
        2
    } else if a == "-g".spec_bytes() || a == "--group".spec_bytes() {
        3
    } else if a == "-j".spec_bytes() || a == "--join".spec_bytes() {
        4
    } else if a == "-n".spec_bytes() || a == "--dry-run".spec_bytes() {
        5
    } else if a == "-q".spec_bytes() || a == "--quiet".spec_bytes() {
        6
    } else if a == "-s".spec_bytes() || a == "--silent".spec_bytes() {
        7
    } else if a == "-t".spec_bytes() || a == "--trim".spec_bytes() {
        8
    } else if a == "-m".spec_bytes() || a == "--max-jobs".spec_bytes() {
        9
    } else if a == "--max-line-length".spec_bytes() {
        10
    } else if a == "--max-output-length".spec_bytes() {
        11
    } else if a == "-p".spec_bytes() || a == "--port".spec_bytes() {
        12
    } else if a == "-c".spec_bytes() || a == "--color".spec_bytes() {
        13
    } else if a == "-l".spec_bytes() || a == "--login".spec_bytes() {
        14
    } else if a == "-i".spec_bytes() || a == "--identity".spec_bytes() {
        15
    } else if a == "-f".spec_bytes() || a == "--file".spec_bytes() {
        16
    } else if a == "-o".spec_bytes() || a == "--option".spec_bytes() {
        17
    } else if a == "-x".spec_bytes() || a == "--exec".spec_bytes() {
        18
    } else if a == "-v".spec_bytes() || a == "--version".spec_bytes() {
        19
    } else if a == "-h".spec_bytes() || a == "--help".spec_bytes() {
        20
    } else {
        21
    }
}

/// Which flag the argument is; the executable twin of [`opt_code`].
fn classify(a: &Vec<u8>) -> (k: u8)
    ensures
        k as int == opt_code(a@),
        k <= 21,
{
    proof {
        reveal(opt_code);
    }
    if arg_is(a, "-a", "--anonymous") {
        0
    } else if arg_is(a, "-d", "--debug") {
        1
    } else if arg_is(a, "-e", "--exit-codes") {
        2
    } else if arg_is(a, "-g", "--group") {
        3
    } else if arg_is(a, "-j", "--join") {
        4
    } else if arg_is(a, "-n", "--dry-run") {
        5
    } else if arg_is(a, "-q", "--quiet") {
        6
    } else if arg_is(a, "-s", "--silent") {
        7
    } else if arg_is(a, "-t", "--trim") {
        8
    } else if arg_is(a, "-m", "--max-jobs") {
        9
    } else if bytes_eq(a.as_slice(), "--max-line-length".as_bytes()) {
        10
    } else if bytes_eq(a.as_slice(), "--max-output-length".as_bytes()) {
        11
    } else if arg_is(a, "-p", "--port") {
        12
    } else if arg_is(a, "-c", "--color") {
        13
    } else if arg_is(a, "-l", "--login") {
        14
    } else if arg_is(a, "-i", "--identity") {
        15
    } else if arg_is(a, "-f", "--file") {
        16
    } else if arg_is(a, "-o", "--option") {
        17
    } else if arg_is(a, "-x", "--exec") {
        18
    } else if arg_is(a, "-v", "--version") {
        19
    } else if arg_is(a, "-h", "--help") {
        20
    } else {
        21
    }
}

/// One step of the flag scan over `args` from position `i`.
#[verifier::opaque]
pub open spec fn scan(args: Seq<Vec<u8>>, i: int, st: ScanSt) -> ScanOut
    decreases args.len() - i,
{
    if i < 0 || i >= args.len() {
        ScanOut::St(st, args.len() as int)
    } else if !(args[i]@.len() > 0 && args[i]@[0] == 45) {
        ScanOut::St(st, i)
    } else {
        let k = opt_code(args[i]@);
        let has_val = i + 1 < args.len();
        let v = if has_val {
            args[i + 1]@
        } else {
            Seq::<u8>::empty()
        };
        let ni = if has_val {
            i + 2
        } else {
            i + 1
        };
        if k == 0 {
            scan(args, i + 1, ScanSt { anonymous: true, ..st })
        } else if k == 1 {
            scan(args, i + 1, ScanSt { debug: true, ..st })
        } else if k == 2 {
            scan(args, i + 1, ScanSt { exit_codes: true, ..st })
        } else if k == 3 {
            scan(args, i + 1, ScanSt { group: true, ..st })
        } else if k == 4 {
            scan(args, i + 1, ScanSt { join: true, ..st })
        } else if k == 5 {
            scan(args, i + 1, ScanSt { dry_run: true, ..st })
        } else if k == 6 {
            scan(args, i + 1, ScanSt { quiet: true, ..st })
        } else if k == 7 {
            scan(args, i + 1, ScanSt { silent: true, ..st })
        } else if k == 8 {
            scan(args, i + 1, ScanSt { trim: true, ..st })
        } else if k == 9 {
            scan(args, ni, ScanSt { max_jobs: num_or_zero(v, 0xffff_ffff_ffff_ffff), ..st })
        } else if k == 10 {
            scan(args, ni, ScanSt { max_line_length: num_or_zero(v, 0xffff), ..st })
        } else if k == 11 {
            scan(args, ni, ScanSt { max_output_length: num_or_zero(v, 0xffff), ..st })
        } else if k == 12 {
            if has_val && v.len() > 0 && all_digits(v) && dec_value(v) <= 0xffff {
                scan(args, ni, ScanSt { port: Some(dec_value(v) as u16), ..st })
            } else {
                ScanOut::PortErr
            }
        } else if k == 13 {
            scan(args, ni, ScanSt { color: v, ..st })
        } else if k == 14 {
            scan(
                args,
                ni,
                ScanSt {
                    login: if has_val {
                        Some(v)
                    } else {
                        None
                    },
                    ..st
                },
            )
        } else if k == 15 {
            scan(args, ni, ScanSt { identity: Some(v), ..st })
        } else if k == 16 {
            if has_val && v == "-".spec_bytes() {
                scan(args, ni, ScanSt { stdin_hosts: true, hosts_file: Seq::empty(), ..st })
            } else {
                scan(args, ni, ScanSt { stdin_hosts: false, hosts_file: v, ..st })
            }
        } else if k == 17 {
            scan(args, ni, ScanSt { options: st.options.push(v), ..st })
        } else if k == 18 {
            scan(args, ni, ScanSt { exec_path: Some(v), ..st })
        } else if k == 19 {
            ScanOut::Version
        } else if k == 20 {
            scan(args, i + 1, ScanSt { help: true, ..st })
        } else {
            scan(args, i + 1, ScanSt { unknown: true, ..st })
        }
    }
}

/// A scanned colour argument is one of the three accepted words.
pub open spec fn color_word_ok(c: Seq<u8>) -> bool {
    c == "auto".spec_bytes() || c == "on".spec_bytes() || c == "off".spec_bytes()
}

/// The colour discipline that a valid colour word resolves to against the
/// terminal.
pub open spec fn resolve_color(c: Seq<u8>, tty: bool) -> ColorChoice {
    if c == "auto".spec_bytes() && tty {
        ColorChoice::Auto
    } else if c == "on".spec_bytes() && tty {
        ColorChoice::On
    } else {
        ColorChoice::Off
    }
}

/// The outcome of reading the whole command line.
pub enum NewOut {
    Version,
    PortErr,
    ArgCount,
    AnonJoin,
    GroupJoin,
    JoinSilent,
    BadMaxJobs,
    BadMaxLine,
    BadMaxOut,
    BadColor(Seq<u8>),
    Help,
    Unknown,
    Conf(ScanSt, ProgMode, ColorChoice, int),
}

/// Read and validate the command line: scan the flags, then check the
/// mutual exclusions, the numeric ranges, the colour word, and that a remote
/// command is present unless an alternate executable was named.
pub open spec fn new_spec(args: Seq<Vec<u8>>, tty: bool) -> NewOut {
    match scan(args, 0, init_scan()) {
        ScanOut::Version => NewOut::Version,
        ScanOut::PortErr => NewOut::PortErr,
        ScanOut::St(st, ri) => {
            if args.len() < 1 {
                NewOut::ArgCount
            } else if st.anonymous && st.join {
                NewOut::AnonJoin
            } else if st.group && st.join {
                NewOut::GroupJoin
            } else if st.join && st.silent {
                NewOut::JoinSilent
            } else if st.max_jobs == 0 {
                NewOut::BadMaxJobs
            } else if st.max_line_length == 0 {
                NewOut::BadMaxLine
            } else if st.max_output_length == 0 {
                NewOut::BadMaxOut
            } else if !color_word_ok(st.color) {
                NewOut::BadColor(st.color)
            } else if st.help {
                NewOut::Help
            } else if st.unknown {
                NewOut::Unknown
            } else if ri >= args.len() && st.exec_path is None {
                NewOut::ArgCount
            } else {
                NewOut::Conf(
                    st,
                    if st.join {
                        ProgMode::Join
                    } else if st.group {
                        ProgMode::Group
                    } else {
                        ProgMode::Line
                    },
                    resolve_color(st.color, tty),
                    ri,
                )
            }
        },
    }
}

/// The view of an optional byte vector.
pub open spec fn opt_view(o: &Option<Vec<u8>>) -> Option<Seq<u8>> {
    match o {
        Some(v) => Some(v@),
        None => None,
    }
}

/// The configuration `c` holds exactly what the scan found.
pub open spec fn config_matches(
    c: &Config,
    st: ScanSt,
    mode: ProgMode,
    cc: ColorChoice,
    ri: int,
    args: Seq<Vec<u8>>,
) -> bool {
    &&& c.anonymous == st.anonymous
    &&& c.debug == st.debug
    &&& c.exit_codes == st.exit_codes
    &&& c.group == st.group
    &&& c.join == st.join
    &&& c.dry_run == st.dry_run
    &&& c.silent == st.silent
    &&& c.trim == st.trim
    &&& c.max_jobs == st.max_jobs
    &&& c.max_line_length == st.max_line_length
    &&& c.max_output_length == st.max_output_length
    &&& c.ssh_options.quiet == st.quiet
    &&& c.ssh_options.port == st.port
    &&& opt_view(&c.ssh_options.login) == st.login
    &&& opt_view(&c.ssh_options.identity) == st.identity
    &&& c.ssh_options.options@.map_values(|v: Vec<u8>| v@) == st.options
    &&& opt_view(&c.exec_path) == st.exec_path
    &&& (c.file matches ScriptInput::Stdin <==> st.stdin_hosts)
    &&& (c.file matches ScriptInput::HostsFile(f) ==> f@ == st.hosts_file)
    &&& c.mode == mode
    &&& c.color == cc
    &&& 0 <= ri <= args.len()
    &&& c.remote_command@.len() == args.len() - ri
    &&& forall|j: int|
        0 <= j < c.remote_command@.len() ==> c.remote_command@[j]@ == args[ri + j]@
}


/// One unfolding of [`scan`] at a flag argument, spelled out per option code.
proof fn lemma_scan_step(args: Seq<Vec<u8>>, i: int, st: ScanSt)
    requires
        0 <= i < args.len(),
        args[i]@.len() > 0,
        args[i]@[0] == 45,
    ensures
        ({
            let k = opt_code(args[i]@);
            let has_val = i + 1 < args.len();
            let v = if has_val {
                args[i + 1]@
            } else {
                Seq::<u8>::empty()
            };
            let ni = if has_val {
                i + 2
            } else {
                i + 1
            };
            &&& (k == 0 ==> scan(args, i, st) == scan(args, i + 1, ScanSt { anonymous: true, ..st }))
            &&& (k == 1 ==> scan(args, i, st) == scan(args, i + 1, ScanSt { debug: true, ..st }))
            &&& (k == 2 ==> scan(args, i, st) == scan(args, i + 1, ScanSt { exit_codes: true, ..st }))
            &&& (k == 3 ==> scan(args, i, st) == scan(args, i + 1, ScanSt { group: true, ..st }))
            &&& (k == 4 ==> scan(args, i, st) == scan(args, i + 1, ScanSt { join: true, ..st }))
            &&& (k == 5 ==> scan(args, i, st) == scan(args, i + 1, ScanSt { dry_run: true, ..st }))
            &&& (k == 6 ==> scan(args, i, st) == scan(args, i + 1, ScanSt { quiet: true, ..st }))
            &&& (k == 7 ==> scan(args, i, st) == scan(args, i + 1, ScanSt { silent: true, ..st }))
            &&& (k == 8 ==> scan(args, i, st) == scan(args, i + 1, ScanSt { trim: true, ..st }))
            &&& (k == 9 ==> scan(args, i, st) == scan(
                args,
                ni,
                ScanSt { max_jobs: num_or_zero(v, 0xffff_ffff_ffff_ffff), ..st },
            ))
            &&& (k == 10 ==> scan(args, i, st) == scan(
                args,
                ni,
                ScanSt { max_line_length: num_or_zero(v, 0xffff), ..st },
            ))
            &&& (k == 11 ==> scan(args, i, st) == scan(
                args,
                ni,
                ScanSt { max_output_length: num_or_zero(v, 0xffff), ..st },
            ))
            &&& (k == 12 && (has_val && v.len() > 0 && all_digits(v) && dec_value(v) <= 0xffff)
                ==> scan(args, i, st) == scan(
                args,
                ni,
                ScanSt { port: Some(dec_value(v) as u16), ..st },
            ))
            &&& (k == 12 && !(has_val && v.len() > 0 && all_digits(v) && dec_value(v) <= 0xffff)
                ==> scan(args, i, st) == ScanOut::PortErr)
            &&& (k == 13 ==> scan(args, i, st) == scan(args, ni, ScanSt { color: v, ..st }))
            &&& (k == 14 ==> scan(args, i, st) == scan(
                args,
                ni,
                ScanSt {
                    login: if has_val {
                        Some(v)
                    } else {
                        None
                    },
                    ..st
                },
            ))
            &&& (k == 15 ==> scan(args, i, st) == scan(args, ni, ScanSt { identity: Some(v), ..st }))
            &&& (k == 16 && (has_val && v == "-".spec_bytes()) ==> scan(args, i, st) == scan(
                args,
                ni,
                ScanSt { stdin_hosts: true, hosts_file: Seq::empty(), ..st },
            ))
            &&& (k == 16 && !(has_val && v == "-".spec_bytes()) ==> scan(args, i, st) == scan(
                args,
                ni,
                ScanSt { stdin_hosts: false, hosts_file: v, ..st },
            ))
            &&& (k == 17 ==> scan(args, i, st) == scan(
                args,
                ni,
                ScanSt { options: st.options.push(v), ..st },
            ))
            &&& (k == 18 ==> scan(args, i, st) == scan(args, ni, ScanSt { exec_path: Some(v), ..st }))
            &&& (k == 19 ==> scan(args, i, st) == ScanOut::Version)
            &&& (k == 20 ==> scan(args, i, st) == scan(args, i + 1, ScanSt { help: true, ..st }))
            &&& (k == 21 ==> scan(args, i, st) == scan(args, i + 1, ScanSt { unknown: true, ..st }))
        }),
{
    reveal(scan);
}

/// [`scan`] stops at the end of the arguments or at a non-flag argument.
proof fn lemma_scan_stop(args: Seq<Vec<u8>>, i: int, st: ScanSt)
    requires
        0 <= i,
        i >= args.len() || !(args[i]@.len() > 0 && args[i]@[0] == 45),
    ensures
        scan(args, i, st) == (if i >= args.len() {
            ScanOut::St(st, args.len() as int)
        } else {
            ScanOut::St(st, i)
        }),
{
    reveal(scan);
}

impl Default for Config {
    /// Line mode, colour auto, fifty jobs, hosts from stdin, defaults for the
    /// caps, no flags set.
    fn default() -> (r: Config)
        ensures
            !r.anonymous && !r.debug && !r.exit_codes && !r.group && !r.join && !r.dry_run
                && !r.silent && !r.trim,
            r.color is Auto,
            r.file is Stdin,
            r.max_jobs == DEFAULT_MAX_SSH_JOBS,
            r.max_line_length == DEFAULT_MAX_LINE_LENGTH,
            r.max_output_length == DEFAULT_MAX_OUTPUT_LENGTH,
            r.exec_path is None,
            r.ssh_options.identity is None && r.ssh_options.login is None && !r.ssh_options.quiet
                && r.ssh_options.port is None && r.ssh_options.options@.len() == 0,
            r.remote_command@.len() == 0,
            r.mode is Line,
    {
        Config {
            anonymous: false,
            color: ColorChoice::Auto,
            debug: false,
            exit_codes: false,
            file: ScriptInput::Stdin,
            group: false,
            join: false,
            max_jobs: DEFAULT_MAX_SSH_JOBS,
            dry_run: false,
            silent: false,
            trim: false,
            exec_path: None,
            max_line_length: DEFAULT_MAX_LINE_LENGTH,
            max_output_length: DEFAULT_MAX_OUTPUT_LENGTH,
            ssh_options: SshOpts {
                identity: None,
                login: None,
                quiet: false,
                port: None,
                options: Vec::new(),
            },
            remote_command: Vec::new(),
            mode: ProgMode::Line,
        }
    }
}

/// Apply a flag that takes no value (`-a` through `-t`, `-h`, and an unknown
/// option): one step of [`scan`].
fn apply_simple_flag(
    k: u8,
    args: &Vec<Vec<u8>>,
    cnt: usize,
    c: &mut Config,
    help_opt: &mut bool,
    unknown_opt: &mut bool,
    Ghost(color): Ghost<Seq<u8>>,
) -> (ncnt: usize)
    requires
        cnt < args@.len(),
        args@[cnt as int]@.len() > 0,
        args@[cnt as int]@[0] == 45,
        k as int == opt_code(args@[cnt as int]@),
        k <= 21,
        k <= 8 || k >= 20,
    ensures
        cnt < ncnt <= args@.len(),
        scan(args@, cnt as int, st_of(old(c), color, *old(help_opt), *old(unknown_opt))) == scan(
            args@,
            ncnt as int,
            st_of(final(c), color, *final(help_opt), *final(unknown_opt)),
        ),
{
    let ghost stc = st_of(&*c, color, *help_opt, *unknown_opt);
    let ghost stc_i = cnt as int;
    let n = args.len();
    proof {
        lemma_scan_step(args@, stc_i, stc);
    }
    if k == 0 {
        c.anonymous = true;
    } else if k == 1 {
        c.debug = true;
    } else if k == 2 {
        c.exit_codes = true;
    } else if k == 3 {
        c.group = true;
    } else if k == 4 {
        c.join = true;
    } else if k == 5 {
        c.dry_run = true;
    } else if k == 6 {
        c.ssh_options.quiet = true;
    } else if k == 7 {
        c.silent = true;
    } else if k == 8 {
        c.trim = true;
    } else if k == 20 {
        *help_opt = true;
    } else {
        *unknown_opt = true;
    }
    proof {
        reveal(st_of);
        assert(scan(args@, stc_i, stc) == scan(
            args@,
            cnt + 1,
            st_of(&*c, color, *help_opt, *unknown_opt),
        ));
    }
    cnt + 1
}

/// Apply a numeric flag (`-m` and the two caps): one step of [`scan`].
#[verifier::rlimit(60)]
fn apply_num_flag(
    k: u8,
    args: &Vec<Vec<u8>>,
    cnt: usize,
    c: &mut Config,
    Ghost(color): Ghost<Seq<u8>>,
    Ghost(help): Ghost<bool>,
    Ghost(unknown): Ghost<bool>,
) -> (ncnt: usize)
    requires
        cnt < args@.len(),
        args@[cnt as int]@.len() > 0,
        args@[cnt as int]@[0] == 45,
        k as int == opt_code(args@[cnt as int]@),
        k == 9 || k == 10 || k == 11,
    ensures
        cnt < ncnt <= args@.len(),
        scan(args@, cnt as int, st_of(old(c), color, help, unknown)) == scan(
            args@,
            ncnt as int,
            st_of(final(c), color, help, unknown),
        ),
{
    let ghost stc = st_of(&*c, color, help, unknown);
    let ghost stc_i = cnt as int;
    proof {
        lemma_scan_step(args@, stc_i, stc);
    }
    let n = args.len();
    let has_val = cnt < n - 1;
    let ni: usize = if has_val {
        cnt + 2
    } else {
        cnt + 1
    };
    let mut v: Vec<u8> = Vec::new();
    if has_val {
        crate::bytes::push_all(&mut v, args[cnt + 1].as_slice());
        assert(v@ =~= args@[cnt + 1]@);
    }
    if k == 9 {
        match parse_dec_cap(v.as_slice(), 0xffff_ffff_ffff_ffff) {
            Some(x) => c.max_jobs = x,
            None => c.max_jobs = 0,
        }
    } else if k == 10 {
        match parse_dec_cap(v.as_slice(), 0xffff) {
            Some(x) => c.max_line_length = x as u16,
            None => c.max_line_length = 0,
        }
    } else {
        match parse_dec_cap(v.as_slice(), 0xffff) {
            Some(x) => c.max_output_length = x as u16,
            None => c.max_output_length = 0,
        }
    }
    proof {
        reveal(st_of);
        assert(scan(args@, stc_i, stc) == scan(args@, ni as int, st_of(&*c, color, help, unknown)));
    }
    ni
}

/// Apply a flag whose value is kept as text (`-c`, `-l`, `-i`, `-o`, `-x`):
/// one step of [`scan`].
#[verifier::rlimit(100)]
fn apply_str_flag(
    k: u8,
    args: &Vec<Vec<u8>>,
    cnt: usize,
    c: &mut Config,
    color_arg: &mut Vec<u8>,
    Ghost(help): Ghost<bool>,
    Ghost(unknown): Ghost<bool>,
) -> (ncnt: usize)
    requires
        cnt < args@.len(),
        args@[cnt as int]@.len() > 0,
        args@[cnt as int]@[0] == 45,
        k as int == opt_code(args@[cnt as int]@),
        k == 13 || k == 14 || k == 15 || k == 17 || k == 18,
    ensures
        cnt < ncnt <= args@.len(),
        scan(args@, cnt as int, st_of(old(c), old(color_arg)@, help, unknown)) == scan(
            args@,
            ncnt as int,
            st_of(final(c), final(color_arg)@, help, unknown),
        ),
{
    let ghost stc = st_of(&*c, color_arg@, help, unknown);
    let ghost stc_i = cnt as int;
    proof {
        lemma_scan_step(args@, stc_i, stc);
    }
    let n = args.len();
    let has_val = cnt < n - 1;
    let ni: usize = if has_val {
        cnt + 2
    } else {
        cnt + 1
    };
    let mut v: Vec<u8> = Vec::new();
    if has_val {
        crate::bytes::push_all(&mut v, args[cnt + 1].as_slice());
        assert(v@ =~= args@[cnt + 1]@);
    }
    if k == 13 {
        *color_arg = v;
    } else if k == 14 {
        if has_val {
            c.ssh_options.login = Some(v);
        } else {
            c.ssh_options.login = None;
        }
    } else if k == 15 {
        c.ssh_options.identity = Some(v);
    } else if k == 17 {
        let ghost vv = v@;
        let ghost opts0 = c.ssh_options.options@;
        c.ssh_options.options.push(v);
        proof {
            assert(c.ssh_options.options@.map_values(|w: Vec<u8>| w@) =~= opts0.map_values(
                |w: Vec<u8>| w@,
            ).push(vv));
        }
    } else {
        c.exec_path = Some(v);
    }
    proof {
        reveal(st_of);
        assert(scan(args@, stc_i, stc) == scan(
            args@,
            ni as int,
            st_of(&*c, color_arg@, help, unknown),
        ));
    }
    ni
}

/// Apply `-p`, `-f` or `-v`: one step of [`scan`] that can end the scan.
#[verifier::rlimit(60)]
fn apply_special_flag(
    k: u8,
    args: &Vec<Vec<u8>>,
    cnt: usize,
    c: &mut Config,
    Ghost(color): Ghost<Seq<u8>>,
    Ghost(help): Ghost<bool>,
    Ghost(unknown): Ghost<bool>,
) -> (res: Result<usize, ParseError>)
    requires
        cnt < args@.len(),
        args@[cnt as int]@.len() > 0,
        args@[cnt as int]@[0] == 45,
        k as int == opt_code(args@[cnt as int]@),
        k <= 21,
        k == 12 || k == 16 || k == 19,
    ensures
        ({
            let st_in = st_of(old(c), color, help, unknown);
            let st_out = st_of(final(c), color, help, unknown);
            match res {
                Ok(ncnt) => cnt < ncnt <= args@.len() && scan(args@, cnt as int, st_in) == scan(
                    args@,
                    ncnt as int,
                    st_out,
                ),
                Err(e) => (e is VersionRequested && scan(args@, cnt as int, st_in)
                    == ScanOut::Version) || (e is ParsePortError && scan(args@, cnt as int, st_in)
                    == ScanOut::PortErr),
            }
        }),
{
    let ghost stc = st_of(&*c, color, help, unknown);
    let ghost stc_i = cnt as int;
    proof {
        lemma_scan_step(args@, stc_i, stc);
    }
    let n = args.len();
    let has_val = cnt < n - 1;
    let ni: usize = if has_val {
        cnt + 2
    } else {
        cnt + 1
    };
    if k == 19 {
        return Err(ParseError::VersionRequested);
    }
    if k == 12 {
        if !has_val {
            return Err(ParseError::ParsePortError);
        }
        match parse_dec_cap(args[cnt + 1].as_slice(), 0xffff) {
            Some(x) => {
                c.ssh_options.port = Some(x as u16);
                proof {
                    reveal(st_of);
                    assert(scan(args@, stc_i, stc) == scan(
                        args@,
                        ni as int,
                        st_of(&*c, color, help, unknown),
                    ));
                }
                return Ok(ni);
            },
            None => {
                return Err(ParseError::ParsePortError);
            },
        }
    }
    // the hosts source
    if has_val && bytes_eq(args[cnt + 1].as_slice(), "-".as_bytes()) {
        c.file = ScriptInput::Stdin;
    } else {
        let mut v: Vec<u8> = Vec::new();
        if has_val {
            crate::bytes::push_all(&mut v, args[cnt + 1].as_slice());
            assert(v@ =~= args@[cnt + 1]@);
        }
        c.file = ScriptInput::HostsFile(v);
    }
    proof {
        reveal(st_of);
        assert(scan(args@, stc_i, stc) == scan(args@, ni as int, st_of(&*c, color, help, unknown)));
    }
    Ok(ni)
}

/// `a` equals the short or the long spelling of a flag.
fn arg_is(a: &Vec<u8>, short: &str, long: &str) -> (r: bool)
    ensures
        r == (a@ == short.spec_bytes() || a@ == long.spec_bytes()),
{
    bytes_eq(a.as_slice(), short.as_bytes()) || bytes_eq(a.as_slice(), long.as_bytes())
}

impl Config {
    /// Whether debug diagnostics were requested.
    pub fn debugging(&self) -> (r: bool)
        ensures
            r == self.debug,
    {
        self.debug
    }

    /// The resolved colour discipline as its word.
    pub fn color(&self) -> (r: &'static str)
        ensures
            self.color is Auto ==> r@ == "auto"@,
            self.color is On ==> r@ == "on"@,
            self.color is Off ==> r@ == "off"@,
    {
        match self.color {
            ColorChoice::Auto => "auto",
            ColorChoice::On => "on",
            ColorChoice::Off => "off",
        }
    }

    /// Whether output is colourised.
    pub fn colorize(&self) -> (r: bool)
        ensures
            r == (self.color is Auto || self.color is On),
    {
        match self.color {
            ColorChoice::Auto => true,
            ColorChoice::On => true,
            ColorChoice::Off => false,
        }
    }

    /// The output discipline as its name.
    pub fn mode(&self) -> (r: &'static str)
        ensures
            self.mode is Line ==> r@ == "LINE"@,
            self.mode is Group ==> r@ == "GROUP"@,
            self.mode is Join ==> r@ == "JOIN"@,
    {
        match self.mode {
            ProgMode::Line => "LINE",
            ProgMode::Group => "GROUP",
            ProgMode::Join => "JOIN",
        }
    }

    /// Whether the run is a dry run.
    pub fn dry_run(&self) -> (r: bool)
        ensures
            r == self.dry_run,
    {
        self.dry_run
    }

    /// Where the hosts come from.
    pub fn hosts_source(&self) -> (r: &ScriptInput)
        ensures
            r == &self.file,
    {
        &self.file
    }

    /// Parse a hosts source read on the caller's side; see
    /// [`crate::hosts::parse_hosts`].
    pub fn parse_hosts(&self, data: &[u8]) -> (r: Result<Vec<Host>, ParseError>)
        ensures
            ({
                let out = parse_hosts_spec(data@, 1);
                match r {
                    Ok(hosts) => {
                        &&& out matches HostsOut::Hosts(names)
                        &&& hosts@.len() == names.len()
                        &&& forall|i: int|
                            0 <= i < hosts@.len() ==> hosts@[i].name@ == names[i]
                                && crate::hosts::fresh_cp(&hosts@[i].cp)
                    },
                    Err(e) => match e {
                        ParseError::Utf8Error(n) => out matches HostsOut::BadUtf8(l) && n == l
                            as u16,
                        ParseError::HostnameTooLong(n, m, line) => out matches HostsOut::TooLong(
                            l,
                            s,
                        ) && n == l as u16 && m == crate::hosts::HOST_NAME_MAX && line@ == s,
                        ParseError::HostFileFormatError(n, line) => out
                            matches HostsOut::BadFormat(l, s) && n == l as u16 && line@ == s,
                        _ => false,
                    },
                }
            }),
    {
        crate::hosts::parse_hosts(data)
    }

    /// Read and validate a command line.  The scan, the validation order and
    /// the produced configuration are exactly [`new_spec`]; `stdout_is_tty`
    /// tells the colour resolution whether standard output is a terminal.
    #[verifier::rlimit(100)]
    pub fn new(args: &Vec<Vec<u8>>, stdout_is_tty: bool) -> (r: Result<Config, ParseError>)
        ensures
            ({
                let out = new_spec(args@, stdout_is_tty);
                match r {
                    Ok(c) => out matches NewOut::Conf(st, mode, cc, ri) && config_matches(
                        &c,
                        st,
                        mode,
                        cc,
                        ri,
                        args@,
                    ),
                    Err(e) => match e {
                        ParseError::VersionRequested => out is Version,
                        ParseError::ParsePortError => out is PortErr,
                        ParseError::ArgCount => out is ArgCount,
                        ParseError::AnonJoinConflict => out is AnonJoin,
                        ParseError::GroupJoinConflict => out is GroupJoin,
                        ParseError::JoinSilentConflict => out is JoinSilent,
                        ParseError::InvalidMaxJobs => out is BadMaxJobs,
                        ParseError::MaxLineLength => out is BadMaxLine,
                        ParseError::MaxOutputLength => out is BadMaxOut,
                        ParseError::InvalidColor(c) => out matches NewOut::BadColor(s) && c@ == s,
                        ParseError::HelpRequested => out is Help,
                        ParseError::UnknownOption => out is Unknown,
                        _ => false,
                    },
                }
            }),
    {
        let mut c = Config::default();
        let mut color_arg: Vec<u8> = Vec::new();
        crate::bytes::push_all(&mut color_arg, "auto".as_bytes());
        let mut help_opt = false;
        let mut unknown_opt = false;
        let mut cnt: usize = 0;
        let ghost st0 = init_scan();
        proof {
            reveal(st_of);
            assert(color_arg@ =~= "auto".spec_bytes());
            assert(c.ssh_options.options@.map_values(|v: Vec<u8>| v@) =~= Seq::<Seq<u8>>::empty());
            assert(st_of(&c, color_arg@, help_opt, unknown_opt) == st0);
        }
        loop
            invariant
                cnt <= args@.len(),
                scan(args@, 0, init_scan()) == scan(
                    args@,
                    cnt as int,
                    st_of(&c, color_arg@, help_opt, unknown_opt),
                ),
            ensures
                ({
                    let fin = scan(args@, 0, init_scan());
                    &&& fin matches ScanOut::St(st, ri)
                    &&& st == st_of(&c, color_arg@, help_opt, unknown_opt)
                    &&& ri == (if cnt < args@.len() {
                        cnt as int
                    } else {
                        args@.len() as int
                    })
                    &&& cnt <= args@.len()
                }),
            decreases args@.len() - cnt,
        {
            let ghost stc = st_of(&c, color_arg@, help_opt, unknown_opt);
            let ghost stc_i = cnt as int;
            if cnt >= args.len() {
                proof {
                    lemma_scan_stop(args@, stc_i, stc);
                }
                break ;
            }
            let arg: &Vec<u8> = &args[cnt];
            if !(arg.len() > 0 && arg[0] == 45) {
                proof {
                    lemma_scan_stop(args@, stc_i, stc);
                }
                break ;
            }
            let k = classify(arg);
            if k <= 8 || k >= 20 {
                cnt = apply_simple_flag(
                    k,
                    args,
                    cnt,
                    &mut c,
                    &mut help_opt,
                    &mut unknown_opt,
                    Ghost(color_arg@),
                );
            } else if k == 12 || k == 16 || k == 19 {
                match apply_special_flag(
                    k,
                    args,
                    cnt,
                    &mut c,
                    Ghost(color_arg@),
                    Ghost(help_opt),
                    Ghost(unknown_opt),
                ) {
                    Ok(ncnt) => {
                        cnt = ncnt;
                    },
                    Err(e) => {
                        return Err(e);
                    },
                }
            } else if k == 9 || k == 10 || k == 11 {
                cnt = apply_num_flag(
                    k,
                    args,
                    cnt,
                    &mut c,
                    Ghost(color_arg@),
                    Ghost(help_opt),
                    Ghost(unknown_opt),
                );
            } else {
                cnt = apply_str_flag(
                    k,
                    args,
                    cnt,
                    &mut c,
                    &mut color_arg,
                    Ghost(help_opt),
                    Ghost(unknown_opt),
                );
            }
        }
        // the flags are scanned; validate them in order
        let ghost st = st_of(&c, color_arg@, help_opt, unknown_opt);
        let ghost ri: int = if cnt < args@.len() {
            cnt as int
        } else {
            args@.len() as int
        };
        proof {
            reveal(st_of);
            assert(st.anonymous == c.anonymous && st.debug == c.debug && st.exit_codes
                == c.exit_codes && st.group == c.group && st.join == c.join && st.dry_run
                == c.dry_run && st.quiet == c.ssh_options.quiet && st.silent == c.silent && st.trim
                == c.trim && st.max_jobs == c.max_jobs as nat && st.max_line_length
                == c.max_line_length as nat && st.max_output_length == c.max_output_length as nat
                && st.port == c.ssh_options.port && st.color == color_arg@ && st.login == opt_view(
                &c.ssh_options.login,
            ) && st.identity == opt_view(&c.ssh_options.identity) && st.stdin_hosts == (
            c.file is Stdin) && st.options == c.ssh_options.options@.map_values(|v: Vec<u8>| v@)
                && st.exec_path == opt_view(&c.exec_path) && st.help == help_opt && st.unknown
                == unknown_opt);
            assert(c.file matches ScriptInput::HostsFile(f) ==> f@ == st.hosts_file) by {
                reveal(st_of);
            }
        }
        if args.len() < 1 {
            return Err(ParseError::ArgCount);
        }
        if c.anonymous && c.join {
            return Err(ParseError::AnonJoinConflict);
        }
        if c.group && c.join {
            return Err(ParseError::GroupJoinConflict);
        }
        if c.join && c.silent {
            return Err(ParseError::JoinSilentConflict);
        }
        if c.max_jobs == 0 {
            return Err(ParseError::InvalidMaxJobs);
        }
        if c.max_line_length == 0 {
            return Err(ParseError::MaxLineLength);
        }
        if c.max_output_length == 0 {
            return Err(ParseError::MaxOutputLength);
        }
        if c.join {
            c.mode = ProgMode::Join;
        } else if c.group {
            c.mode = ProgMode::Group;
        } else {
            c.mode = ProgMode::Line;
        }
        let is_auto = bytes_eq(color_arg.as_slice(), "auto".as_bytes());
        let is_on = bytes_eq(color_arg.as_slice(), "on".as_bytes());
        let is_off = bytes_eq(color_arg.as_slice(), "off".as_bytes());
        if !(is_auto || is_on || is_off) {
            return Err(ParseError::InvalidColor(color_arg));
        }
        if is_auto && stdout_is_tty {
            c.color = ColorChoice::Auto;
        } else if is_on && stdout_is_tty {
            c.color = ColorChoice::On;
        } else {
            c.color = ColorChoice::Off;
        }
        if help_opt {
            return Err(ParseError::HelpRequested);
        }
        if unknown_opt {
            return Err(ParseError::UnknownOption);
        }
        if cnt >= args.len() && c.exec_path.is_none() {
            return Err(ParseError::ArgCount);
        }
        let mut remote: Vec<Vec<u8>> = Vec::new();
        let mut k: usize = cnt;
        while k < args.len()
            invariant
                cnt <= k <= args@.len(),
                remote@.len() == k - cnt,
                forall|j: int| 0 <= j < remote@.len() ==> remote@[j]@ == args@[cnt + j]@,
            decreases args@.len() - k,
        {
            let mut v: Vec<u8> = Vec::new();
            crate::bytes::push_all(&mut v, args[k].as_slice());
            assert(v@ =~= args@[k as int]@);
            remote.push(v);
            k += 1;
        }
        c.remote_command = remote;
        proof {
            assert(ri == cnt as int);
            assert(forall|j: int|
                0 <= j < c.remote_command@.len() ==> c.remote_command@[j]@ == args@[ri + j]@);
        }
        Ok(c)
    }
}

/// The scan state that the in-progress configuration `c` stands for.
#[verifier::opaque]
pub open spec fn st_of(c: &Config, color: Seq<u8>, help: bool, unknown: bool) -> ScanSt {
    ScanSt {
        anonymous: c.anonymous,
        debug: c.debug,
        exit_codes: c.exit_codes,
        group: c.group,
        join: c.join,
        dry_run: c.dry_run,
        quiet: c.ssh_options.quiet,
        silent: c.silent,
        trim: c.trim,
        max_jobs: c.max_jobs as nat,
        max_line_length: c.max_line_length as nat,
        max_output_length: c.max_output_length as nat,
        port: c.ssh_options.port,
        color: color,
        login: opt_view(&c.ssh_options.login),
        identity: opt_view(&c.ssh_options.identity),
        stdin_hosts: c.file is Stdin,
        hosts_file: match &c.file {
            ScriptInput::HostsFile(f) => f@,
            ScriptInput::Stdin => Seq::empty(),
        },
        options: c.ssh_options.options@.map_values(|v: Vec<u8>| v@),
        exec_path: opt_view(&c.exec_path),
        help: help,
        unknown: unknown,
    }
}

} // verus!
