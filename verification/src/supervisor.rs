//! The bounded-concurrency supervisor state machine.
//!
//! The supervisor owns the host table, the per-descriptor stream buffers and
//! the run accounting.  The caller drives it: it spawns a child for the next
//! pending host whenever [`Supervisor::can_spawn`] allows, reads ready
//! descriptors, and hands every chunk, end of stream and reaped child back to
//! the methods here, which keep the invariant [`Supervisor::wf`]: never more
//! than `ceiling` children running, exactly one buffer per live descriptor,
//! and every finished host closed and reaped.

use vstd::prelude::*;
use vstd::string::*;
use crate::bytes::{push_all, u64_to_dec, dec_rep};
use crate::color::{push_colorized, spec_colorize, Color};
use crate::config::{Config, ProgMode};
use crate::hosts::{fresh_cp, Host, trim_spec, CpState};
use crate::stream::{
    join_finalize, join_fold, line_fold, group_render, output_join_buf, output_line_buf,
    process_group_chunk, process_join_chunk, process_line_chunk, spec_render_line,
    spec_render_lines, FdEvent, PipeType,
};

verus! {

/// How many hosts of `s` are in Running.
pub open spec fn count_running(s: Seq<Host>) -> nat
    decreases s.len(),
{
    if s.len() == 0 {
        0
    } else {
        (count_running(s.drop_last()) + (if s.last().cp.state is Running {
            1nat
        } else {
            0nat
        })) as nat
    }
}

proof fn lemma_count_running_update(s: Seq<Host>, i: int, h: Host)
    requires
        0 <= i < s.len(),
    ensures
        count_running(s.update(i, h)) + (if s[i].cp.state is Running {
            1nat
        } else {
            0nat
        }) == count_running(s) + (if h.cp.state is Running {
            1nat
        } else {
            0nat
        }),
    decreases s.len(),
{
    if i == s.len() - 1 {
        assert(s.update(i, h).drop_last() =~= s.drop_last());
    } else {
        assert(s.update(i, h).drop_last() =~= s.drop_last().update(i, h));
        lemma_count_running_update(s.drop_last(), i, h);
    }
}

proof fn lemma_count_running_none(s: Seq<Host>)
    requires
        count_running(s) == 0,
    ensures
        forall|i: int| 0 <= i < s.len() ==> !((#[trigger] s[i]).cp.state is Running),
    decreases s.len(),
{
    if s.len() > 0 {
        lemma_count_running_none(s.drop_last());
        assert(forall|i: int| 0 <= i < s.len() - 1 ==> s[i] == s.drop_last()[i]);
    }
}

proof fn lemma_count_running_some(s: Seq<Host>, i: int)
    requires
        0 <= i < s.len(),
        s[i].cp.state is Running,
    ensures
        count_running(s) >= 1,
    decreases s.len(),
{
    if i < s.len() - 1 {
        lemma_count_running_some(s.drop_last(), i);
    }
}

proof fn lemma_count_running_all_ready(s: Seq<Host>)
    requires
        forall|i: int| 0 <= i < s.len() ==> (#[trigger] s[i]).cp.state is Ready,
    ensures
        count_running(s) == 0,
    decreases s.len(),
{
    if s.len() > 0 {
        assert(forall|i: int| 0 <= i < s.len() - 1 ==> s.drop_last()[i] == s[i]);
        lemma_count_running_all_ready(s.drop_last());
    }
}

/// The descriptor slot of a host that a stream kind reads.
pub open spec fn slot_of(h: &Host, kind: PipeType) -> int {
    match kind {
        PipeType::StdOut => h.cp.stdout_fd as int,
        PipeType::StdErr => h.cp.stderr_fd as int,
        PipeType::StdIO => h.cp.stdio_fd as int,
    }
}

/// Every descriptor slot that the mode uses is at the closed sentinel, and
/// the unused slots were never set.
pub open spec fn slots_closed(mode: ProgMode, h: &Host) -> bool {
    if mode is Join {
        h.cp.stdio_fd == -2 && h.cp.stdout_fd == -1 && h.cp.stderr_fd == -1
    } else {
        h.cp.stdout_fd == -2 && h.cp.stderr_fd == -2 && h.cp.stdio_fd == -1
    }
}

/// The slot shape a host may be in under the given mode: join mode uses the
/// single stdio slot, the other modes the stdout and stderr slots.
pub open spec fn host_slots_ok(mode: ProgMode, h: &Host) -> bool {
    if mode is Join {
        h.cp.stdout_fd == -1 && h.cp.stderr_fd == -1 && (h.cp.stdio_fd == -1 || h.cp.stdio_fd
            == -2 || h.cp.stdio_fd >= 0)
    } else {
        h.cp.stdio_fd == -1 && (h.cp.stdout_fd == -1 || h.cp.stdout_fd == -2 || h.cp.stdout_fd
            >= 0) && (h.cp.stderr_fd == -1 || h.cp.stderr_fd == -2 || h.cp.stderr_fd >= 0)
    }
}

/// The supervisor state: host table, live stream buffers, admission cursor
/// and accounting, the run parameters it needs, and the group-mode tracker of
/// the last emitting host.
pub struct Supervisor {
    pub hosts: Vec<Host>,
    pub bufs: Vec<FdEvent>,
    pub next_pending: usize,
    pub remaining: u64,
    pub done: usize,
    pub mode: ProgMode,
    pub ceiling: u64,
    pub silent: bool,
    pub anonymous: bool,
    pub colorize: bool,
    pub trim: bool,
    pub debug: bool,
    pub exit_codes: bool,
    pub max_line_length: u16,
    pub max_output_length: u16,
    pub last_name: Option<Vec<u8>>,
    pub last_nl: bool,
}

impl Supervisor {
    /// One live stream buffer is sound: it points at a Running host, reads
    /// the open slot of its kind, and respects its mode's cap.
    pub open spec fn buf_ok(&self, b: FdEvent) -> bool {
        &&& b.host < self.hosts@.len()
        &&& self.hosts@[b.host as int].cp.state is Running
        &&& b.fd >= 0
        &&& slot_of(&self.hosts@[b.host as int], b.kind) == b.fd
        &&& (self.mode is Join ==> b.kind is StdIO && b.buffer@.len() <= self.max_output_length)
        &&& (!(self.mode is Join) ==> (b.kind is StdOut || b.kind is StdErr) && (self.mode is Line
            ==> b.buffer@.len() < self.max_line_length))
    }

    /// The supervisor invariant.
    pub open spec fn wf(&self) -> bool {
        &&& 1 <= self.ceiling
        &&& 1 <= self.max_line_length
        &&& self.next_pending <= self.hosts@.len()
        &&& self.remaining <= self.ceiling
        &&& self.remaining + self.done == self.next_pending
        &&& count_running(self.hosts@) == self.remaining
        &&& (forall|i: int|
            self.next_pending <= i < self.hosts@.len() ==> fresh_cp(
                &(#[trigger] self.hosts@[i]).cp,
            ))
        &&& (forall|i: int|
            0 <= i < self.next_pending ==> !((#[trigger] self.hosts@[i]).cp.state is Ready))
        &&& (forall|i: int|
            0 <= i < self.hosts@.len() ==> host_slots_ok(self.mode, &(#[trigger] self.hosts@[i])))
        &&& (forall|i: int|
            0 <= i < self.hosts@.len() ==> ((#[trigger] self.hosts@[i]).cp.state is Running
                ==> self.hosts@[i].cp.pid > 0))
        &&& (forall|i: int|
            0 <= i < self.hosts@.len() ==> ((#[trigger] self.hosts@[i]).cp.state is Done
                ==> slots_closed(self.mode, &self.hosts@[i]) && self.hosts@[i].cp.pid == -2
                && self.hosts@[i].cp.exit_code >= 0))
        &&& (forall|i: int|
            0 <= i < self.hosts@.len() ==> (!(self.mode is Join)
                ==> (#[trigger] self.hosts@[i]).cp.output_buffer@.len()
                <= self.max_output_length))
        &&& (forall|i: int|
            0 <= i < self.hosts@.len() ==> ((self.mode is Join)
                ==> (#[trigger] self.hosts@[i]).cp.output_buffer@.len()
                <= self.max_output_length))
        &&& (forall|j: int| 0 <= j < self.bufs@.len() ==> self.buf_ok(#[trigger] self.bufs@[j]))
        &&& (forall|j: int, k: int|
            0 <= j < k < self.bufs@.len() ==> (#[trigger] self.bufs@[j]).fd != (
            #[trigger] self.bufs@[k]).fd)
    }

    /// A descriptor has a live stream buffer.
    pub open spec fn spec_fd_live(&self, fd: i32) -> bool {
        exists|j: int| 0 <= j < self.bufs@.len() && (#[trigger] self.bufs@[j]).fd == fd
    }

    /// Whether `fd` has a live stream buffer.
    pub fn fd_live(&self, fd: i32) -> (r: bool)
        ensures
            r == self.spec_fd_live(fd),
    {
        let mut j: usize = 0;
        while j < self.bufs.len()
            invariant
                j <= self.bufs@.len(),
                forall|k: int| 0 <= k < j ==> (#[trigger] self.bufs@[k]).fd != fd,
            decreases self.bufs@.len() - j,
        {
            if self.bufs[j].fd == fd {
                return true;
            }
            j += 1;
        }
        false
    }

    /// A fresh supervisor over parsed hosts: nothing admitted, nothing live.
    pub fn new(conf: &Config, hosts: Vec<Host>) -> (r: Supervisor)
        requires
            conf.max_jobs >= 1,
            conf.max_line_length >= 1,
            forall|i: int| 0 <= i < hosts@.len() ==> fresh_cp(&(#[trigger] hosts@[i]).cp),
        ensures
            r.wf(),
            r.hosts@ == hosts@,
            r.bufs@.len() == 0,
            r.next_pending == 0,
            r.remaining == 0,
            r.done == 0,
            r.mode == conf.mode,
            r.ceiling == conf.max_jobs,
            r.silent == conf.silent,
            r.anonymous == conf.anonymous,
            r.trim == conf.trim,
            r.debug == conf.debug,
            r.exit_codes == conf.exit_codes,
            r.max_line_length == conf.max_line_length,
            r.max_output_length == conf.max_output_length,
            r.colorize == (conf.color is Auto || conf.color is On),
            r.last_nl,
    {
        proof {
            lemma_count_running_all_ready(hosts@);
        }
        Supervisor {
            hosts,
            bufs: Vec::new(),
            next_pending: 0,
            remaining: 0,
            done: 0,
            mode: conf.mode,
            ceiling: conf.max_jobs,
            silent: conf.silent,
            anonymous: conf.anonymous,
            colorize: conf.colorize(),
            trim: conf.trim,
            debug: conf.debug,
            exit_codes: conf.exit_codes,
            max_line_length: conf.max_line_length,
            max_output_length: conf.max_output_length,
            last_name: None,
            last_nl: true,
        }
    }

    /// A host is pending and the concurrency ceiling leaves room: the next
    /// child may be spawned.
    pub fn can_spawn(&self) -> (r: bool)
        ensures
            r == (self.next_pending < self.hosts@.len() && self.remaining < self.ceiling),
    {
        self.next_pending < self.hosts.len() && self.remaining < self.ceiling
    }

    /// The full hostname of the next pending host, for command construction.
    pub fn next_host_name(&self) -> (r: &Vec<u8>)
        requires
            self.next_pending < self.hosts@.len(),
        ensures
            r@ == self.hosts@[self.next_pending as int].name@,
    {
        &self.hosts[self.next_pending].name
    }

    /// At no point are more than `ceiling` children running.
    ///
    /// With a ceiling of one this says the children run strictly serially.
    pub proof fn lemma_concurrency_bound(&self)
        requires
            self.wf(),
        ensures
            count_running(self.hosts@) <= self.ceiling,
    {
    }

    /// After normal termination every host is in Done with every used
    /// descriptor slot closed and its child reaped, and no stream buffer
    /// is left.
    pub proof fn lemma_termination(&self)
        requires
            self.wf(),
            self.next_pending == self.hosts@.len(),
            self.remaining == 0,
        ensures
            forall|i: int|
                0 <= i < self.hosts@.len() ==> (#[trigger] self.hosts@[i]).cp.state is Done
                    && slots_closed(self.mode, &self.hosts@[i]) && self.hosts@[i].cp.pid == -2,
            self.bufs@.len() == 0,
    {
        lemma_count_running_none(self.hosts@);
        assert(forall|i: int|
            0 <= i < self.hosts@.len() ==> (#[trigger] self.hosts@[i]).cp.state is Done) by {
            assert(forall|i: int|
                0 <= i < self.hosts@.len() ==> !((#[trigger] self.hosts@[i]).cp.state is Ready));
        }
        if self.bufs@.len() > 0 {
            assert(self.buf_ok(self.bufs@[0]));
        }
    }

    /// Record a spawned child for the next pending host: set its pid, start
    /// time and descriptor slots, switch it to Running, create its stream
    /// buffers, and trim the display name when requested.  Returns the debug
    /// line to print, empty unless debugging.
    pub fn note_spawned(
        &mut self,
        pid: i32,
        stdout_fd: i32,
        stderr_fd: i32,
        stdio_fd: i32,
        now: u128,
    ) -> (out: Vec<u8>)
        requires
            old(self).wf(),
            old(self).next_pending < old(self).hosts@.len(),
            old(self).remaining < old(self).ceiling,
            pid > 0,
            old(self).mode is Join ==> stdio_fd >= 0 && stdout_fd == -1 && stderr_fd == -1,
            !(old(self).mode is Join) ==> stdout_fd >= 0 && stderr_fd >= 0 && stdout_fd
                != stderr_fd && stdio_fd == -1,
            forall|j: int|
                0 <= j < old(self).bufs@.len() ==> (#[trigger] old(self).bufs@[j]).fd != stdout_fd
                    && old(self).bufs@[j].fd != stderr_fd && old(self).bufs@[j].fd != stdio_fd,
        ensures
            final(self).wf(),
            final(self).next_pending == old(self).next_pending + 1,
            final(self).remaining == old(self).remaining + 1,
            final(self).done == old(self).done,
            final(self).hosts@.len() == old(self).hosts@.len(),
            ({
                let i = old(self).next_pending as int;
                let h = final(self).hosts@[i];
                &&& (forall|j: int|
                    0 <= j < old(self).hosts@.len() && j != i ==> final(self).hosts@[j] == old(self).hosts@[j])
                &&& h.cp.state is Running
                &&& h.cp.pid == pid
                &&& h.cp.started_time == now
                &&& h.cp.stdout_fd == stdout_fd
                &&& h.cp.stderr_fd == stderr_fd
                &&& h.cp.stdio_fd == stdio_fd
                &&& h.name@ == (if old(self).trim {
                    trim_to_dot(old(self).hosts@[i].name@)
                } else {
                    old(self).hosts@[i].name@
                })
            }),
            same_params(final(self), old(self)),
            final(self).last_name == old(self).last_name,
            final(self).last_nl == old(self).last_nl,
            out@ == (if old(self).debug {
                spawn_line(
                    final(self).hosts@[old(self).next_pending as int].name@,
                    pid,
                    old(self).colorize,
                )
            } else {
                Seq::<u8>::empty()
            }),
    {
        let idx = self.next_pending;
        let n = self.hosts.len();
        let ghost hosts0 = self.hosts@;
        {
            let h = &mut self.hosts[idx];
            h.cp.pid = pid;
            h.cp.started_time = now;
            h.cp.stdout_fd = stdout_fd;
            h.cp.stderr_fd = stderr_fd;
            h.cp.stdio_fd = stdio_fd;
            h.cp.state = CpState::Running;
        }
        if self.trim {
            let trimmed = trim_to_dot_exec(&self.hosts[idx].name);
            let h = &mut self.hosts[idx];
            h.name = trimmed;
        }
        proof {
            lemma_count_running_update(hosts0, idx as int, self.hosts@[idx as int]);
            assert(self.hosts@ =~= hosts0.update(idx as int, self.hosts@[idx as int]));
        }
        let is_join = matches!(self.mode, ProgMode::Join);
        if is_join {
            self.bufs.push(
                FdEvent { host: idx, fd: stdio_fd, buffer: Vec::new(), kind: PipeType::StdIO },
            );
        } else {
            self.bufs.push(
                FdEvent { host: idx, fd: stdout_fd, buffer: Vec::new(), kind: PipeType::StdOut },
            );
            self.bufs.push(
                FdEvent { host: idx, fd: stderr_fd, buffer: Vec::new(), kind: PipeType::StdErr },
            );
        }
        self.next_pending = idx + 1;
        self.remaining = self.remaining + 1;
        let mut out: Vec<u8> = Vec::new();
        if self.debug {
            push_all(&mut out, "[".as_bytes());
            let cyan = if self.colorize {
                Color::Cyan
            } else {
                Color::Empty
            };
            let magenta = if self.colorize {
                Color::Magenta
            } else {
                Color::Empty
            };
            push_colorized(&mut out, "sshp4ru".as_bytes(), &cyan);
            push_all(&mut out, "] ".as_bytes());
            let d = u64_to_dec(pid as u64);
            push_colorized(&mut out, d.as_slice(), &magenta);
            push_all(&mut out, " ".as_bytes());
            push_colorized(&mut out, self.hosts[idx].name.as_slice(), &cyan);
            push_all(&mut out, " spawned\n".as_bytes());
            assert(out@ =~= spawn_line(self.hosts@[idx as int].name@, pid, self.colorize));
        }
        out
    }

    /// The index of the live stream buffer reading `fd`.
    pub open spec fn buf_index_of(&self, fd: i32) -> int {
        choose|j: int| 0 <= j < self.bufs@.len() && (#[trigger] self.bufs@[j]).fd == fd
    }

    /// Find the stream buffer reading `fd`.
    fn find_buf(&self, fd: i32) -> (j: usize)
        requires
            self.wf(),
            self.spec_fd_live(fd),
        ensures
            j == self.buf_index_of(fd),
            j < self.bufs@.len(),
            self.bufs@[j as int].fd == fd,
    {
        let mut j: usize = 0;
        while j < self.bufs.len()
            invariant
                j <= self.bufs@.len(),
                forall|k: int| 0 <= k < j ==> (#[trigger] self.bufs@[k]).fd != fd,
                self.wf(),
                self.spec_fd_live(fd),
            decreases self.bufs@.len() - j,
        {
            if self.bufs[j].fd == fd {
                proof {
                    let jj = self.buf_index_of(fd);
                    assert(0 <= jj < self.bufs@.len() && self.bufs@[jj].fd == fd);
                    if jj != j {
                        assert(false);
                    }
                }
                return j;
            }
            j += 1;
        }
        proof {
            let jj = self.buf_index_of(fd);
            assert(0 <= jj < self.bufs@.len() && self.bufs@[jj].fd == fd);
        }
        unreached()
    }

    /// Feed one chunk read from `fd` to its stream buffer and render what the
    /// mode emits for it: completed lines in line mode, nothing in join mode
    /// (the bytes accumulate), the stanza and raw chunk in group mode.  Under
    /// `silent` the chunk is discarded whole.
    pub fn handle_chunk(&mut self, fd: i32, data: &[u8]) -> (out: Vec<u8>)
        requires
            old(self).wf(),
            old(self).spec_fd_live(fd),
            data@.len() > 0,
        ensures
            final(self).wf(),
            same_params(final(self), old(self)),
            final(self).hosts@ == old(self).hosts@,
            final(self).next_pending == old(self).next_pending,
            final(self).remaining == old(self).remaining,
            final(self).done == old(self).done,
            old(self).silent ==> final(self).bufs@ == old(self).bufs@ && out@ == Seq::<u8>::empty()
                && final(self).last_name == old(self).last_name && final(self).last_nl == old(self).last_nl,
            !old(self).silent ==> ({
                let j = old(self).buf_index_of(fd);
                let b = old(self).bufs@[j];
                let name = old(self).hosts@[b.host as int].name@;
                &&& final(self).bufs@.len() == old(self).bufs@.len()
                &&& (forall|k: int|
                    0 <= k < old(self).bufs@.len() && k != j ==> final(self).bufs@[k] == old(self).bufs@[k])
                &&& final(self).bufs@[j].fd == b.fd
                &&& final(self).bufs@[j].host == b.host
                &&& final(self).bufs@[j].kind == b.kind
                &&& (old(self).mode is Line ==> final(self).bufs@[j].buffer@ == line_fold(
                    b.buffer@,
                    data@,
                    old(self).max_line_length as nat,
                ).0 && out@ == spec_render_lines(
                    name,
                    b.kind,
                    old(self).anonymous,
                    old(self).colorize,
                    line_fold(b.buffer@, data@, old(self).max_line_length as nat).1,
                ) && final(self).last_name == old(self).last_name && final(self).last_nl == old(self).last_nl)
                &&& (old(self).mode is Join ==> final(self).bufs@[j].buffer@ == join_fold(
                    b.buffer@,
                    data@,
                    old(self).max_output_length as nat,
                ) && out@ == Seq::<u8>::empty() && final(self).last_name == old(self).last_name
                    && final(self).last_nl == old(self).last_nl)
                &&& (old(self).mode is Group ==> final(self).bufs@[j].buffer@ == b.buffer@ && out@
                    == group_render(
                    name,
                    b.kind,
                    data@,
                    match old(self).last_name {
                        Option::Some(n) => Option::Some(n@),
                        Option::None => Option::None,
                    },
                    old(self).last_nl,
                    old(self).anonymous,
                    old(self).colorize,
                ) && (final(self).last_name matches Option::Some(n) && n@ == name) && final(self).last_nl == (data@.last() == 10))
            }),
    {
        if self.silent {
            return Vec::new();
        }
        let j = self.find_buf(fd);
        let hostidx = self.bufs[j].host;
        let kind = self.bufs[j].kind;
        let mut name: Vec<u8> = Vec::new();
        push_all(&mut name, self.hosts[hostidx].name.as_slice());
        assert(name@ =~= self.hosts@[hostidx as int].name@);
        let is_line = matches!(self.mode, ProgMode::Line);
        let is_join = matches!(self.mode, ProgMode::Join);
        if is_line {
            let out = process_line_chunk(
                &mut self.bufs[j].buffer,
                data,
                self.max_line_length,
                name.as_slice(),
                kind,
                self.anonymous,
                self.colorize,
            );
            out
        } else if is_join {
            process_join_chunk(&mut self.bufs[j].buffer, data, self.max_output_length);
            Vec::new()
        } else {
            let out = process_group_chunk(
                name.as_slice(),
                kind,
                data,
                &self.last_name,
                self.last_nl,
                self.anonymous,
                self.colorize,
            );
            self.last_nl = data[data.len() - 1] == 10;
            self.last_name = Some(name);
            out
        }
    }

    /// End of stream on `fd`: drop its stream buffer, mark the host's slot
    /// closed, and finalise the buffer per mode (line mode flushes a residual
    /// line, join mode moves the accumulation to the host's output).  Returns
    /// the flushed text and, when this closed the host's last open slot, the
    /// host that is now ready to be reaped.
    ///
    /// Afterwards `fd` has no stream buffer, so a second end of stream on the
    /// same descriptor is refused by this method's precondition: the removal
    /// and the slot closing happen in this one step.
    pub fn handle_eof(&mut self, fd: i32) -> (r: (Vec<u8>, Option<usize>))
        requires
            old(self).wf(),
            old(self).spec_fd_live(fd),
        ensures
            final(self).wf(),
            same_params(final(self), old(self)),
            !final(self).spec_fd_live(fd),
            final(self).next_pending == old(self).next_pending,
            final(self).remaining == old(self).remaining,
            final(self).done == old(self).done,
            final(self).last_name == old(self).last_name,
            final(self).last_nl == old(self).last_nl,
            ({
                let j = old(self).buf_index_of(fd);
                let b = old(self).bufs@[j];
                let h = b.host as int;
                let host0 = old(self).hosts@[h];
                &&& final(self).bufs@ == old(self).bufs@.remove(j)
                &&& final(self).hosts@.len() == old(self).hosts@.len()
                &&& (forall|i: int|
                    0 <= i < old(self).hosts@.len() && i != h ==> final(self).hosts@[i] == old(self).hosts@[i])
                &&& final(self).hosts@[h].name@ == host0.name@
                &&& final(self).hosts@[h].cp.state == host0.cp.state
                &&& final(self).hosts@[h].cp.pid == host0.cp.pid
                &&& slot_of(&final(self).hosts@[h], b.kind) == -2
                &&& (b.kind is StdOut ==> final(self).hosts@[h].cp.stderr_fd
                    == host0.cp.stderr_fd)
                &&& (b.kind is StdErr ==> final(self).hosts@[h].cp.stdout_fd
                    == host0.cp.stdout_fd)
                &&& (old(self).mode is Join ==> final(self).hosts@[h].cp.output_buffer@
                    == join_finalize(b.buffer@, old(self).max_output_length as nat) && r.0@
                    == Seq::<u8>::empty())
                &&& (!(old(self).mode is Join) ==> final(self).hosts@[h].cp.output_buffer@
                    == host0.cp.output_buffer@)
                &&& (old(self).mode is Line ==> r.0@ == (if b.buffer@.len() == 0 {
                    Seq::<u8>::empty()
                } else {
                    spec_render_line(
                        host0.name@,
                        b.kind,
                        old(self).anonymous,
                        old(self).colorize,
                        b.buffer@,
                    )
                }))
                &&& (old(self).mode is Group ==> r.0@ == Seq::<u8>::empty())
                &&& r.1 == (if slots_closed(old(self).mode, &final(self).hosts@[h]) {
                    Option::Some(b.host)
                } else {
                    Option::<usize>::None
                })
            }),
    {
        let j = self.find_buf(fd);
        let ghost bufs0 = self.bufs@;
        let mut b = self.bufs.remove(j);
        let hostidx = b.host;
        let mut name: Vec<u8> = Vec::new();
        push_all(&mut name, self.hosts[hostidx].name.as_slice());
        assert(name@ =~= self.hosts@[hostidx as int].name@);
        let ghost hosts0 = self.hosts@;
        {
            let h = &mut self.hosts[hostidx];
            match b.kind {
                PipeType::StdOut => h.cp.stdout_fd = -2,
                PipeType::StdErr => h.cp.stderr_fd = -2,
                PipeType::StdIO => h.cp.stdio_fd = -2,
            }
        }
        proof {
            lemma_count_running_update(hosts0, hostidx as int, self.hosts@[hostidx as int]);
            assert(self.hosts@ =~= hosts0.update(hostidx as int, self.hosts@[hostidx as int]));
        }
        let is_line = matches!(self.mode, ProgMode::Line);
        let is_join = matches!(self.mode, ProgMode::Join);
        let out: Vec<u8>;
        if is_join {
            let ob = output_join_buf(&mut b.buffer, self.max_output_length);
            let ghost hosts1 = self.hosts@;
            {
                let h = &mut self.hosts[hostidx];
                h.cp.output_buffer = ob;
            }
            proof {
                lemma_count_running_update(hosts1, hostidx as int, self.hosts@[hostidx as int]);
                assert(self.hosts@ =~= hosts1.update(hostidx as int, self.hosts@[hostidx as int]));
            }
            out = Vec::new();
        } else if is_line {
            out = output_line_buf(
                &mut b.buffer,
                name.as_slice(),
                b.kind,
                self.anonymous,
                self.colorize,
            );
        } else {
            out = Vec::new();
        }
        // is the host's every used slot closed now?
        let cp_done: bool;
        {
            let h = &self.hosts[hostidx];
            if is_join {
                cp_done = h.cp.stdio_fd == -2;
            } else {
                cp_done = h.cp.stdout_fd == -2 && h.cp.stderr_fd == -2;
            }
        }
        proof {
            let jj = old(self).buf_index_of(fd);
            assert(jj == j);
            assert(forall|k: int|
                0 <= k < self.bufs@.len() ==> #[trigger] self.bufs@[k] == (if k < j as int {
                    bufs0[k]
                } else {
                    bufs0[k + 1]
                }));
            assert(!self.spec_fd_live(fd)) by {
                if self.spec_fd_live(fd) {
                    let k = choose|k: int|
                        0 <= k < self.bufs@.len() && (#[trigger] self.bufs@[k]).fd == fd;
                    if k < j as int {
                        assert(bufs0[k].fd == fd && bufs0[j as int].fd == fd);
                    } else {
                        assert(bufs0[k + 1].fd == fd && bufs0[j as int].fd == fd);
                    }
                }
            }
            assert(forall|k: int|
                0 <= k < self.bufs@.len() ==> self.buf_ok(#[trigger] self.bufs@[k])) by {
                assert(forall|k: int|
                    0 <= k < self.bufs@.len() ==> (#[trigger] self.bufs@[k]).host != hostidx
                        || self.bufs@[k].kind != b.kind) by {
                    assert(forall|k: int|
                        0 <= k < self.bufs@.len() ==> (#[trigger] self.bufs@[k]).fd != fd);
                }
            }
        }
        if cp_done {
            (out, Some(hostidx))
        } else {
            (out, None)
        }
    }

    /// Record the reaped child of host `h`: state Done, pid at the reaped
    /// sentinel, exit code and finish time recorded.  Returns the per-host
    /// exit line when `debug` or `exit_codes` ask for one, else nothing.
    pub fn note_reaped(&mut self, h: usize, exit_code: i32, now: u128) -> (out: Vec<u8>)
        requires
            old(self).wf(),
            h < old(self).hosts@.len(),
            old(self).hosts@[h as int].cp.state is Running,
            slots_closed(old(self).mode, &old(self).hosts@[h as int]),
            exit_code >= 0,
            now >= old(self).hosts@[h as int].cp.started_time,
            now < 0xffff_ffff_ffff_ffff,
        ensures
            final(self).wf(),
            same_params(final(self), old(self)),
            final(self).bufs@ == old(self).bufs@,
            final(self).next_pending == old(self).next_pending,
            final(self).remaining == old(self).remaining - 1,
            final(self).done == old(self).done + 1,
            final(self).hosts@.len() == old(self).hosts@.len(),
            (forall|i: int|
                0 <= i < old(self).hosts@.len() && i != h ==> final(self).hosts@[i] == old(self).hosts@[i]),
            ({
                let host0 = old(self).hosts@[h as int];
                let host1 = final(self).hosts@[h as int];
                &&& host1.cp.state is Done
                &&& host1.cp.pid == -2
                &&& host1.cp.exit_code == exit_code
                &&& host1.cp.finished_time == now
                &&& host1.cp.started_time == host0.cp.started_time
                &&& host1.name@ == host0.name@
                &&& host1.cp.output_buffer@ == host0.cp.output_buffer@
                &&& out@ == (if old(self).debug || old(self).exit_codes {
                    (if old(self).last_nl {
                        Seq::<u8>::empty()
                    } else {
                        "\n".spec_bytes()
                    }) + exit_line(
                        host0.name@,
                        host0.cp.pid,
                        exit_code,
                        (now - host0.cp.started_time) as u128,
                        old(self).debug,
                        old(self).colorize,
                    )
                } else {
                    Seq::<u8>::empty()
                })
            }),
            final(self).last_name == old(self).last_name,
            final(self).last_nl == (if old(self).debug || old(self).exit_codes {
                true
            } else {
                old(self).last_nl
            }),
    {
        let ghost hosts0 = self.hosts@;
        let started: u128;
        let pid: i32;
        {
            let hm = &mut self.hosts[h];
            started = hm.cp.started_time;
            pid = hm.cp.pid;
            hm.cp.pid = -2;
            hm.cp.state = CpState::Done;
            hm.cp.exit_code = exit_code;
            hm.cp.finished_time = now;
        }
        proof {
            lemma_count_running_update(hosts0, h as int, self.hosts@[h as int]);
            assert(self.hosts@ =~= hosts0.update(h as int, self.hosts@[h as int]));
            lemma_count_running_some(hosts0, h as int);
        }
        self.remaining = self.remaining - 1;
        self.done = self.done + 1;
        let mut out: Vec<u8> = Vec::new();
        if self.debug || self.exit_codes {
            if !self.last_nl {
                push_all(&mut out, "\n".as_bytes());
                self.last_nl = true;
            } else {
                self.last_nl = true;
            }
            let delta: u128 = now - started;
            let line = render_exit_line(
                &self.hosts[h].name,
                pid,
                exit_code,
                delta,
                self.debug,
                self.colorize,
            );
            push_all(&mut out, line.as_slice());
        }
        out
    }

    /// All hosts have been admitted and every child has been reaped.
    pub fn finished(&self) -> (r: bool)
        ensures
            r == (self.next_pending == self.hosts@.len() && self.remaining == 0),
    {
        self.next_pending == self.hosts.len() && self.remaining == 0
    }

    /// The join-mode progress line: finished count over total, ending in a
    /// carriage return.
    pub fn progress_line(&self) -> (out: Vec<u8>)
        ensures
            out@ == spec_progress_line(
                self.done as nat,
                self.hosts@.len(),
                self.colorize,
            ),
    {
        let cyan = if self.colorize {
            Color::Cyan
        } else {
            Color::Empty
        };
        let magenta = if self.colorize {
            Color::Magenta
        } else {
            Color::Empty
        };
        let mut out: Vec<u8> = Vec::new();
        push_all(&mut out, "[".as_bytes());
        push_colorized(&mut out, "sshp4ru".as_bytes(), &cyan);
        push_all(&mut out, "] finished ".as_bytes());
        let d = u64_to_dec(self.done as u64);
        push_colorized(&mut out, d.as_slice(), &magenta);
        push_all(&mut out, "/".as_bytes());
        let t = u64_to_dec(self.hosts.len() as u64);
        push_colorized(&mut out, t.as_slice(), &magenta);
        push_all(&mut out, "\r".as_bytes());
        assert(out@ =~= spec_progress_line(self.done as nat, self.hosts@.len(), self.colorize));
        out
    }
}

/// The join-mode progress line for `done` finished hosts out of `total`.
pub open spec fn spec_progress_line(done: nat, total: nat, colorize: bool) -> Seq<u8> {
    let cyan = if colorize {
        Color::Cyan
    } else {
        Color::Empty
    };
    let magenta = if colorize {
        Color::Magenta
    } else {
        Color::Empty
    };
    "[".spec_bytes() + spec_colorize("sshp4ru".spec_bytes(), &cyan) + "] finished ".spec_bytes()
        + spec_colorize(dec_rep(done), &magenta) + "/".spec_bytes() + spec_colorize(
        dec_rep(total),
        &magenta,
    ) + "\r".spec_bytes()
}

/// The per-host exit line: host (and pid under debug), exit code coloured by
/// success, and the elapsed milliseconds.
pub open spec fn exit_line(
    name: Seq<u8>,
    pid: i32,
    code: i32,
    delta: u128,
    debug: bool,
    colorize: bool,
) -> Seq<u8> {
    let cyan = if colorize {
        Color::Cyan
    } else {
        Color::Empty
    };
    let magenta = if colorize {
        Color::Magenta
    } else {
        Color::Empty
    };
    let code_color = if !colorize {
        Color::Empty
    } else if code == 0 {
        Color::Green
    } else {
        Color::Red
    };
    let head = if debug {
        "[".spec_bytes() + spec_colorize("sshp4ru".spec_bytes(), &cyan) + "] ".spec_bytes()
            + spec_colorize(dec_rep(pid as nat), &magenta) + " ".spec_bytes() + spec_colorize(
            name,
            &cyan,
        )
    } else {
        "[".spec_bytes() + spec_colorize(name, &cyan) + "]".spec_bytes()
    };
    head + " exited: ".spec_bytes() + spec_colorize(dec_rep(code as nat), &code_color)
        + " (".spec_bytes() + spec_colorize(dec_rep(delta as nat), &magenta) + " ms)\n".spec_bytes()
}

/// Render the per-host exit line.
fn render_exit_line(
    name: &Vec<u8>,
    pid: i32,
    code: i32,
    delta: u128,
    debug: bool,
    colorize: bool,
) -> (out: Vec<u8>)
    requires
        pid > 0,
        code >= 0,
        delta < 0xffff_ffff_ffff_ffff,
    ensures
        out@ == exit_line(name@, pid, code, delta, debug, colorize),
{
    let cyan = if colorize {
        Color::Cyan
    } else {
        Color::Empty
    };
    let magenta = if colorize {
        Color::Magenta
    } else {
        Color::Empty
    };
    let code_color = if !colorize {
        Color::Empty
    } else if code == 0 {
        Color::Green
    } else {
        Color::Red
    };
    let mut out: Vec<u8> = Vec::new();
    if debug {
        push_all(&mut out, "[".as_bytes());
        push_colorized(&mut out, "sshp4ru".as_bytes(), &cyan);
        push_all(&mut out, "] ".as_bytes());
        let d = u64_to_dec(pid as u64);
        push_colorized(&mut out, d.as_slice(), &magenta);
        push_all(&mut out, " ".as_bytes());
        push_colorized(&mut out, name.as_slice(), &cyan);
    } else {
        push_all(&mut out, "[".as_bytes());
        push_colorized(&mut out, name.as_slice(), &cyan);
        push_all(&mut out, "]".as_bytes());
    }
    push_all(&mut out, " exited: ".as_bytes());
    let dc = u64_to_dec(code as u64);
    push_colorized(&mut out, dc.as_slice(), &code_color);
    push_all(&mut out, " (".as_bytes());
    let dd = u64_to_dec(delta as u64);
    push_colorized(&mut out, dd.as_slice(), &magenta);
    push_all(&mut out, " ms)\n".as_bytes());
    assert(out@ =~= exit_line(name@, pid, code, delta, debug, colorize));
    out
}

/// The run parameters of the supervisor are unchanged by a transition.
pub open spec fn same_params(a: &Supervisor, b: &Supervisor) -> bool {
    &&& a.mode == b.mode
    &&& a.ceiling == b.ceiling
    &&& a.silent == b.silent
    &&& a.anonymous == b.anonymous
    &&& a.colorize == b.colorize
    &&& a.trim == b.trim
    &&& a.debug == b.debug
    &&& a.exit_codes == b.exit_codes
    &&& a.max_line_length == b.max_line_length
    &&& a.max_output_length == b.max_output_length
}

/// The debug line announcing a spawned child.
pub open spec fn spawn_line(name: Seq<u8>, pid: i32, colorize: bool) -> Seq<u8> {
    let cyan = if colorize {
        Color::Cyan
    } else {
        Color::Empty
    };
    let magenta = if colorize {
        Color::Magenta
    } else {
        Color::Empty
    };
    "[".spec_bytes() + spec_colorize("sshp4ru".spec_bytes(), &cyan) + "] ".spec_bytes()
        + spec_colorize(dec_rep(pid as nat), &magenta) + " ".spec_bytes() + spec_colorize(
        name,
        &cyan,
    ) + " spawned\n".spec_bytes()
}

/// A hostname shortened to its first dot-separated label.
pub open spec fn trim_to_dot(name: Seq<u8>) -> Seq<u8> {
    name.take(crate::hosts::first_of(name, 46) as int)
}

/// Shorten a hostname to its first dot-separated label.
pub fn trim_to_dot_exec(name: &Vec<u8>) -> (r: Vec<u8>)
    ensures
        r@ == trim_to_dot(name@),
{
    let mut end: usize = 0;
    while end < name.len() && name[end] != 46
        invariant
            end <= name@.len(),
            forall|j: int| 0 <= j < end ==> name@[j] != 46,
        decreases name@.len() - end,
    {
        end += 1;
    }
    proof {
        crate::hosts::lemma_first_of(name@, 46);
        if end < name@.len() {
            if crate::hosts::first_of(name@, 46) < end {
                assert(name@[crate::hosts::first_of(name@, 46) as int] != 46);
            }
        } else {
            if crate::hosts::first_of(name@, 46) < name@.len() {
                assert(name@[crate::hosts::first_of(name@, 46) as int] != 46);
            }
        }
    }
    let mut r: Vec<u8> = Vec::new();
    push_all(&mut r, &name.as_slice()[0..end]);
    assert(r@ =~= name@.take(end as int));
    r
}

/// How many hosts of `s` are in Ready.
pub open spec fn count_ready(s: Seq<Host>) -> nat
    decreases s.len(),
{
    if s.len() == 0 {
        0
    } else {
        (count_ready(s.drop_last()) + (if s.last().cp.state is Ready {
            1nat
        } else {
            0nat
        })) as nat
    }
}

/// How many hosts of `s` are in Done.
pub open spec fn count_done(s: Seq<Host>) -> nat
    decreases s.len(),
{
    if s.len() == 0 {
        0
    } else {
        (count_done(s.drop_last()) + (if s.last().cp.state is Done {
            1nat
        } else {
            0nat
        })) as nat
    }
}

/// The `--> pid NAME` lines of every Running host, in table order.
pub open spec fn spec_running_lines(hosts: Seq<Host>, colorize: bool) -> Seq<u8>
    decreases hosts.len(),
{
    let magenta = if colorize {
        Color::Magenta
    } else {
        Color::Empty
    };
    if hosts.len() == 0 {
        Seq::empty()
    } else {
        (if hosts[0].cp.state is Running {
            "--> pid ".spec_bytes() + spec_colorize(
                dec_rep(hosts[0].cp.pid as u64 as nat),
                &magenta,
            ) + " ".spec_bytes() + spec_colorize(hosts[0].name@, &magenta) + "\n".spec_bytes()
        } else {
            Seq::<u8>::empty()
        }) + spec_running_lines(hosts.drop_first(), colorize)
    }
}

/// The status snapshot printed on the user signal: the Ready, Running and
/// Done counts, then one line per Running host.
pub open spec fn spec_status(hosts: Seq<Host>, colorize: bool) -> Seq<u8> {
    let magenta = if colorize {
        Color::Magenta
    } else {
        Color::Empty
    };
    "status: ".spec_bytes() + spec_colorize(dec_rep(count_ready(hosts)), &magenta)
        + " ready, ".spec_bytes() + spec_colorize(dec_rep(count_running(hosts)), &magenta)
        + " running, ".spec_bytes() + spec_colorize(dec_rep(count_done(hosts)), &magenta)
        + " finished (".spec_bytes() + spec_colorize(dec_rep(hosts.len()), &magenta)
        + " total)\n".spec_bytes() + (if count_running(hosts) > 0 {
        "running processes:\n".spec_bytes() + spec_running_lines(hosts, colorize)
    } else {
        Seq::<u8>::empty()
    })
}

/// Render the status snapshot of the host table.
pub fn render_status(hosts: &Vec<Host>, colorize: bool) -> (out: Vec<u8>)
    ensures
        out@ == spec_status(hosts@, colorize),
{
    let magenta = if colorize {
        Color::Magenta
    } else {
        Color::Empty
    };
    let n = hosts.len();
    let mut ready: usize = 0;
    let mut running: usize = 0;
    let mut done: usize = 0;
    let mut i: usize = 0;
    while i < n
        invariant
            i <= n,
            n == hosts@.len(),
            ready == count_ready(hosts@.take(i as int)),
            running == count_running(hosts@.take(i as int)),
            done == count_done(hosts@.take(i as int)),
            ready <= i && running <= i && done <= i,
        decreases n - i,
    {
        proof {
            assert(hosts@.take(i + 1).drop_last() =~= hosts@.take(i as int));
            assert(hosts@.take(i + 1).last() == hosts@[i as int]);
        }
        match hosts[i].cp.state {
            CpState::Ready => ready += 1,
            CpState::Running => running += 1,
            CpState::Done => done += 1,
        }
        i += 1;
    }
    proof {
        assert(hosts@.take(n as int) =~= hosts@);
    }
    let mut out: Vec<u8> = Vec::new();
    push_all(&mut out, "status: ".as_bytes());
    let d1 = u64_to_dec(ready as u64);
    push_colorized(&mut out, d1.as_slice(), &magenta);
    push_all(&mut out, " ready, ".as_bytes());
    let d2 = u64_to_dec(running as u64);
    push_colorized(&mut out, d2.as_slice(), &magenta);
    push_all(&mut out, " running, ".as_bytes());
    let d3 = u64_to_dec(done as u64);
    push_colorized(&mut out, d3.as_slice(), &magenta);
    push_all(&mut out, " finished (".as_bytes());
    let d4 = u64_to_dec(n as u64);
    push_colorized(&mut out, d4.as_slice(), &magenta);
    push_all(&mut out, " total)\n".as_bytes());
    if running > 0 {
        push_all(&mut out, "running processes:\n".as_bytes());
        let ghost base = out@;
        let ghost mut lines_done: Seq<u8> = Seq::empty();
        proof {
            assert(hosts@.skip(0) =~= hosts@);
            assert(out@ =~= base + lines_done);
            assert(lines_done + spec_running_lines(hosts@, colorize) =~= spec_running_lines(
                hosts@,
                colorize,
            ));
        }
        let mut i: usize = 0;
        while i < n
            invariant
                i <= n,
                n == hosts@.len(),
                magenta == (if colorize {
                    Color::Magenta
                } else {
                    Color::Empty
                }),
                out@ == base + lines_done,
                lines_done + spec_running_lines(hosts@.skip(i as int), colorize)
                    == spec_running_lines(hosts@, colorize),
            decreases n - i,
        {
            let ghost rem = hosts@.skip(i as int);
            proof {
                assert(rem[0] == hosts@[i as int]);
                assert(rem.drop_first() =~= hosts@.skip(i + 1));
            }
            if matches!(hosts[i].cp.state, CpState::Running) {
                push_all(&mut out, "--> pid ".as_bytes());
                let pd = u64_to_dec(hosts[i].cp.pid as u64);
                push_colorized(&mut out, pd.as_slice(), &magenta);
                push_all(&mut out, " ".as_bytes());
                push_colorized(&mut out, hosts[i].name.as_slice(), &magenta);
                push_all(&mut out, "\n".as_bytes());
                proof {
                    lines_done = lines_done + ("--> pid ".spec_bytes() + spec_colorize(
                        dec_rep(hosts@[i as int].cp.pid as u64 as nat),
                        &magenta,
                    ) + " ".spec_bytes() + spec_colorize(hosts@[i as int].name@, &magenta)
                        + "\n".spec_bytes());
                    assert(out@ =~= base + lines_done);
                    assert(lines_done + spec_running_lines(hosts@.skip(i + 1), colorize)
                        =~= spec_running_lines(hosts@, colorize));
                }
            } else {
                proof {
                    assert(Seq::<u8>::empty() + spec_running_lines(hosts@.skip(i + 1), colorize)
                        =~= spec_running_lines(hosts@.skip(i + 1), colorize));
                }
            }
            i += 1;
        }
        proof {
            assert(hosts@.skip(n as int) =~= Seq::<Host>::empty());
            assert(lines_done + Seq::<u8>::empty() =~= lines_done);
        }
    }
    assert(out@ =~= spec_status(hosts@, colorize));
    out
}

} // verus!
