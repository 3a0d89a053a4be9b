//! Per-stream buffering and the three output disciplines.
//!
//! One [`FdEvent`] record exists for each open pipe read end.  Line mode
//! buffers bytes until a newline (or the line cap) and emits one prefixed
//! line at a time; join mode accumulates sanitised bytes up to the output
//! cap; group mode passes chunks through, writing a stanza whenever the
//! emitting host changes.

use vstd::prelude::*;
use vstd::string::*;
use crate::bytes::push_all;
use crate::color::{color_code, push_colorized, spec_colorize, Color};

verus! {

/// Which stream of the child a record reads.
#[derive(Clone, Copy, PartialEq, Eq, Structural, Debug)]
pub enum PipeType {
    StdOut,
    StdErr,
    StdIO,
}

/// The per-open-descriptor stream buffer: the host it belongs to (an index
/// into the supervisor's host table), the descriptor read, the accumulator,
/// and the stream kind.
pub struct FdEvent {
    pub host: usize,
    pub fd: i32,
    pub buffer: Vec<u8>,
    pub kind: PipeType,
}

/// Non-ASCII bytes are replaced by `?` in line and join mode.
pub open spec fn sanitize_byte(b: u8) -> u8 {
    if b < 128 {
        b
    } else {
        63
    }
}

/// The colour of a stream kind: stdout green, stderr red.
pub open spec fn spec_kind_color(kind: PipeType, colorize: bool) -> Color {
    if !colorize {
        Color::Empty
    } else {
        match kind {
            PipeType::StdOut => Color::Green,
            PipeType::StdErr => Color::Red,
            PipeType::StdIO => Color::Reset,
        }
    }
}

/// The colour of a stream kind.
pub fn kind_color(kind: PipeType, colorize: bool) -> (r: Color)
    ensures
        r == spec_kind_color(kind, colorize),
{
    if !colorize {
        Color::Empty
    } else {
        match kind {
            PipeType::StdOut => Color::Green,
            PipeType::StdErr => Color::Red,
            PipeType::StdIO => Color::Reset,
        }
    }
}

/// The `[hostname] ` prefix of a line, coloured cyan.
pub open spec fn spec_line_prefix(name: Seq<u8>, colorize: bool) -> Seq<u8> {
    "[".spec_bytes() + spec_colorize(
        name,
        &(if colorize {
            Color::Cyan
        } else {
            Color::Empty
        }),
    ) + "] ".spec_bytes()
}

/// One rendered line: the prefix unless anonymous, then the line coloured by
/// its stream kind, with a newline added when the line does not bring one.
pub open spec fn spec_render_line(
    name: Seq<u8>,
    kind: PipeType,
    anon: bool,
    colorize: bool,
    line: Seq<u8>,
) -> Seq<u8> {
    let body = if line.len() > 0 && line.last() == 10 {
        spec_colorize(line, &spec_kind_color(kind, colorize))
    } else {
        spec_colorize(line, &spec_kind_color(kind, colorize)) + "\n".spec_bytes()
    };
    if anon {
        body
    } else {
        spec_line_prefix(name, colorize) + body
    }
}

/// Anonymous mode drops exactly the `[hostname] ` prefix from each rendered
/// line; the body is unchanged.
pub proof fn lemma_anonymous_line(
    name: Seq<u8>,
    kind: PipeType,
    colorize: bool,
    line: Seq<u8>,
)
    ensures
        spec_render_line(name, kind, false, colorize, line) == spec_line_prefix(name, colorize)
            + spec_render_line(name, kind, true, colorize, line),
{
}

/// Append one rendered line onto `out`.
fn push_rendered_line(
    out: &mut Vec<u8>,
    name: &[u8],
    kind: PipeType,
    anon: bool,
    colorize: bool,
    line: &[u8],
)
    ensures
        final(out)@ == old(out)@ + spec_render_line(name@, kind, anon, colorize, line@),
{
    if !anon {
        push_all(out, "[".as_bytes());
        let cyan = if colorize {
            Color::Cyan
        } else {
            Color::Empty
        };
        push_colorized(out, name, &cyan);
        push_all(out, "] ".as_bytes());
    }
    push_colorized(out, line, &kind_color(kind, colorize));
    let needs_nl = line.len() == 0 || line[line.len() - 1] != 10;
    if needs_nl {
        push_all(out, "\n".as_bytes());
    }
    assert(out@ =~= old(out)@ + spec_render_line(name@, kind, anon, colorize, line@));
}

/// One byte of line-mode processing: the new accumulator and the lines that
/// the byte completes.  A newline completes the line; a line that reaches
/// `max` bytes without one is force-completed with an added newline.
pub open spec fn line_step(buf: Seq<u8>, b: u8, max: nat) -> (Seq<u8>, Seq<Seq<u8>>) {
    let buf1 = buf.push(sanitize_byte(b));
    if b == 10 {
        (Seq::empty(), seq![buf1])
    } else if buf1.len() == max {
        (Seq::empty(), seq![buf1.push(10)])
    } else {
        (buf1, Seq::empty())
    }
}

/// Line-mode processing of a whole chunk, front to back.
pub open spec fn line_fold(buf: Seq<u8>, input: Seq<u8>, max: nat) -> (Seq<u8>, Seq<Seq<u8>>)
    decreases input.len(),
{
    if input.len() == 0 {
        (buf, Seq::empty())
    } else {
        let (b1, l1) = line_step(buf, input[0], max);
        let (b2, l2) = line_fold(b1, input.drop_first(), max);
        (b2, l1 + l2)
    }
}

/// Every line that line mode completes stays within the cap plus its
/// terminator, and the residual accumulator stays under the cap.
pub proof fn lemma_line_cap(buf: Seq<u8>, input: Seq<u8>, max: nat)
    requires
        buf.len() < max,
        max >= 1,
    ensures
        line_fold(buf, input, max).0.len() < max,
        forall|i: int|
            0 <= i < line_fold(buf, input, max).1.len() ==> #[trigger] line_fold(
                buf,
                input,
                max,
            ).1[i].len() <= max + 1,
    decreases input.len(),
{
    if input.len() > 0 {
        let (b1, l1) = line_step(buf, input[0], max);
        lemma_line_cap(b1, input.drop_first(), max);
        let (b2, l2) = line_fold(b1, input.drop_first(), max);
        assert(forall|i: int| 0 <= i < l1.len() ==> #[trigger] l1[i].len() <= max + 1);
        assert(forall|i: int|
            0 <= i < (l1 + l2).len() ==> #[trigger] (l1 + l2)[i].len() <= max + 1) by {
            assert(forall|i: int|
                0 <= i < (l1 + l2).len() ==> (l1 + l2)[i] == (if i < l1.len() {
                    l1[i]
                } else {
                    l2[i - l1.len()]
                }));
        }
    }
}

/// The lines of a chunk, rendered in order.
pub open spec fn spec_render_lines(
    name: Seq<u8>,
    kind: PipeType,
    anon: bool,
    colorize: bool,
    lines: Seq<Seq<u8>>,
) -> Seq<u8>
    decreases lines.len(),
{
    if lines.len() == 0 {
        Seq::empty()
    } else {
        spec_render_line(name, kind, anon, colorize, lines[0]) + spec_render_lines(
            name,
            kind,
            anon,
            colorize,
            lines.drop_first(),
        )
    }
}

proof fn lemma_render_lines_push(
    name: Seq<u8>,
    kind: PipeType,
    anon: bool,
    colorize: bool,
    lines: Seq<Seq<u8>>,
    l: Seq<u8>,
)
    ensures
        spec_render_lines(name, kind, anon, colorize, lines.push(l)) == spec_render_lines(
            name,
            kind,
            anon,
            colorize,
            lines,
        ) + spec_render_line(name, kind, anon, colorize, l),
    decreases lines.len(),
{
    assert(lines.push(l).len() == lines.len() + 1);
    assert(spec_render_lines(name, kind, anon, colorize, lines.push(l)) == spec_render_line(
        name,
        kind,
        anon,
        colorize,
        lines.push(l)[0],
    ) + spec_render_lines(name, kind, anon, colorize, lines.push(l).drop_first()));
    if lines.len() == 0 {
        assert(lines.push(l).drop_first() =~= Seq::<Seq<u8>>::empty());
        assert(lines.push(l)[0] == l);
        assert(spec_render_lines(name, kind, anon, colorize, Seq::<Seq<u8>>::empty())
            == Seq::<u8>::empty());
        assert(spec_render_line(name, kind, anon, colorize, l) + Seq::<u8>::empty()
            =~= spec_render_line(name, kind, anon, colorize, l));
        assert(Seq::<u8>::empty() + spec_render_line(name, kind, anon, colorize, l)
            =~= spec_render_line(name, kind, anon, colorize, l));
    } else {
        assert(lines.push(l).drop_first() =~= lines.drop_first().push(l));
        assert(lines.push(l)[0] == lines[0]);
        lemma_render_lines_push(name, kind, anon, colorize, lines.drop_first(), l);
        assert(spec_render_line(name, kind, anon, colorize, lines[0]) + (spec_render_lines(
            name,
            kind,
            anon,
            colorize,
            lines.drop_first(),
        ) + spec_render_line(name, kind, anon, colorize, l)) =~= (spec_render_line(
            name,
            kind,
            anon,
            colorize,
            lines[0],
        ) + spec_render_lines(name, kind, anon, colorize, lines.drop_first()))
            + spec_render_line(name, kind, anon, colorize, l));
    }
}

/// Process one chunk in line mode: buffer bytes, emit each completed line
/// rendered with the host prefix and stream colour.
pub fn process_line_chunk(
    buf: &mut Vec<u8>,
    input: &[u8],
    max: u16,
    name: &[u8],
    kind: PipeType,
    anon: bool,
    colorize: bool,
) -> (out: Vec<u8>)
    requires
        old(buf)@.len() < max,
        max >= 1,
    ensures
        final(buf)@ == line_fold(old(buf)@, input@, max as nat).0,
        final(buf)@.len() < max,
        out@ == spec_render_lines(
            name@,
            kind,
            anon,
            colorize,
            line_fold(old(buf)@, input@, max as nat).1,
        ),
{
    let ghost buf0 = buf@;
    let mut out: Vec<u8> = Vec::new();
    let ghost done: Seq<Seq<u8>> = Seq::empty();
    let mut done_lines: Ghost<Seq<Seq<u8>>> = Ghost(Seq::empty());
    let mut i: usize = 0;
    proof {
        assert(input@.skip(0) =~= input@);
    }
    while i < input.len()
        invariant
            i <= input@.len(),
            buf@.len() < max,
            max >= 1,
            out@ == spec_render_lines(name@, kind, anon, colorize, done_lines@),
            line_fold(buf0, input@, max as nat) == ({
                let (rb, rl) = line_fold(buf@, input@.skip(i as int), max as nat);
                (rb, done_lines@ + rl)
            }),
        decreases input@.len() - i,
    {
        let b = input[i];
        let c: u8 = if b < 128 {
            b
        } else {
            63
        };
        let ghost rem = input@.skip(i as int);
        proof {
            assert(rem[0] == b);
            assert(rem.drop_first() =~= input@.skip(i + 1));
        }
        buf.push(c);
        if b == 10 {
            push_rendered_line(&mut out, name, kind, anon, colorize, buf.as_slice());
            proof {
                lemma_render_lines_push(name@, kind, anon, colorize, done_lines@, buf@);
                assert((done_lines@.push(buf@)) + line_fold(
                    Seq::<u8>::empty(),
                    input@.skip(i + 1),
                    max as nat,
                ).1 =~= done_lines@ + (seq![buf@] + line_fold(
                    Seq::<u8>::empty(),
                    input@.skip(i + 1),
                    max as nat,
                ).1));
            }
            done_lines = Ghost(done_lines@.push(buf@));
            buf.clear();
        } else if buf.len() == max as usize {
            buf.push(10);
            push_rendered_line(&mut out, name, kind, anon, colorize, buf.as_slice());
            proof {
                lemma_render_lines_push(name@, kind, anon, colorize, done_lines@, buf@);
                assert((done_lines@.push(buf@)) + line_fold(
                    Seq::<u8>::empty(),
                    input@.skip(i + 1),
                    max as nat,
                ).1 =~= done_lines@ + (seq![buf@] + line_fold(
                    Seq::<u8>::empty(),
                    input@.skip(i + 1),
                    max as nat,
                ).1));
            }
            done_lines = Ghost(done_lines@.push(buf@));
            buf.clear();
        } else {
            proof {
                assert(done_lines@ + (Seq::<Seq<u8>>::empty() + line_fold(
                    buf@,
                    input@.skip(i + 1),
                    max as nat,
                ).1) =~= done_lines@ + line_fold(buf@, input@.skip(i + 1), max as nat).1);
            }
        }
        i += 1;
    }
    proof {
        assert(input@.skip(input@.len() as int) =~= Seq::<u8>::empty());
        assert(done_lines@ + Seq::<Seq<u8>>::empty() =~= done_lines@);
    }
    out
}

/// Flush the residual line-mode buffer at end of stream: nothing when it is
/// empty, otherwise one rendered line.
pub fn output_line_buf(
    buf: &mut Vec<u8>,
    name: &[u8],
    kind: PipeType,
    anon: bool,
    colorize: bool,
) -> (out: Vec<u8>)
    ensures
        final(buf)@ == Seq::<u8>::empty(),
        out@ == (if old(buf)@.len() == 0 {
            Seq::<u8>::empty()
        } else {
            spec_render_line(name@, kind, anon, colorize, old(buf)@)
        }),
{
    let mut out: Vec<u8> = Vec::new();
    if buf.len() > 0 {
        push_rendered_line(&mut out, name, kind, anon, colorize, buf.as_slice());
    }
    buf.clear();
    out
}

/// Join-mode accumulation: sanitised bytes are appended until the output cap
/// is reached; the excess is dropped.
pub open spec fn join_fold(buf: Seq<u8>, input: Seq<u8>, max: nat) -> Seq<u8> {
    let room = if buf.len() >= max {
        0
    } else {
        max - buf.len()
    };
    let taken = if input.len() <= room {
        input.len() as int
    } else {
        room
    };
    buf + input.take(taken).map_values(|b: u8| sanitize_byte(b))
}

/// Process one chunk in join mode.
pub fn process_join_chunk(buf: &mut Vec<u8>, input: &[u8], max: u16)
    requires
        old(buf)@.len() <= max,
    ensures
        final(buf)@ == join_fold(old(buf)@, input@, max as nat),
        final(buf)@.len() <= max,
{
    let ghost buf0 = buf@;
    let mut i: usize = 0;
    while i < input.len() && buf.len() < max as usize
        invariant
            i <= input@.len(),
            buf@.len() <= max,
            buf@ == buf0 + input@.take(i as int).map_values(|b: u8| sanitize_byte(b)),
            buf@.len() < max ==> buf@.len() == buf0.len() + i,
            buf@.len() == max ==> buf0.len() + i >= max,
        decreases input@.len() - i,
    {
        let b = input[i];
        let c: u8 = if b < 128 {
            b
        } else {
            63
        };
        buf.push(c);
        proof {
            assert(input@.take(i + 1).map_values(|b: u8| sanitize_byte(b)) =~= input@.take(
                i as int,
            ).map_values(|b: u8| sanitize_byte(b)).push(sanitize_byte(input@[i as int])));
            assert(buf@ =~= buf0 + input@.take(i + 1).map_values(|b: u8| sanitize_byte(b)));
        }
        i += 1;
    }
    proof {
        let room: int = if buf0.len() >= max {
            0
        } else {
            max - buf0.len()
        };
        let taken: int = if input@.len() <= room {
            input@.len() as int
        } else {
            room
        };
        assert(taken == i);
        assert(buf@ =~= join_fold(buf0, input@, max as nat));
    }
}

/// The join-mode output of a stream at end of stream: the accumulator, with
/// one newline appended when it is non-empty, does not already end in one,
/// and is under the cap.
pub open spec fn join_finalize(buf: Seq<u8>, max: nat) -> Seq<u8> {
    if buf.len() > 0 && buf.last() != 10 && buf.len() < max {
        buf.push(10)
    } else {
        buf
    }
}

/// A finalised join-mode output never exceeds the output cap.
pub proof fn lemma_join_output_cap(buf: Seq<u8>, max: nat)
    requires
        buf.len() <= max,
    ensures
        join_finalize(buf, max).len() <= max,
{
}

/// Take the join-mode accumulator at end of stream, newline-terminated when
/// apt; the buffer is left empty.
pub fn output_join_buf(buf: &mut Vec<u8>, max: u16) -> (out: Vec<u8>)
    requires
        old(buf)@.len() <= max,
    ensures
        out@ == join_finalize(old(buf)@, max as nat),
        out@.len() <= max,
        final(buf)@ == Seq::<u8>::empty(),
{
    let mut out: Vec<u8> = Vec::new();
    push_all(&mut out, buf.as_slice());
    assert(out@ =~= old(buf)@);
    if out.len() > 0 && out[out.len() - 1] != 10 && out.len() < max as usize {
        out.push(10);
    }
    buf.clear();
    proof {
        lemma_join_output_cap(old(buf)@, max as nat);
    }
    out
}

/// What group mode writes for one chunk: a stanza when the emitting host
/// changed (with a separating newline when the previous chunk left the line
/// open), then the raw chunk coloured by stream kind.
pub open spec fn group_render(
    name: Seq<u8>,
    kind: PipeType,
    chunk: Seq<u8>,
    last_name: Option<Seq<u8>>,
    last_nl: bool,
    anon: bool,
    colorize: bool,
) -> Seq<u8> {
    let stanza = match last_name {
        Option::None => true,
        Option::Some(n) => n != name,
    };
    let head = if stanza {
        (if !last_nl {
            "\n".spec_bytes()
        } else {
            Seq::<u8>::empty()
        }) + (if !anon {
            "[".spec_bytes() + spec_colorize(
                name,
                &(if colorize {
                    Color::Cyan
                } else {
                    Color::Empty
                }),
            ) + "]\n".spec_bytes()
        } else {
            Seq::<u8>::empty()
        })
    } else {
        Seq::<u8>::empty()
    };
    head + color_code(&spec_kind_color(kind, colorize)) + chunk + (if colorize {
        color_code(&Color::Reset)
    } else {
        Seq::<u8>::empty()
    })
}

/// Anonymous group mode drops exactly the `[hostname]` stanza line; the
/// separating newline and the chunk are unchanged.
pub proof fn lemma_anonymous_group(
    name: Seq<u8>,
    kind: PipeType,
    chunk: Seq<u8>,
    last_name: Option<Seq<u8>>,
    last_nl: bool,
    colorize: bool,
)
    ensures
        ({
            let stanza = match last_name {
                Option::None => true,
                Option::Some(n) => n != name,
            };
            let nl = if stanza && !last_nl {
                "\n".spec_bytes()
            } else {
                Seq::<u8>::empty()
            };
            let name_line = if stanza {
                "[".spec_bytes() + spec_colorize(
                    name,
                    &(if colorize {
                        Color::Cyan
                    } else {
                        Color::Empty
                    }),
                ) + "]\n".spec_bytes()
            } else {
                Seq::<u8>::empty()
            };
            let body = color_code(&spec_kind_color(kind, colorize)) + chunk + (if colorize {
                color_code(&Color::Reset)
            } else {
                Seq::<u8>::empty()
            });
            group_render(name, kind, chunk, last_name, last_nl, false, colorize) == nl + name_line
                + body && group_render(name, kind, chunk, last_name, last_nl, true, colorize) == nl
                + body
        }),
{
    let stanza = match last_name {
        Option::None => true,
        Option::Some(n) => n != name,
    };
    if stanza {
        assert(group_render(name, kind, chunk, last_name, last_nl, true, colorize) =~= (if !last_nl {
            "\n".spec_bytes()
        } else {
            Seq::<u8>::empty()
        }) + (color_code(&spec_kind_color(kind, colorize)) + chunk + (if colorize {
            color_code(&Color::Reset)
        } else {
            Seq::<u8>::empty()
        })));
        assert(group_render(name, kind, chunk, last_name, last_nl, false, colorize) =~= (if !last_nl {
            "\n".spec_bytes()
        } else {
            Seq::<u8>::empty()
        }) + ("[".spec_bytes() + spec_colorize(
            name,
            &(if colorize {
                Color::Cyan
            } else {
                Color::Empty
            }),
        ) + "]\n".spec_bytes()) + (color_code(&spec_kind_color(kind, colorize)) + chunk + (
        if colorize {
            color_code(&Color::Reset)
        } else {
            Seq::<u8>::empty()
        })));
    } else {
        assert(Seq::<u8>::empty() + Seq::<u8>::empty() =~= Seq::<u8>::empty());
        assert(group_render(name, kind, chunk, last_name, last_nl, false, colorize) =~= Seq::<
            u8,
        >::empty() + Seq::<u8>::empty() + (color_code(&spec_kind_color(kind, colorize)) + chunk + (
        if colorize {
            color_code(&Color::Reset)
        } else {
            Seq::<u8>::empty()
        })));
    }
}

/// Render one group-mode chunk.
pub fn process_group_chunk(
    name: &[u8],
    kind: PipeType,
    chunk: &[u8],
    last_name: &Option<Vec<u8>>,
    last_nl: bool,
    anon: bool,
    colorize: bool,
) -> (out: Vec<u8>)
    ensures
        out@ == group_render(
            name@,
            kind,
            chunk@,
            match last_name {
                Option::Some(n) => Option::Some(n@),
                Option::None => Option::None,
            },
            last_nl,
            anon,
            colorize,
        ),
{
    let mut out: Vec<u8> = Vec::new();
    let stanza = match last_name {
        Option::None => true,
        Option::Some(n) => !crate::bytes::bytes_eq(n.as_slice(), name),
    };
    if stanza {
        if !last_nl {
            push_all(&mut out, "\n".as_bytes());
        }
        if !anon {
            push_all(&mut out, "[".as_bytes());
            let cyan = if colorize {
                Color::Cyan
            } else {
                Color::Empty
            };
            push_colorized(&mut out, name, &cyan);
            push_all(&mut out, "]\n".as_bytes());
        }
    }
    let kc = kind_color(kind, colorize);
    push_all(&mut out, kc.as_str().as_bytes());
    push_all(&mut out, chunk);
    if colorize {
        push_all(&mut out, Color::Reset.as_str().as_bytes());
    }
    assert(out@ =~= group_render(
        name@,
        kind,
        chunk@,
        match last_name {
            Option::Some(n) => Option::Some(n@),
            Option::None => Option::None,
        },
        last_nl,
        anon,
        colorize,
    ));
    out
}

} // verus!
