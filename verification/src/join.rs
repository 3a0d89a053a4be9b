//! Join-mode finalisation: hash every host's output with a seeded 64-bit
//! digest, group the hosts whose outputs hashed alike, and render one stanza
//! per equivalence class.

use vstd::prelude::*;
use vstd::string::*;
use crate::bytes::{dec_rep, push_all, u64_to_dec};
use crate::color::{push_colorized, spec_colorize, Color};
use crate::hosts::Host;

verus! {

/// The 64-bit digest that `twox_hash::XxHash64::oneshot` computes for a seed
/// and a byte sequence; it depends on those alone.
pub uninterp spec fn xxhash64_of(seed: u64, data: Seq<u8>) -> u64;

/// Hash bytes with the seeded 64-bit digest.
///
/// Relies on twox_hash's `XxHash64::oneshot`: its result is a function of the
/// seed and the input bytes alone, named here [`xxhash64_of`].
#[verifier::external_body]
fn xxhash64(seed: u64, data: &[u8]) -> (r: u64)
    ensures
        r == xxhash64_of(seed, data@),
{
    twox_hash::XxHash64::oneshot(seed, data)
}

/// A seed for the output digest.
///
/// Relies on rand's `OsRng`: a value drawn from the operating system's random
/// source; nothing is promised of it.
#[verifier::external_body]
pub fn generate_seed() -> u64 {
    <rand::rngs::OsRng as rand::Rng>::gen(&mut rand::rngs::OsRng)
}

/// The group among `gs` whose representative (first member) hashed to `h`, or
/// `gs.len()` when none did.
pub open spec fn find_group(gs: Seq<Seq<usize>>, hashes: Seq<u64>, h: u64) -> nat
    decreases gs.len(),
{
    if gs.len() == 0 {
        0
    } else if gs[0].len() > 0 && gs[0][0] < hashes.len() && hashes[gs[0][0] as int] == h {
        0
    } else {
        (1 + find_group(gs.drop_first(), hashes, h)) as nat
    }
}

pub proof fn lemma_find_group(gs: Seq<Seq<usize>>, hashes: Seq<u64>, h: u64)
    ensures
        0 <= find_group(gs, hashes, h) <= gs.len(),
        forall|k: int|
            0 <= k < find_group(gs, hashes, h) ==> !((#[trigger] gs[k]).len() > 0 && gs[k][0]
                < hashes.len() && hashes[gs[k][0] as int] == h),
        find_group(gs, hashes, h) < gs.len() ==> ({
            let g = gs[find_group(gs, hashes, h) as int];
            g.len() > 0 && g[0] < hashes.len() && hashes[g[0] as int] == h
        }),
    decreases gs.len(),
{
    if gs.len() > 0 && !(gs[0].len() > 0 && gs[0][0] < hashes.len() && hashes[gs[0][0] as int]
        == h) {
        lemma_find_group(gs.drop_first(), hashes, h);
        assert(forall|k: int| 1 <= k < gs.len() ==> gs[k] == gs.drop_first()[k - 1]);
    }
}

/// The groups of the first `i` hosts, in order of first appearance: a host
/// joins the group whose representative hashed alike, else founds a new one.
pub open spec fn groups_rec(hashes: Seq<u64>, i: int) -> Seq<Seq<usize>>
    decreases i,
{
    if i <= 0 {
        Seq::empty()
    } else {
        let gs = groups_rec(hashes, i - 1);
        let g = find_group(gs, hashes, hashes[i - 1]);
        if g < gs.len() {
            gs.update(g as int, gs[g as int].push((i - 1) as usize))
        } else {
            gs.push(seq![(i - 1) as usize])
        }
    }
}

/// The group that host `i` lands in.
pub open spec fn group_of(hashes: Seq<u64>, i: int) -> nat {
    find_group(groups_rec(hashes, i), hashes, hashes[i])
}

/// Groups are non-empty and hold indices below `i`.
pub open spec fn groups_wf(gs: Seq<Seq<usize>>, i: int) -> bool {
    forall|k: int|
        0 <= k < gs.len() ==> (#[trigger] gs[k]).len() > 0 && (forall|m: int|
            0 <= m < gs[k].len() ==> (#[trigger] gs[k][m]) < i)
}

proof fn lemma_groups_rec_wf(hashes: Seq<u64>, i: int)
    requires
        0 <= i <= hashes.len(),
    ensures
        groups_wf(groups_rec(hashes, i), i),
        groups_rec(hashes, i).len() <= i,
    decreases i,
{
    if i > 0 {
        lemma_groups_rec_wf(hashes, i - 1);
        let gs = groups_rec(hashes, i - 1);
        let g = find_group(gs, hashes, hashes[i - 1]);
        lemma_find_group(gs, hashes, hashes[i - 1]);
        if g < gs.len() {
            let gs2 = gs.update(g as int, gs[g as int].push((i - 1) as usize));
            assert(forall|k: int|
                0 <= k < gs2.len() && k != g ==> (#[trigger] gs2[k]) == gs[k]);
            assert(gs2[g as int].len() > 0);
            assert(forall|m: int|
                0 <= m < gs2[g as int].len() ==> (#[trigger] gs2[g as int][m]) < i) by {
                assert(forall|m: int|
                    0 <= m < gs[g as int].len() ==> (#[trigger] gs[g as int][m]) < i - 1);
            }
        }
    }
}

/// The hashes of every host's output under `seed`.
pub open spec fn output_hashes(hosts: Seq<Host>, seed: u64) -> Seq<u64> {
    Seq::new(hosts.len(), |i: int| xxhash64_of(seed, hosts[i].cp.output_buffer@))
}

/// ` host` for each member of a group, names coloured cyan.
pub open spec fn cat_group_names(hosts: Seq<Host>, g: Seq<usize>, colorize: bool) -> Seq<u8>
    decreases g.len(),
{
    if g.len() == 0 {
        Seq::empty()
    } else {
        " ".spec_bytes() + spec_colorize(
            hosts[g[0] as int].name@,
            &(if colorize {
                Color::Cyan
            } else {
                Color::Empty
            }),
        ) + cat_group_names(hosts, g.drop_first(), colorize)
    }
}

/// One stanza: the member count over the total, the member names, and the
/// shared output (of the group's last member) or the empty-output mark.
pub open spec fn spec_stanza(hosts: Seq<Host>, g: Seq<usize>, total: nat, colorize: bool) -> Seq<
    u8,
> {
    let magenta = if colorize {
        Color::Magenta
    } else {
        Color::Empty
    };
    let outp = hosts[g.last() as int].cp.output_buffer@;
    let body = if outp.len() == 0 {
        spec_colorize("- no output -".spec_bytes(), &magenta)
    } else {
        "\n".spec_bytes() + outp + (if outp.last() != 10 {
            "\n".spec_bytes()
        } else {
            Seq::<u8>::empty()
        })
    };
    "hosts (".spec_bytes() + spec_colorize(dec_rep(g.len()), &magenta) + "/".spec_bytes()
        + spec_colorize(dec_rep(total), &magenta) + "):".spec_bytes() + cat_group_names(
        hosts,
        g,
        colorize,
    ) + body + "\n".spec_bytes()
}

/// The stanzas of all groups, in first-appearance order.
pub open spec fn spec_stanzas(
    hosts: Seq<Host>,
    gs: Seq<Seq<usize>>,
    total: nat,
    colorize: bool,
) -> Seq<u8>
    decreases gs.len(),
{
    if gs.len() == 0 {
        Seq::empty()
    } else {
        spec_stanza(hosts, gs[0], total, colorize) + spec_stanzas(
            hosts,
            gs.drop_first(),
            total,
            colorize,
        )
    }
}

/// The whole join-mode summary: the unique-result count, then one stanza per
/// group of hosts whose outputs hashed alike under `seed`.
pub open spec fn spec_join_summary(hosts: Seq<Host>, seed: u64, colorize: bool) -> Seq<u8> {
    let hashes = output_hashes(hosts, seed);
    let gs = groups_rec(hashes, hosts.len() as int);
    let magenta = if colorize {
        Color::Magenta
    } else {
        Color::Empty
    };
    "finished with ".spec_bytes() + spec_colorize(dec_rep(gs.len()), &magenta)
        + " unique result".spec_bytes() + (if gs.len() == 1 {
        Seq::<u8>::empty()
    } else {
        "s".spec_bytes()
    }) + "\n\n".spec_bytes() + spec_stanzas(hosts, gs, hosts.len(), colorize)
}

/// Group the hosts by the digest of their outputs under `seed`, record each
/// host's group in its `output_index`, and render the summary.
#[verifier::rlimit(100)]
pub fn finish_join_seeded(hosts: &mut Vec<Host>, seed: u64, colorize: bool) -> (out: Vec<u8>)
    requires
        old(hosts)@.len() < 0x7fff_ffff,
    ensures
        out@ == spec_join_summary(old(hosts)@, seed, colorize),
        final(hosts)@.len() == old(hosts)@.len(),
        forall|i: int|
            0 <= i < old(hosts)@.len() ==> {
                let h0 = old(hosts)@[i];
                let h1 = #[trigger] final(hosts)@[i];
                &&& h1.name@ == h0.name@
                &&& h1.cp.output_buffer@ == h0.cp.output_buffer@
                &&& h1.cp.state == h0.cp.state
                &&& h1.cp.pid == h0.cp.pid
                &&& h1.cp.exit_code == h0.cp.exit_code
                &&& h1.cp.output_index == group_of(output_hashes(old(hosts)@, seed), i) as i32
            },
{
    let ghost hosts0 = hosts@;
    let n = hosts.len();
    let mut hashes: Vec<u64> = Vec::new();
    let mut i: usize = 0;
    while i < n
        invariant
            i <= n,
            n == hosts@.len(),
            hosts@ == hosts0,
            hashes@.len() == i,
            forall|k: int|
                0 <= k < i ==> hashes@[k] == xxhash64_of(seed, hosts0[k].cp.output_buffer@),
        decreases n - i,
    {
        let h = xxhash64(seed, hosts[i].cp.output_buffer.as_slice());
        hashes.push(h);
        i += 1;
    }
    proof {
        assert(hashes@ =~= output_hashes(hosts0, seed));
    }
    let ghost hseq = hashes@;
    // group the hosts in order of first appearance
    let mut groups: Vec<Vec<usize>> = Vec::new();
    let mut i: usize = 0;
    while i < n
        invariant
            i <= n,
            n == hosts@.len(),
            n == hseq.len(),
            hosts@.len() == hosts0.len(),
            n < 0x7fff_ffff,
            groups@.map_values(|g: Vec<usize>| g@) == groups_rec(hseq, i as int),
            groups@.len() <= i,
            hashes@ == hseq,
            forall|k: int|
                0 <= k < groups@.len() ==> (#[trigger] groups@[k])@.len() > 0 && (forall|m: int|
                    0 <= m < groups@[k]@.len() ==> (#[trigger] groups@[k]@[m]) < i),
            forall|k: int|
                0 <= k < n ==> {
                    let h0 = hosts0[k];
                    let h1 = #[trigger] hosts@[k];
                    &&& h1.name@ == h0.name@
                    &&& h1.cp.output_buffer@ == h0.cp.output_buffer@
                    &&& h1.cp.state == h0.cp.state
                    &&& h1.cp.pid == h0.cp.pid
                    &&& h1.cp.exit_code == h0.cp.exit_code
                    &&& (k < i ==> h1.cp.output_index == group_of(hseq, k) as i32)
                },
        decreases n - i,
    {
        let ghost gs = groups@.map_values(|g: Vec<usize>| g@);
        let h = hashes[i];
        // search for a group whose representative hashed alike
        let mut j: usize = 0;
        let glen = groups.len();
        while j < glen
            invariant
                j <= glen,
                glen == groups@.len(),
                n == hseq.len(),
                hashes@ == hseq,
                forall|k: int|
                    0 <= k < groups@.len() ==> (#[trigger] groups@[k])@.len() > 0 && (forall|
                        m: int,
                    |
                        0 <= m < groups@[k]@.len() ==> (#[trigger] groups@[k]@[m]) < n),
                forall|k: int|
                    0 <= k < j ==> !((#[trigger] gs[k]).len() > 0 && gs[k][0] < hseq.len()
                        && hseq[gs[k][0] as int] == h),
                gs == groups@.map_values(|g: Vec<usize>| g@),
            ensures
                j <= glen,
                j < glen ==> gs[j as int].len() > 0 && gs[j as int][0] < hseq.len()
                    && hseq[gs[j as int][0] as int] == h,
                forall|k: int|
                    0 <= k < j ==> !((#[trigger] gs[k]).len() > 0 && gs[k][0] < hseq.len()
                        && hseq[gs[k][0] as int] == h),
            decreases glen - j,
        {
            let rep = groups[j][0];
            if hashes[rep] == h {
                proof {
                    assert(gs[j as int] == groups@[j as int]@);
                }
                break ;
            }
            j += 1;
        }
        proof {
            lemma_find_group(gs, hseq, h);
            if j < glen {
                if find_group(gs, hseq, h) < j {
                    let f = find_group(gs, hseq, h) as int;
                    assert(!(gs[f].len() > 0 && gs[f][0] < hseq.len() && hseq[gs[f][0] as int]
                        == h));
                }
                assert(find_group(gs, hseq, h) == j);
            } else {
                assert(find_group(gs, hseq, h) == glen);
            }
            assert(hseq[i as int] == h);
        }
        let gidx: usize;
        if j < glen {
            groups[j].push(i);
            gidx = j;
            proof {
                assert(groups@.map_values(|g: Vec<usize>| g@) =~= gs.update(
                    j as int,
                    gs[j as int].push(i),
                ));
            }
        } else {
            let mut ng: Vec<usize> = Vec::new();
            ng.push(i);
            groups.push(ng);
            gidx = glen;
            proof {
                assert(ng@ =~= seq![i]);
                assert(groups@.map_values(|g: Vec<usize>| g@) =~= gs.push(seq![i]));
            }
        }
        {
            let hm = &mut hosts[i];
            hm.cp.output_index = gidx as i32;
        }
        i += 1;
    }
    proof {
        lemma_groups_rec_wf(hseq, n as int);
    }
    // render the summary over the unchanged names and outputs
    let magenta = if colorize {
        Color::Magenta
    } else {
        Color::Empty
    };
    let cyan = if colorize {
        Color::Cyan
    } else {
        Color::Empty
    };
    let ghost hostsr = hosts@;
    let mut out: Vec<u8> = Vec::new();
    push_all(&mut out, "finished with ".as_bytes());
    let d = u64_to_dec(groups.len() as u64);
    push_colorized(&mut out, d.as_slice(), &magenta);
    push_all(&mut out, " unique result".as_bytes());
    if groups.len() != 1 {
        push_all(&mut out, "s".as_bytes());
    }
    push_all(&mut out, "\n\n".as_bytes());
    let ghost header = out@;
    let ghost gs_all = groups@.map_values(|g: Vec<usize>| g@);
    let ghost mut rendered: Seq<u8> = Seq::empty();
    proof {
        assert(gs_all.skip(0) =~= gs_all);
        assert(out@ =~= header + rendered);
        assert(rendered + spec_stanzas(hosts0, gs_all, n as nat, colorize) =~= spec_stanzas(
            hosts0,
            gs_all,
            n as nat,
            colorize,
        ));
    }
    let mut k: usize = 0;
    while k < groups.len()
        invariant
            k <= groups@.len(),
            n == hosts@.len(),
            n == hosts0.len(),
            hosts@ == hostsr,
            forall|t: int|
                0 <= t < n ==> (#[trigger] hostsr[t]).name@ == hosts0[t].name@
                    && hostsr[t].cp.output_buffer@ == hosts0[t].cp.output_buffer@,
            gs_all == groups@.map_values(|g: Vec<usize>| g@),
            groups_wf(gs_all, n as int),
            cyan == (if colorize {
                Color::Cyan
            } else {
                Color::Empty
            }),
            magenta == (if colorize {
                Color::Magenta
            } else {
                Color::Empty
            }),
            out@ == header + rendered,
            rendered + spec_stanzas(hosts0, gs_all.skip(k as int), n as nat, colorize)
                == spec_stanzas(hosts0, gs_all, n as nat, colorize),
        decreases groups@.len() - k,
    {
        let ghost out_k = out@;
        push_all(&mut out, "hosts (".as_bytes());
        let glen2 = groups[k].len();
        let dg = u64_to_dec(glen2 as u64);
        push_colorized(&mut out, dg.as_slice(), &magenta);
        push_all(&mut out, "/".as_bytes());
        let dt = u64_to_dec(n as u64);
        push_colorized(&mut out, dt.as_slice(), &magenta);
        push_all(&mut out, "):".as_bytes());
        // the member names
        let mut m: usize = 0;
        let ghost gseq = groups@[k as int]@;
        let ghost name_base = out@;
        let ghost mut names_done: Seq<u8> = Seq::empty();
        proof {
            assert(gseq.skip(0) =~= gseq);
            assert(out@ =~= name_base + names_done);
            assert(names_done + cat_group_names(hosts0, gseq, colorize) =~= cat_group_names(
                hosts0,
                gseq,
                colorize,
            ));
            assert(gs_all[k as int] == gseq);
        }
        while m < groups[k].len()
            invariant
                m <= gseq.len(),
                k < groups@.len(),
                groups@[k as int]@ == gseq,
                n == hosts@.len(),
                n == hosts0.len(),
                hosts@ == hostsr,
                forall|t: int|
                    0 <= t < n ==> (#[trigger] hostsr[t]).name@ == hosts0[t].name@
                        && hostsr[t].cp.output_buffer@ == hosts0[t].cp.output_buffer@,
                forall|t: int| 0 <= t < gseq.len() ==> (#[trigger] gseq[t]) < n,
                cyan == (if colorize {
                    Color::Cyan
                } else {
                    Color::Empty
                }),
                out@ == name_base + names_done,
                names_done + cat_group_names(hosts0, gseq.skip(m as int), colorize)
                    == cat_group_names(hosts0, gseq, colorize),
            decreases gseq.len() - m,
        {
            let hidx = groups[k][m];
            push_all(&mut out, " ".as_bytes());
            push_colorized(&mut out, hosts[hidx].name.as_slice(), &cyan);
            proof {
                let rem = gseq.skip(m as int);
                assert(rem[0] == gseq[m as int]);
                assert(rem.drop_first() =~= gseq.skip(m + 1));
                assert(hosts@[hidx as int].name@ == hosts0[hidx as int].name@);
                let step = " ".spec_bytes() + spec_colorize(hosts0[hidx as int].name@, &cyan);
                names_done = names_done + step;
                assert(out@ =~= name_base + names_done);
                assert(names_done + cat_group_names(hosts0, gseq.skip(m + 1), colorize)
                    =~= cat_group_names(hosts0, gseq, colorize));
            }
            m += 1;
        }
        proof {
            assert(gseq.skip(gseq.len() as int) =~= Seq::<usize>::empty());
            assert(names_done + Seq::<u8>::empty() =~= names_done);
            assert(names_done == cat_group_names(hosts0, gseq, colorize));
        }
        // the shared output, from the group's last member
        let lastidx = groups[k][groups[k].len() - 1];
        proof {
            assert(gseq.last() == gseq[gseq.len() - 1]);
            assert(hosts@[lastidx as int].cp.output_buffer@ == hosts0[lastidx as int].cp.output_buffer@);
        }
        let mut body: Vec<u8> = Vec::new();
        if hosts[lastidx].cp.output_buffer.len() == 0 {
            push_colorized(&mut body, "- no output -".as_bytes(), &magenta);
        } else {
            push_all(&mut body, "\n".as_bytes());
            let ob: &Vec<u8> = &hosts[lastidx].cp.output_buffer;
            push_all(&mut body, ob.as_slice());
            if body[body.len() - 1] != 10 {
                push_all(&mut body, "\n".as_bytes());
            }
        }
        push_all(&mut out, body.as_slice());
        push_all(&mut out, "\n".as_bytes());
        proof {
            let remg = gs_all.skip(k as int);
            assert(remg[0] == gs_all[k as int]);
            assert(remg.drop_first() =~= gs_all.skip(k + 1));
            rendered = rendered + spec_stanza(hosts0, gseq, n as nat, colorize);
            assert(out@ =~= header + rendered);
            assert(rendered + spec_stanzas(hosts0, gs_all.skip(k + 1), n as nat, colorize)
                =~= spec_stanzas(hosts0, gs_all, n as nat, colorize));
        }
        k += 1;
    }
    proof {
        assert(gs_all.skip(gs_all.len() as int) =~= Seq::<Seq<usize>>::empty());
        assert(rendered + Seq::<u8>::empty() =~= rendered);
        assert(rendered == spec_stanzas(hosts0, gs_all, n as nat, colorize));
        assert(header =~= ({
            let gs = groups_rec(output_hashes(hosts0, seed), hosts0.len() as int);
            "finished with ".spec_bytes() + spec_colorize(dec_rep(gs.len()), &magenta)
                + " unique result".spec_bytes() + (if gs.len() == 1 {
                Seq::<u8>::empty()
            } else {
                "s".spec_bytes()
            }) + "\n\n".spec_bytes()
        }));
        assert(out@ =~= spec_join_summary(hosts0, seed, colorize));
    }
    out
}

/// Group the hosts by the digest of their outputs under a fresh seed and
/// render the summary; see [`finish_join_seeded`].
pub fn finish_join_mode(hosts: &mut Vec<Host>, colorize: bool) -> (out: Vec<u8>)
    requires
        old(hosts)@.len() < 0x7fff_ffff,
    ensures
        exists|seed: u64| out@ == spec_join_summary(old(hosts)@, seed, colorize),
        final(hosts)@.len() == old(hosts)@.len(),
        forall|i: int|
            0 <= i < old(hosts)@.len() ==> {
                let h0 = old(hosts)@[i];
                let h1 = #[trigger] final(hosts)@[i];
                &&& h1.name@ == h0.name@
                &&& h1.cp.output_buffer@ == h0.cp.output_buffer@
                &&& h1.cp.state == h0.cp.state
            },
{
    let seed = generate_seed();
    let out = finish_join_seeded(hosts, seed, colorize);
    proof {
        assert(out@ == spec_join_summary(old(hosts)@, seed, colorize));
    }
    out
}

} // verus!
