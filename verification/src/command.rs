//! Construction of the child command line.
//!
//! When no alternate executable is named, the child runs
//! `ssh [-i ident] [-l login] [-p port] [-q] [-o opt…] HOST remote-command…`,
//! written as one whitespace-joined string.  A command whose character count
//! reaches [`MAX_ARGS`](crate::errors::MAX_ARGS) is refused.

use vstd::prelude::*;
use vstd::string::*;
use crate::bytes::{dec_rep, push_all, u64_to_dec};
use crate::config::SshOpts;
use crate::errors::{RuntimeError, MAX_ARGS};

verus! {

/// Each element of `xs`, each preceded by one space.
pub open spec fn cat_spaced(xs: Seq<Seq<u8>>) -> Seq<u8>
    decreases xs.len(),
{
    if xs.len() == 0 {
        Seq::empty()
    } else {
        " ".spec_bytes() + xs[0] + cat_spaced(xs.drop_first())
    }
}

proof fn lemma_cat_spaced_push(xs: Seq<Seq<u8>>, x: Seq<u8>)
    ensures
        cat_spaced(xs.push(x)) == cat_spaced(xs) + (" ".spec_bytes() + x),
    decreases xs.len(),
{
    assert(xs.push(x).len() == xs.len() + 1);
    assert(cat_spaced(xs.push(x)) == " ".spec_bytes() + xs.push(x)[0] + cat_spaced(
        xs.push(x).drop_first(),
    ));
    if xs.len() == 0 {
        assert(cat_spaced(Seq::<Seq<u8>>::empty()) == Seq::<u8>::empty());
        assert(xs.push(x).drop_first() =~= Seq::<Seq<u8>>::empty());
        assert(xs.push(x)[0] == x);
        assert(" ".spec_bytes() + x + Seq::<u8>::empty() =~= " ".spec_bytes() + x);
        assert(Seq::<u8>::empty() + (" ".spec_bytes() + x) =~= " ".spec_bytes() + x);
    } else {
        assert(xs.push(x).drop_first() =~= xs.drop_first().push(x));
        assert(xs.push(x)[0] == xs[0]);
        lemma_cat_spaced_push(xs.drop_first(), x);
        assert(" ".spec_bytes() + xs[0] + (cat_spaced(xs.drop_first()) + (" ".spec_bytes() + x))
            =~= (" ".spec_bytes() + xs[0] + cat_spaced(xs.drop_first())) + (" ".spec_bytes() + x));
    }
}

/// The ssh invocation for `host`: the base word, the forwarded options in
/// their fixed order, the host, and the remote command words.
pub open spec fn spec_ssh_command(o: &SshOpts, host: Seq<u8>, remote: Seq<Vec<u8>>) -> Seq<u8> {
    "ssh".spec_bytes() + (match o.identity {
        Option::Some(id) => " -i ".spec_bytes() + id@,
        Option::None => Seq::<u8>::empty(),
    }) + (match o.login {
        Option::Some(l) => " -l ".spec_bytes() + l@,
        Option::None => Seq::<u8>::empty(),
    }) + (match o.port {
        Option::Some(p) => " -p ".spec_bytes() + dec_rep(p as nat),
        Option::None => Seq::<u8>::empty(),
    }) + (if o.quiet {
        " -q".spec_bytes()
    } else {
        Seq::<u8>::empty()
    }) + (if o.options@.len() > 0 {
        " -o".spec_bytes() + cat_spaced(o.options@.map_values(|v: Vec<u8>| v@))
    } else {
        Seq::<u8>::empty()
    }) + " ".spec_bytes() + host + " ".spec_bytes() + cat_spaced(
        remote.map_values(|v: Vec<u8>| v@),
    )
}

impl SshOpts {
    /// Build the ssh command line for one host, refusing one whose character
    /// count reaches the argument cap.
    #[verifier::rlimit(100)]
    pub fn build_ssh_command(&self, host: &[u8], remote_command: &Vec<Vec<u8>>) -> (r: Result<
        Vec<u8>,
        RuntimeError,
    >)
        ensures
            ({
                let cmd = spec_ssh_command(self, host@, remote_command@);
                match r {
                    Ok(v) => v@ == cmd && cmd.len() < MAX_ARGS,
                    Err(e) => e matches RuntimeError::SshCommandLengthExceeded(l) && cmd.len()
                        >= MAX_ARGS && l == cmd.len(),
                }
            }),
    {
        let mut cmd: Vec<u8> = Vec::new();
        push_all(&mut cmd, "ssh".as_bytes());
        let ghost mut exp: Seq<u8> = "ssh".spec_bytes();
        if let Some(id) = &self.identity {
            push_all(&mut cmd, " -i ".as_bytes());
            push_all(&mut cmd, id.as_slice());
        }
        proof {
            exp = exp + (match &self.identity {
                Option::Some(id) => " -i ".spec_bytes() + id@,
                Option::None => Seq::<u8>::empty(),
            });
            assert(cmd@ =~= exp);
        }
        if let Some(l) = &self.login {
            push_all(&mut cmd, " -l ".as_bytes());
            push_all(&mut cmd, l.as_slice());
        }
        proof {
            exp = exp + (match &self.login {
                Option::Some(l) => " -l ".spec_bytes() + l@,
                Option::None => Seq::<u8>::empty(),
            });
            assert(cmd@ =~= exp);
        }
        if let Some(p) = self.port {
            push_all(&mut cmd, " -p ".as_bytes());
            let d = u64_to_dec(p as u64);
            push_all(&mut cmd, d.as_slice());
        }
        proof {
            exp = exp + (match self.port {
                Option::Some(p) => " -p ".spec_bytes() + dec_rep(p as nat),
                Option::None => Seq::<u8>::empty(),
            });
            assert(cmd@ =~= exp);
        }
        if self.quiet {
            push_all(&mut cmd, " -q".as_bytes());
        }
        proof {
            exp = exp + (if self.quiet {
                " -q".spec_bytes()
            } else {
                Seq::<u8>::empty()
            });
            assert(cmd@ =~= exp);
        }
        if self.options.len() > 0 {
            push_all(&mut cmd, " -o".as_bytes());
            let ghost base = cmd@;
            let mut i: usize = 0;
            while i < self.options.len()
                invariant
                    i <= self.options@.len(),
                    cmd@ == base + cat_spaced(
                        self.options@.take(i as int).map_values(|v: Vec<u8>| v@),
                    ),
                decreases self.options@.len() - i,
            {
                push_all(&mut cmd, " ".as_bytes());
                push_all(&mut cmd, self.options[i].as_slice());
                proof {
                    let pre = self.options@.take(i as int).map_values(|v: Vec<u8>| v@);
                    lemma_cat_spaced_push(pre, self.options@[i as int]@);
                    assert(self.options@.take(i + 1).map_values(|v: Vec<u8>| v@) =~= pre.push(
                        self.options@[i as int]@,
                    ));
                    assert(cmd@ =~= base + cat_spaced(
                        self.options@.take(i + 1).map_values(|v: Vec<u8>| v@),
                    ));
                }
                i += 1;
            }
            proof {
                assert(self.options@.take(self.options@.len() as int) =~= self.options@);
            }
        }
        proof {
            exp = exp + (if self.options@.len() > 0 {
                " -o".spec_bytes() + cat_spaced(self.options@.map_values(|v: Vec<u8>| v@))
            } else {
                Seq::<u8>::empty()
            });
            assert(cmd@ =~= exp);
        }
        push_all(&mut cmd, " ".as_bytes());
        push_all(&mut cmd, host);
        push_all(&mut cmd, " ".as_bytes());
        proof {
            exp = exp + " ".spec_bytes() + host@ + " ".spec_bytes();
            assert(cmd@ =~= exp);
        }
        let ghost base2 = cmd@;
        let mut i: usize = 0;
        while i < remote_command.len()
            invariant
                i <= remote_command@.len(),
                cmd@ == base2 + cat_spaced(
                    remote_command@.take(i as int).map_values(|v: Vec<u8>| v@),
                ),
            decreases remote_command@.len() - i,
        {
            push_all(&mut cmd, " ".as_bytes());
            push_all(&mut cmd, remote_command[i].as_slice());
            proof {
                let pre = remote_command@.take(i as int).map_values(|v: Vec<u8>| v@);
                lemma_cat_spaced_push(pre, remote_command@[i as int]@);
                assert(remote_command@.take(i + 1).map_values(|v: Vec<u8>| v@) =~= pre.push(
                    remote_command@[i as int]@,
                ));
                assert(cmd@ =~= base2 + cat_spaced(
                    remote_command@.take(i + 1).map_values(|v: Vec<u8>| v@),
                ));
            }
            i += 1;
        }
        proof {
            assert(remote_command@.take(remote_command@.len() as int) =~= remote_command@);
            exp = exp + cat_spaced(remote_command@.map_values(|v: Vec<u8>| v@));
            assert(cmd@ =~= exp);
            assert(exp =~= spec_ssh_command(self, host@, remote_command@));
        }
        if cmd.len() >= MAX_ARGS {
            return Err(RuntimeError::SshCommandLengthExceeded(cmd.len()));
        }
        Ok(cmd)
    }
}

} // verus!
