//! Small byte-sequence utilities shared by the parsing and rendering code.

use vstd::prelude::*;

verus! {

/// Two byte slices hold the same bytes.
pub fn bytes_eq(a: &[u8], b: &[u8]) -> (r: bool)
    ensures
        r == (a@ == b@),
{
    if a.len() != b.len() {
        assert(a@ != b@);
        return false;
    }
    let mut i: usize = 0;
    while i < a.len()
        invariant
            i <= a.len(),
            a.len() == b.len(),
            forall|j: int| 0 <= j < i ==> a@[j] == b@[j],
        decreases a.len() - i,
    {
        if a[i] != b[i] {
            assert(a@ != b@);
            return false;
        }
        i += 1;
    }
    assert(a@ =~= b@);
    true
}

/// Append all of `src` onto `dst`.
pub fn push_all(dst: &mut Vec<u8>, src: &[u8])
    ensures
        final(dst)@ == old(dst)@ + src@,
{
    let mut i: usize = 0;
    while i < src.len()
        invariant
            i <= src.len(),
            dst@ == old(dst)@ + src@.take(i as int),
        decreases src.len() - i,
    {
        dst.push(src[i]);
        assert(dst@ =~= old(dst)@ + src@.take(i + 1));
        i += 1;
    }
    assert(dst@ =~= old(dst)@ + src@);
}

/// The decimal digit sequence of `n`, most significant digit first.
pub open spec fn dec_rep(n: nat) -> Seq<u8>
    decreases n,
{
    if n < 10 {
        seq![(n + 48) as u8]
    } else {
        dec_rep(n / 10) + seq![(n % 10 + 48) as u8]
    }
}

/// Render `n` in decimal.
pub fn u64_to_dec(n: u64) -> (r: Vec<u8>)
    ensures
        r@ == dec_rep(n as nat),
{
    if n == 0 {
        let mut r: Vec<u8> = Vec::new();
        r.push(48);
        assert(r@ =~= dec_rep(0));
        return r;
    }
    let mut rev: Vec<u8> = Vec::new();
    let mut m: u64 = n;
    while m > 0
        invariant
            m > 0 ==> dec_rep(n as nat) == dec_rep(m as nat) + rev_seq(rev@),
            m == 0 ==> dec_rep(n as nat) == rev_seq(rev@),
        decreases m,
    {
        let d: u8 = (m % 10) as u8;
        let m2: u64 = m / 10;
        proof {
            assert(rev@.push((d + 48) as u8).drop_last() =~= rev@);
            assert(rev_seq(rev@.push((d + 48) as u8)) =~= seq![(d + 48) as u8] + rev_seq(rev@));
            if m2 > 0 {
                assert(dec_rep(m as nat) == dec_rep(m2 as nat) + seq![(d + 48) as u8]);
                assert(dec_rep(m2 as nat) + rev_seq(rev@.push((d + 48) as u8)) =~= dec_rep(
                    m as nat,
                ) + rev_seq(rev@));
            } else {
                assert(dec_rep(m as nat) == seq![(d + 48) as u8]);
                assert(rev_seq(rev@.push((d + 48) as u8)) =~= dec_rep(m as nat) + rev_seq(rev@));
            }
        }
        rev.push(d + 48);
        m = m2;
    }
    let mut r: Vec<u8> = Vec::new();
    let mut i: usize = rev.len();
    while i > 0
        invariant
            i <= rev.len(),
            r@ == rev_seq(rev@).take(rev@.len() - i),
        decreases i,
    {
        i -= 1;
        r.push(rev[i]);
        proof {
            lemma_rev_seq_index(rev@, i as int);
            assert(r@ =~= rev_seq(rev@).take(rev@.len() - i));
        }
    }
    proof {
        lemma_rev_seq_len(rev@);
        assert(rev_seq(rev@).take(rev@.len() as int) =~= rev_seq(rev@));
    }
    r
}

/// `s` reversed.
pub open spec fn rev_seq(s: Seq<u8>) -> Seq<u8>
    decreases s.len(),
{
    if s.len() == 0 {
        seq![]
    } else {
        seq![s.last()] + rev_seq(s.drop_last())
    }
}

pub proof fn lemma_rev_seq_len(s: Seq<u8>)
    ensures
        rev_seq(s).len() == s.len(),
    decreases s.len(),
{
    if s.len() > 0 {
        lemma_rev_seq_len(s.drop_last());
    }
}

pub proof fn lemma_rev_seq_index(s: Seq<u8>, i: int)
    requires
        0 <= i < s.len(),
    ensures
        rev_seq(s).len() == s.len(),
        rev_seq(s)[s.len() - 1 - i] == s[i],
    decreases s.len(),
{
    lemma_rev_seq_len(s);
    if i < s.len() - 1 {
        lemma_rev_seq_index(s.drop_last(), i);
    }
}

/// `b` is an ASCII decimal digit.
pub open spec fn is_digit(b: u8) -> bool {
    48 <= b <= 57
}

/// Every byte of `s` is an ASCII decimal digit.
pub open spec fn all_digits(s: Seq<u8>) -> bool {
    forall|i: int| 0 <= i < s.len() ==> is_digit(s[i])
}

/// The value of the decimal digit string `s`.
pub open spec fn dec_value(s: Seq<u8>) -> nat
    decreases s.len(),
{
    if s.len() == 0 {
        0
    } else {
        (dec_value(s.drop_last()) * 10 + (s.last() - 48)) as nat
    }
}

/// Parse a decimal number of at most `cap`; `None` on empty input, a
/// non-digit byte, or a value above `cap`.
pub fn parse_dec_cap(s: &[u8], cap: u64) -> (r: Option<u64>)
    ensures
        r == (if s@.len() > 0 && all_digits(s@) && dec_value(s@) <= cap {
            Some(dec_value(s@) as u64)
        } else {
            None::<u64>
        }),
{
    if s.len() == 0 {
        return None;
    }
    let mut acc: u128 = 0;
    let mut i: usize = 0;
    while i < s.len()
        invariant
            i <= s.len(),
            s@.len() > 0,
            all_digits(s@.take(i as int)),
            acc == dec_value(s@.take(i as int)),
            acc <= cap,
        decreases s.len() - i,
    {
        let b = s[i];
        if b < 48 || b > 57 {
            assert(!all_digits(s@) && s@.take(s@.len() as int) =~= s@) by {
                assert(s@[i as int] == b);
            }
            return None;
        }
        let d: u128 = (b - 48) as u128;
        assert(acc * 10 + d < 0xffff_ffff_ffff_ffff_ffff) by (nonlinear_arith)
            requires
                acc <= 0xffff_ffff_ffff_ffff,
                d < 10,
        ;
        acc = acc * 10 + d;
        proof {
            assert(s@.take(i + 1).drop_last() =~= s@.take(i as int));
            assert(s@.take(i + 1).last() == b);
        }
        i += 1;
        if acc > cap as u128 {
            proof {
                if all_digits(s@) {
                    lemma_dec_value_monotonic(s@, i as int);
                }
            }
            return None;
        }
    }
    assert(s@.take(s@.len() as int) =~= s@);
    Some(acc as u64)
}

/// A digit string's value only grows as more digits follow.
proof fn lemma_dec_value_monotonic(s: Seq<u8>, i: int)
    requires
        0 <= i <= s.len(),
        all_digits(s),
    ensures
        dec_value(s) >= dec_value(s.take(i)),
    decreases s.len() - i,
{
    if i < s.len() {
        lemma_dec_value_monotonic(s, i + 1);
        assert(s.take(i + 1).drop_last() =~= s.take(i));
        assert(s.take(i + 1).last() == s[i] && is_digit(s[i]));
        assert(dec_value(s.take(i + 1)) == dec_value(s.take(i)) * 10 + (s.take(i + 1).last()
            - 48));
        assert(dec_value(s.take(i)) * 10 >= dec_value(s.take(i))) by (nonlinear_arith);
    } else {
        assert(s.take(i) =~= s);
    }
}

} // verus!
