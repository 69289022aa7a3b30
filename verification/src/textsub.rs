//! Literal substring replacement over byte sequences, and decimal rendering
//! of a port number — the two ingredients of the entry-document templating.

use vstd::prelude::*;

verus! {

/// The result of replacing every leftmost, non-overlapping occurrence of
/// `pat` in `s` with `to`; bytes outside the occurrences are kept unchanged.
/// An empty pattern replaces nothing.
pub open spec fn spec_replaced(s: Seq<u8>, pat: Seq<u8>, to: Seq<u8>) -> Seq<u8>
    decreases s.len(),
{
    if pat.len() == 0 || s.len() < pat.len() {
        s
    } else if s.take(pat.len() as int) == pat {
        to + spec_replaced(s.skip(pat.len() as int), pat, to)
    } else {
        seq![s[0]] + spec_replaced(s.skip(1), pat, to)
    }
}

/// Whether `pat` occurs as a contiguous subsequence of `s`.
pub open spec fn occurs_in(s: Seq<u8>, pat: Seq<u8>) -> bool {
    exists|i: int| 0 <= i <= s.len() - pat.len() && #[trigger] s.subrange(i, i + pat.len()) == pat
}

/// Absence of the pattern leaves the input untouched: a document without the
/// placeholder token is served unmodified.
pub proof fn lemma_replaced_absent(s: Seq<u8>, pat: Seq<u8>, to: Seq<u8>)
    requires
        pat.len() > 0,
        !occurs_in(s, pat),
    ensures
        spec_replaced(s, pat, to) == s,
    decreases s.len(),
{
    if s.len() < pat.len() {
    } else {
        if s.take(pat.len() as int) == pat {
            assert(s.subrange(0, 0 + pat.len() as int) =~= s.take(pat.len() as int));
            assert(occurs_in(s, pat));
        }
        assert(s.take(pat.len() as int) != pat);
        assert forall|i: int|
            0 <= i <= s.skip(1).len() - pat.len() implies #[trigger] s.skip(1).subrange(
            i,
            i + pat.len(),
        ) != pat by {
            assert(s.skip(1).subrange(i, i + pat.len()) =~= s.subrange(i + 1, i + 1 + pat.len()));
            assert(s.subrange(i + 1, i + 1 + pat.len()) != pat);
        }
        lemma_replaced_absent(s.skip(1), pat, to);
        assert(seq![s[0]] + s.skip(1) =~= s);
    }
}

/// Whether `pat` stands at position `at` of `hay`.
fn bytes_match_at(hay: &Vec<u8>, pat: &Vec<u8>, at: usize) -> (r: bool)
    requires
        at + pat@.len() <= hay@.len(),
    ensures
        r == (hay@.subrange(at as int, at + pat@.len()) == pat@),
{
    let hay_len = hay.len();
    let mut j: usize = 0;
    while j < pat.len()
        invariant
            at + pat@.len() <= hay@.len(),
            hay_len == hay@.len(),
            j <= pat@.len(),
            forall|k: int| 0 <= k < j ==> hay@[at + k] == pat@[k],
        decreases pat@.len() - j,
    {
        if hay[at + j] != pat[j] {
            proof {
                assert(hay@.subrange(at as int, at + pat@.len())[j as int] == hay@[at + j]);
            }
            return false;
        }
        j += 1;
    }
    proof {
        assert(hay@.subrange(at as int, at + pat@.len()) =~= pat@);
    }
    true
}

/// Append all of `src` to `out`.
pub(crate) fn push_all(out: &mut Vec<u8>, src: &Vec<u8>)
    ensures
        final(out)@ == old(out)@ + src@,
{
    let mut j: usize = 0;
    while j < src.len()
        invariant
            j <= src@.len(),
            out@ == old(out)@ + src@.take(j as int),
        decreases src@.len() - j,
    {
        out.push(src[j]);
        proof {
            assert(old(out)@ + src@.take(j as int) + seq![src@[j as int]] =~= old(out)@
                + src@.take(j + 1));
        }
        j += 1;
    }
    proof {
        assert(src@.take(src@.len() as int) =~= src@);
    }
}

/// Replace every leftmost, non-overlapping occurrence of `pat` in `hay`
/// with `to`.
pub fn replace_all(hay: &Vec<u8>, pat: &Vec<u8>, to: &Vec<u8>) -> (r: Vec<u8>)
    ensures
        r@ == spec_replaced(hay@, pat@, to@),
{
    let mut out: Vec<u8> = Vec::new();
    if pat.len() == 0 {
        push_all(&mut out, hay);
        proof {
            assert(Seq::<u8>::empty() + hay@ =~= hay@);
        }
        return out;
    }
    let mut i: usize = 0;
    proof {
        assert(hay@.skip(0) =~= hay@);
        assert(Seq::<u8>::empty() + spec_replaced(hay@, pat@, to@) =~= spec_replaced(
            hay@,
            pat@,
            to@,
        ));
    }
    while i < hay.len()
        invariant
            pat@.len() > 0,
            i <= hay@.len(),
            spec_replaced(hay@, pat@, to@) == out@ + spec_replaced(
                hay@.skip(i as int),
                pat@,
                to@,
            ),
        decreases hay@.len() - i,
    {
        let ghost rest = hay@.skip(i as int);
        if pat.len() <= hay.len() - i && bytes_match_at(hay, pat, i) {
            proof {
                assert(rest.take(pat@.len() as int) =~= hay@.subrange(i as int, i + pat@.len()));
                assert(rest.skip(pat@.len() as int) =~= hay@.skip(i + pat@.len()));
                assert(spec_replaced(rest, pat@, to@) == to@ + spec_replaced(
                    hay@.skip(i + pat@.len()),
                    pat@,
                    to@,
                ));
            }
            push_all(&mut out, to);
            proof {
                assert(out@ + spec_replaced(hay@.skip(i + pat@.len()), pat@, to@) =~= spec_replaced(
                    hay@,
                    pat@,
                    to@,
                ));
            }
            i += pat.len();
        } else {
            proof {
                assert(rest.len() == hay@.len() - i);
                assert(rest[0] == hay@[i as int]);
                assert(rest.skip(1) =~= hay@.skip(i + 1));
                if rest.len() < pat@.len() {
                    assert(spec_replaced(rest, pat@, to@) == rest);
                    assert(hay@.skip(i + 1) == spec_replaced(hay@.skip(i + 1), pat@, to@));
                    assert(rest =~= seq![hay@[i as int]] + hay@.skip(i + 1));
                } else {
                    assert(rest.take(pat@.len() as int) =~= hay@.subrange(
                        i as int,
                        i + pat@.len(),
                    ));
                    assert(rest.take(pat@.len() as int) != pat@);
                    assert(spec_replaced(rest, pat@, to@) == seq![hay@[i as int]] + spec_replaced(
                        hay@.skip(i + 1),
                        pat@,
                        to@,
                    ));
                }
            }
            out.push(hay[i]);
            proof {
                assert(out@ + spec_replaced(hay@.skip(i + 1), pat@, to@) =~= spec_replaced(
                    hay@,
                    pat@,
                    to@,
                ));
            }
            i += 1;
        }
    }
    proof {
        assert(hay@.skip(hay@.len() as int) =~= Seq::<u8>::empty());
        assert(out@ + Seq::<u8>::empty() =~= out@);
    }
    out
}

/// The ASCII decimal digits of `n`, most significant first, no leading zeros
/// (a single zero digit for zero itself).
pub open spec fn spec_decimal(n: nat) -> Seq<u8>
    decreases n,
{
    if n < 10 {
        seq![(48 + n) as u8]
    } else {
        spec_decimal(n / 10) + seq![(48 + n % 10) as u8]
    }
}

fn push_decimal(n: u16, out: &mut Vec<u8>)
    ensures
        final(out)@ == old(out)@ + spec_decimal(n as nat),
    decreases n,
{
    if n < 10 {
        out.push(48 + n as u8);
        proof {
            assert(old(out)@.push((48 + n as nat) as u8) =~= old(out)@ + spec_decimal(n as nat));
        }
    } else {
        push_decimal(n / 10, out);
        out.push(48 + (n % 10) as u8);
        proof {
            assert((old(out)@ + spec_decimal((n / 10) as nat)).push((48 + (n % 10) as nat) as u8)
                =~= old(out)@ + spec_decimal(n as nat));
        }
    }
}

/// Render a port number as its decimal digit string.
pub fn decimal_digits(n: u16) -> (r: Vec<u8>)
    ensures
        r@ == spec_decimal(n as nat),
{
    let mut out: Vec<u8> = Vec::new();
    push_decimal(n, &mut out);
    proof {
        assert(Seq::<u8>::empty() + spec_decimal(n as nat) =~= spec_decimal(n as nat));
    }
    out
}

} // verus!
