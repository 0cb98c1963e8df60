use vstd::prelude::*;

verus! {

broadcast use vstd::seq_lib::group_seq_properties;

/// How many copies of `pat` stand back to back at the start of `s`.
pub open spec fn repeats(s: Seq<u8>, pat: Seq<u8>) -> nat
    decreases s.len(),
{
    if 0 < pat.len() <= s.len() && s.take(pat.len() as int) == pat {
        1 + repeats(s.skip(pat.len() as int), pat)
    } else {
        0
    }
}

/// What follows the copies of `pat` at the start of `s`.
pub open spec fn after_repeats(s: Seq<u8>, pat: Seq<u8>) -> Seq<u8>
    decreases s.len(),
{
    if 0 < pat.len() <= s.len() && s.take(pat.len() as int) == pat {
        after_repeats(s.skip(pat.len() as int), pat)
    } else {
        s
    }
}

/// Whether `pat` stands in `s` at `pos`.
pub fn matches_at(s: &[u8], pos: usize, pat: &[u8]) -> (r: bool)
    requires
        pos <= s@.len(),
    ensures
        r == (pat@.len() <= s@.len() - pos && s@.subrange(pos as int, pos + pat@.len()) == pat@),
{
    if pat.len() > s.len() - pos {
        return false;
    }
    let n = s.len();
    let mut i: usize = 0;
    while i < pat.len()
        invariant
            n == s@.len(),
            i <= pat@.len(),
            pat@.len() <= s@.len() - pos,
            forall|j: int| 0 <= j < i ==> s@[pos + j] == pat@[j],
        decreases pat@.len() - i,
    {
        if s[pos + i] != pat[i] {
            assert(s@.subrange(pos as int, pos + pat@.len())[i as int] != pat@[i as int]);
            return false;
        }
        i = i + 1;
    }
    assert(s@.subrange(pos as int, pos + pat@.len()) == pat@);
    true
}

/// Reads copies of `pat` back to back from the start of `s` for as long as
/// they follow each other: the number of copies and the length they take.
pub fn repeat_atom(s: &[u8], pat: &[u8]) -> (r: (usize, usize))
    requires
        pat@.len() > 0,
    ensures
        r.0 == repeats(s@, pat@),
        r.1 <= s@.len(),
        s@.skip(r.1 as int) == after_repeats(s@, pat@),
{
    let n = s.len();
    let mut p: usize = 0;
    let mut count: usize = 0;
    while matches_at(s, p, pat)
        invariant
            n == s@.len(),
            p <= s@.len(),
            count <= p,
            pat@.len() > 0,
            repeats(s@, pat@) == count + repeats(s@.skip(p as int), pat@),
            after_repeats(s@, pat@) == after_repeats(s@.skip(p as int), pat@),
        decreases s@.len() - p,
    {
        let ghost rest = s@.skip(p as int);
        assert(rest.take(pat@.len() as int) == s@.subrange(p as int, p + pat@.len()));
        assert(rest.skip(pat@.len() as int) == s@.skip(p + pat@.len()));
        p = p + pat.len();
        count = count + 1;
    }
    let ghost rest = s@.skip(p as int);
    assert(pat@.len() <= rest.len() ==> rest.take(pat@.len() as int) == s@.subrange(
        p as int,
        p + pat@.len(),
    ));
    (count, p)
}

} // verus!
