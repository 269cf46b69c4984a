use vstd::prelude::*;

verus! {

/// Whether `pat` stands in `s` at position `p`.
pub open spec fn occurs_at(s: Seq<char>, pat: Seq<char>, p: int) -> bool {
    0 <= p && p + pat.len() <= s.len() && s.subrange(p, p + pat.len()) == pat
}

/// Whether `pat` stands nowhere in `s`.
pub open spec fn free_of(s: Seq<char>, pat: Seq<char>) -> bool {
    forall|p: int| !occurs_at(s, pat, p)
}

/// The pieces of `cur + rest` between the occurrences of `pat` in `rest`, found
/// from left to right without overlap; `cur` is the start of the first piece.
pub open spec fn split_rest(rest: Seq<char>, pat: Seq<char>, cur: Seq<char>) -> Seq<Seq<char>>
    decreases rest.len(),
{
    if pat.len() == 0 || rest.len() < pat.len() {
        seq![cur + rest]
    } else if occurs_at(rest, pat, 0) {
        seq![cur] + split_rest(rest.skip(pat.len() as int), pat, Seq::empty())
    } else {
        split_rest(rest.skip(1), pat, cur.push(rest[0]))
    }
}

/// The pieces of `s` between the occurrences of `pat`, in order. There is
/// always at least one piece; an empty pattern splits nothing.
pub open spec fn split(s: Seq<char>, pat: Seq<char>) -> Seq<Seq<char>> {
    split_rest(s, pat, Seq::empty())
}

/// The character sequences that a vector of vectors holds.
pub open spec fn rows(v: Seq<Vec<char>>) -> Seq<Seq<char>> {
    v.map_values(|r: Vec<char>| r@)
}

/// Where the first occurrence of `pat` in `a + tail` begins at the end of `a`,
/// the first piece is `cur + a` and the rest is split on its own.
pub proof fn lemma_split_head(a: Seq<char>, tail: Seq<char>, pat: Seq<char>, cur: Seq<char>)
    requires
        pat.len() > 0,
        forall|p: int| 0 <= p < a.len() ==> !occurs_at(a + tail, pat, p),
        occurs_at(tail, pat, 0),
    ensures
        split_rest(a + tail, pat, cur) == seq![cur + a] + split_rest(
            tail.skip(pat.len() as int),
            pat,
            Seq::empty(),
        ),
    decreases a.len(),
{
    let s = a + tail;
    if a.len() == 0 {
        assert(s == tail);
        assert(cur + a == cur);
    } else {
        assert(!occurs_at(s, pat, 0));
        let a1 = a.skip(1);
        assert(s.skip(1) == a1 + tail);
        assert forall|p: int| 0 <= p < a1.len() implies !occurs_at(a1 + tail, pat, p) by {
            assert(!occurs_at(s, pat, p + 1));
            assert((a1 + tail).subrange(p, p + pat.len()) == s.subrange(p + 1, p + 1 + pat.len()));
        }
        lemma_split_head(a1, tail, pat, cur.push(s[0]));
        assert(cur.push(s[0]) + a1 == cur + a);
    }
}

/// A text in which the pattern does not occur is one piece.
pub proof fn lemma_split_free(a: Seq<char>, pat: Seq<char>, cur: Seq<char>)
    requires
        free_of(a, pat),
    ensures
        split_rest(a, pat, cur) == seq![cur + a],
    decreases a.len(),
{
    if pat.len() == 0 || a.len() < pat.len() {
    } else {
        assert(!occurs_at(a, pat, 0));
        let a1 = a.skip(1);
        assert forall|p: int| !occurs_at(a1, pat, p) by {
            assert(!occurs_at(a, pat, p + 1));
            if 0 <= p && p + pat.len() <= a1.len() {
                assert(a1.subrange(p, p + pat.len()) == a.subrange(p + 1, p + 1 + pat.len()));
            }
        }
        lemma_split_free(a1, pat, cur.push(a[0]));
        assert(cur.push(a[0]) + a1 == cur + a);
    }
}

/// A pattern of one or two characters that does not occur in `a` does not
/// begin inside `a` when more text follows, unless `a` ends with the first of
/// two pattern characters.
pub proof fn lemma_no_early_match(a: Seq<char>, tail: Seq<char>, pat: Seq<char>)
    requires
        free_of(a, pat),
        pat.len() == 1 || (pat.len() == 2 && (a.len() == 0 || a.last() != pat[0])),
    ensures
        forall|p: int| 0 <= p < a.len() ==> !occurs_at(a + tail, pat, p),
{
    let s = a + tail;
    assert forall|p: int| 0 <= p < a.len() implies !occurs_at(s, pat, p) by {
        if occurs_at(s, pat, p) {
            if p + pat.len() <= a.len() {
                assert(a.subrange(p, p + pat.len()) == s.subrange(p, p + pat.len()));
                assert(occurs_at(a, pat, p));
            } else {
                assert(s.subrange(p, p + pat.len())[0] == a.last());
            }
        }
    }
}

/// Tells whether `pat` stands in `s` at position `pos`.
pub fn matches_at(s: &Vec<char>, pat: &Vec<char>, pos: usize) -> (b: bool)
    ensures
        b == occurs_at(s@, pat@, pos as int),
{
    if pos > s.len() || pat.len() > s.len() - pos {
        return false;
    }
    let mut i: usize = 0;
    while i < pat.len()
        invariant
            i <= pat.len(),
            pos + pat.len() <= s.len(),
            forall|j: int| 0 <= j < i ==> s@[pos + j] == pat@[j],
        decreases pat.len() - i,
    {
        if s[pos + i] != pat[i] {
            assert(s@.subrange(pos as int, pos + pat.len())[i as int] != pat@[i as int]);
            return false;
        }
        i += 1;
    }
    assert(s@.subrange(pos as int, pos + pat.len()) =~= pat@);
    true
}

/// Splits `s` at the occurrences of `pat`.
pub fn split_on(s: &Vec<char>, pat: &Vec<char>) -> (out: Vec<Vec<char>>)
    ensures
        rows(out@) == split(s@, pat@),
        out@.len() > 0,
{
    let mut out: Vec<Vec<char>> = Vec::new();
    let mut cur: Vec<char> = Vec::new();
    let mut pos: usize = 0;
    assert(s@.skip(0) == s@);
    assert(rows(out@) + split_rest(s@, pat@, cur@) == split_rest(s@, pat@, cur@));
    while pat.len() > 0 && s.len() - pos >= pat.len()
        invariant
            pos <= s.len(),
            rows(out@) + split_rest(s@.skip(pos as int), pat@, cur@) == split(s@, pat@),
        decreases s.len() - pos,
    {
        let ghost rest = s@.skip(pos as int);
        let ghost before = rows(out@);
        if matches_at(s, pat, pos) {
            proof {
                assert(rest.subrange(0, pat@.len() as int) == s@.subrange(
                    pos as int,
                    pos + pat@.len(),
                ));
                assert(occurs_at(rest, pat@, 0));
                assert(rest.skip(pat@.len() as int) == s@.skip(pos + pat@.len()));
            }
            out.push(cur);
            proof {
                assert(rows(out@) == before.push(cur@));
                assert(before.push(cur@) + split_rest(
                    s@.skip(pos + pat@.len()),
                    pat@,
                    Seq::empty(),
                ) == before + (seq![cur@] + split_rest(
                    s@.skip(pos + pat@.len()),
                    pat@,
                    Seq::empty(),
                )));
            }
            cur = Vec::new();
            pos += pat.len();
        } else {
            proof {
                assert(rest.subrange(0, pat@.len() as int) == s@.subrange(
                    pos as int,
                    pos + pat@.len(),
                ));
                assert(!occurs_at(rest, pat@, 0));
                assert(rest.skip(1) == s@.skip(pos + 1));
                assert(rest[0] == s@[pos as int]);
            }
            cur.push(s[pos]);
            pos += 1;
        }
    }
    let ghost head = cur@;
    let ghost from = pos;
    while pos < s.len()
        invariant
            from <= pos <= s.len(),
            cur@ == head + s@.subrange(from as int, pos as int),
        decreases s.len() - pos,
    {
        cur.push(s[pos]);
        pos += 1;
        assert(s@.subrange(from as int, pos as int) == s@.subrange(from as int, pos - 1).push(
            s@[pos - 1],
        ));
    }
    proof {
        assert(s@.subrange(from as int, s@.len() as int) == s@.skip(from as int));
        assert(rows(out@.push(cur)) == rows(out@).push(cur@));
        assert(rows(out@) + seq![cur@] == rows(out@).push(cur@));
    }
    out.push(cur);
    out
}

} // verus!
