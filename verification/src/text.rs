//! Character-level helpers over `String` and `&str`.

use vstd::prelude::*;
use vstd::string::*;

verus! {

/// Appends one character to a `String` (std's `String::push`, which
/// documents that it appends the given char to the end of the string).
#[verifier::external_body]
pub(crate) fn push_char(s: &mut String, c: char)
    ensures
        final(s)@ == old(s)@.push(c),
{
    s.push(c);
}

/// Copies the characters of a string slice into a vector.
pub fn chars_of(s: &str) -> (v: Vec<char>)
    ensures
        v@ == s@,
{
    let n = s.unicode_len();
    let mut v: Vec<char> = Vec::new();
    let mut i: usize = 0;
    while i < n
        invariant
            n == s@.len(),
            i <= n,
            v@ == s@.subrange(0, i as int),
        decreases n - i,
    {
        let c = s.get_char(i);
        v.push(c);
        i = i + 1;
    }
    v
}


/// What `str::replace(s, pat, rep)` returns: scanning from the left, each
/// occurrence of `pat` that does not overlap an earlier one is replaced by
/// `rep`; an empty `pat` matches before every character and at the end.
pub open spec fn replace_spec(s: Seq<char>, pat: Seq<char>, rep: Seq<char>) -> Seq<char>
    decreases s.len(),
{
    if pat.len() == 0 {
        if s.len() == 0 {
            rep
        } else {
            rep + seq![s[0]] + replace_spec(s.drop_first(), pat, rep)
        }
    } else if s.len() < pat.len() {
        s
    } else if s.subrange(0, pat.len() as int) == pat {
        rep + replace_spec(s.subrange(pat.len() as int, s.len() as int), pat, rep)
    } else {
        seq![s[0]] + replace_spec(s.drop_first(), pat, rep)
    }
}

/// Removing a character (replacing it by nothing) deletes exactly its
/// occurrences: every occurrence goes, whatever follows it, and every other
/// character stays, in order.
pub proof fn law_remove_char(s: Seq<char>, c: char)
    ensures
        replace_spec(s, seq![c], Seq::<char>::empty()) == s.filter(|x: char| x != c),
    decreases s.len(),
{
    reveal(Seq::filter);
    if s.len() > 0 {
        let t = s.drop_first();
        law_remove_char(t, c);
        assert(s =~= seq![s[0]] + t);
        Seq::filter_distributes_over_add(seq![s[0]], t, |x: char| x != c);
        reveal_with_fuel(Seq::filter, 2);
        assert(seq![s[0]].drop_last() =~= Seq::<char>::empty());
        assert(s.subrange(1, s.len() as int) =~= t);
        if s[0] == c {
            assert(s.subrange(0, 1) =~= seq![c]);
            assert(seq![s[0]].filter(|x: char| x != c) =~= Seq::<char>::empty());
        } else {
            assert(s.subrange(0, 1)[0] != seq![c][0]);
            assert(seq![s[0]].filter(|x: char| x != c) =~= seq![s[0]]);
        }
        assert(replace_spec(s, seq![c], Seq::<char>::empty()) =~= s.filter(|x: char| x != c));
    }
}

/// An occurrence of a non-empty pattern at the start of the text is
/// replaced, whatever follows it; the rest is then scanned on its own.
pub proof fn law_replace_leading(p: Seq<char>, t: Seq<char>, r: Seq<char>)
    requires
        p.len() > 0,
    ensures
        replace_spec(p + t, p, r) == r + replace_spec(t, p, r),
{
    let s = p + t;
    assert(s.subrange(0, p.len() as int) =~= p);
    assert(s.subrange(p.len() as int, s.len() as int) =~= t);
}

/// A text without any occurrence of a non-empty pattern comes back unchanged.
pub proof fn law_replace_absent(s: Seq<char>, p: Seq<char>, r: Seq<char>)
    requires
        p.len() > 0,
        forall|i: int| 0 <= i && i + p.len() <= s.len() ==> #[trigger] s.subrange(i, i + p.len()) != p,
    ensures
        replace_spec(s, p, r) == s,
    decreases s.len(),
{
    if s.len() >= p.len() {
        let t = s.drop_first();
        assert(s.subrange(0, 0 + p.len() as int) != p);
        assert forall|i: int| 0 <= i && i + p.len() <= t.len() implies #[trigger] t.subrange(i, i + p.len()) != p by {
            assert(t.subrange(i, i + p.len()) =~= s.subrange(i + 1, i + 1 + p.len()));
        }
        law_replace_absent(t, p, r);
        assert(s =~= seq![s[0]] + t);
    }
}

/// Whether `pat` occurs in `cs` starting at position `i`.
fn occurs_at(cs: &Vec<char>, pat: &Vec<char>, i: usize) -> (b: bool)
    requires
        i <= cs.len(),
    ensures
        b == (i + pat.len() <= cs.len() && cs@.subrange(i as int, i + pat.len()) == pat@),
{
    let m = pat.len();
    if m > cs.len() - i {
        return false;
    }
    let mut j: usize = 0;
    while j < m
        invariant
            m == pat.len(),
            i + m <= cs.len(),
            j <= m,
            forall|k: int| 0 <= k < j ==> cs@[i + k] == pat@[k],
        decreases m - j,
    {
        if cs[i + j] != pat[j] {
            assert(cs@.subrange(i as int, i + m)[j as int] != pat@[j as int]);
            return false;
        }
        j = j + 1;
    }
    assert(cs@.subrange(i as int, i + m) =~= pat@);
    true
}

/// Replaces every non-overlapping occurrence of `pat` in `s` by `rep`, as
/// `str::replace` does.
pub fn replace_all(s: &str, pat: &str, rep: &str) -> (r: String)
    ensures
        r@ == replace_spec(s@, pat@, rep@),
{
    let cs = chars_of(s);
    let pc = chars_of(pat);
    let n = cs.len();
    let m = pc.len();
    let mut out = String::new();
    let mut i: usize = 0;
    assert(s@.subrange(0, n as int) =~= s@);
    while i < n
        invariant
            cs@ == s@,
            pc@ == pat@,
            n == cs.len(),
            m == pc.len(),
            i <= n,
            replace_spec(s@, pat@, rep@) == out@ + replace_spec(
                s@.subrange(i as int, n as int),
                pat@,
                rep@,
            ),
        decreases n - i,
    {
        let ghost rest = s@.subrange(i as int, n as int);
        assert(rest.drop_first() =~= s@.subrange(i + 1, n as int));
        assert(rest[0] == cs@[i as int]);
        if m == 0 {
            out.append(rep);
            push_char(&mut out, cs[i]);
            i = i + 1;
            assert(out@ + replace_spec(s@.subrange(i as int, n as int), pat@, rep@) =~= replace_spec(s@, pat@, rep@));
        } else if occurs_at(&cs, &pc, i) {
            assert(rest.subrange(0, m as int) =~= cs@.subrange(i as int, i + m));
            assert(rest.subrange(m as int, rest.len() as int) =~= s@.subrange(i + m, n as int));
            out.append(rep);
            i = i + m;
            assert(out@ + replace_spec(s@.subrange(i as int, n as int), pat@, rep@) =~= replace_spec(s@, pat@, rep@));
        } else {
            proof {
                if rest.len() >= m {
                    assert(rest.subrange(0, m as int) =~= cs@.subrange(i as int, i + m));
                } else {
                    assert(rest =~= seq![rest[0]] + rest.drop_first());
                }
            }
            push_char(&mut out, cs[i]);
            i = i + 1;
            assert(out@ + replace_spec(s@.subrange(i as int, n as int), pat@, rep@) =~= replace_spec(s@, pat@, rep@));
        }
    }
    if m == 0 {
        out.append(rep);
    }
    assert(out@ =~= replace_spec(s@, pat@, rep@));
    out
}

} // verus!
