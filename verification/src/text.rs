//! Text as sequences of characters: finding, replacing and converting.

use vstd::prelude::*;

verus! {

/// Whether `pat` occurs in `s` at position `i`.
pub open spec fn occurs_at(s: Seq<char>, pat: Seq<char>, i: int) -> bool {
    0 <= i && i + pat.len() <= s.len() && s.subrange(i, i + pat.len()) == pat
}

/// The first position at or after `i` where `pat` occurs in `s`.
pub open spec fn find_from(s: Seq<char>, pat: Seq<char>, i: int) -> Option<int>
    decreases s.len() + 1 - i,
{
    if i < 0 || i + pat.len() > s.len() {
        None
    } else if occurs_at(s, pat, i) {
        Some(i)
    } else {
        find_from(s, pat, i + 1)
    }
}

/// The first position where `pat` occurs in `s` (`str::find`).
pub open spec fn first_occurrence(s: Seq<char>, pat: Seq<char>) -> Option<int> {
    find_from(s, pat, 0)
}

/// What `find_from` finds is an occurrence, and the earliest one from `i`.
pub proof fn lemma_find_from(s: Seq<char>, pat: Seq<char>, i: int)
    requires
        0 <= i,
    ensures
        find_from(s, pat, i) matches Some(p) ==> i <= p && occurs_at(s, pat, p)
            && forall|k: int| i <= k < p ==> !occurs_at(s, pat, k),
        find_from(s, pat, i) is None ==> forall|k: int| i <= k ==> !occurs_at(s, pat, k),
    decreases s.len() + 1 - i,
{
    if i < 0 || i + pat.len() > s.len() {
    } else if occurs_at(s, pat, i) {
    } else {
        lemma_find_from(s, pat, i + 1);
    }
}

/// `s` with every occurrence of `pat` replaced by `rep`, scanning from the
/// left without overlaps (`str::replace`); an empty `pat` occurs before
/// every character and at the end.
pub open spec fn replace_all(s: Seq<char>, pat: Seq<char>, rep: Seq<char>) -> Seq<char>
    decreases s.len(),
{
    if pat.len() == 0 {
        if s.len() == 0 {
            rep
        } else {
            rep + seq![s[0]] + replace_all(s.drop_first(), pat, rep)
        }
    } else if s.len() < pat.len() {
        s
    } else if s.take(pat.len() as int) == pat {
        rep + replace_all(s.skip(pat.len() as int), pat, rep)
    } else {
        seq![s[0]] + replace_all(s.drop_first(), pat, rep)
    }
}

/// Appends a character to a string.
#[verifier::external_body]
fn push_char(s: &mut String, c: char)
    ensures
        final(s)@ == old(s)@.push(c),
{
    s.push(c)
}

/// The characters of `s`, in order.
pub fn chars_of(s: &str) -> (v: Vec<char>)
    ensures
        v@ == s@,
{
    let mut v: Vec<char> = Vec::new();
    for c in it: s.chars()
        invariant
            it.seq() == s@,
            v@ == s@.take(it.index() as int),
    {
        proof {
            assert(s@.take(it.index() + 1) =~= s@.take(it.index() as int).push(c));
        }
        v.push(c);
    }
    proof {
        assert(s@.take(s@.len() as int) =~= s@);
    }
    v
}

/// The string made of the characters `v`.
pub fn string_of(v: &Vec<char>) -> (s: String)
    ensures
        s@ == v@,
{
    let mut s = String::new();
    let mut i: usize = 0;
    while i < v.len()
        invariant
            i <= v@.len(),
            s@ == v@.take(i as int),
        decreases v@.len() - i,
    {
        proof {
            assert(v@.take(i + 1) =~= v@.take(i as int).push(v@[i as int]));
        }
        push_char(&mut s, v[i]);
        i = i + 1;
    }
    proof {
        assert(v@.take(v@.len() as int) =~= v@);
    }
    s
}

/// Whether `pat` occurs in `s` at position `i`.
pub fn occurs_at_exec(s: &Vec<char>, pat: &Vec<char>, i: usize) -> (b: bool)
    ensures
        b == occurs_at(s@, pat@, i as int),
{
    if i > s.len() || pat.len() > s.len() - i {
        return false;
    }
    let n = s.len();
    let mut k: usize = 0;
    while k < pat.len()
        invariant
            n == s@.len(),
            i + pat@.len() <= s@.len(),
            k <= pat@.len(),
            forall|j: int| 0 <= j < k ==> s@[i + j] == pat@[j],
        decreases pat@.len() - k,
    {
        if s[i + k] != pat[k] {
            proof {
                assert(s@.subrange(i as int, i + pat@.len())[k as int] != pat@[k as int]);
            }
            return false;
        }
        k = k + 1;
    }
    proof {
        assert(s@.subrange(i as int, i + pat@.len()) =~= pat@);
    }
    true
}

/// The first position where `pat` occurs in `s`.
pub fn find_first(s: &Vec<char>, pat: &Vec<char>) -> (r: Option<usize>)
    ensures
        r matches Some(i) ==> first_occurrence(s@, pat@) == Some(i as int),
        r is None ==> first_occurrence(s@, pat@) is None,
{
    if pat.len() > s.len() {
        return None;
    }
    let last = s.len() - pat.len();
    let mut i: usize = 0;
    while i <= last
        invariant
            last == s@.len() - pat@.len(),
            i <= last + 1,
            find_from(s@, pat@, 0) == find_from(s@, pat@, i as int),
        decreases last + 1 - i,
    {
        if occurs_at_exec(s, pat, i) {
            return Some(i);
        }
        if i == last {
            proof {
                assert(find_from(s@, pat@, i + 1) is None);
            }
            return None;
        }
        i = i + 1;
    }
    None
}

/// `s` with every occurrence of `pat` replaced by `rep` (`str::replace`).
pub fn replace_chars(s: &Vec<char>, pat: &Vec<char>, rep: &Vec<char>) -> (out: Vec<char>)
    ensures
        out@ == replace_all(s@, pat@, rep@),
{
    let mut out: Vec<char> = Vec::new();
    let mut i: usize = 0;
    proof {
        assert(s@.skip(0) =~= s@);
        assert(out@ + replace_all(s@, pat@, rep@) =~= replace_all(s@, pat@, rep@));
    }
    while i < s.len()
        invariant
            i <= s@.len(),
            out@ + replace_all(s@.skip(i as int), pat@, rep@) == replace_all(s@, pat@, rep@),
        decreases s@.len() - i,
    {
        let ghost rest = s@.skip(i as int);
        if pat.len() == 0 {
            proof {
                assert(rest.drop_first() =~= s@.skip(i + 1));
                assert(rest[0] == s@[i as int]);
                assert(out@ + rep@ + seq![s@[i as int]] + replace_all(s@.skip(i + 1), pat@, rep@)
                    =~= out@ + (rep@ + seq![rest[0]] + replace_all(rest.drop_first(), pat@, rep@)));
            }
            append_chars(&mut out, rep);
            out.push(s[i]);
            i = i + 1;
        } else if occurs_at_exec(s, pat, i) {
            proof {
                assert(rest.take(pat@.len() as int) =~= s@.subrange(i as int, i + pat@.len()));
                assert(rest.skip(pat@.len() as int) =~= s@.skip(i + pat@.len()));
                assert(out@ + rep@ + replace_all(s@.skip(i + pat@.len()), pat@, rep@)
                    =~= out@ + (rep@ + replace_all(rest.skip(pat@.len() as int), pat@, rep@)));
            }
            append_chars(&mut out, rep);
            i = i + pat.len();
        } else {
            proof {
                assert(rest.drop_first() =~= s@.skip(i + 1));
                assert(rest[0] == s@[i as int]);
                if rest.len() >= pat@.len() {
                    assert(rest.take(pat@.len() as int) =~= s@.subrange(i as int, i + pat@.len()));
                    assert(replace_all(rest, pat@, rep@) == seq![rest[0]] + replace_all(rest.drop_first(), pat@, rep@));
                } else {
                    lemma_replace_short(rest.drop_first(), pat@, rep@);
                    assert(rest =~= seq![rest[0]] + rest.drop_first());
                }
                assert(out@.push(s@[i as int]) + replace_all(s@.skip(i + 1), pat@, rep@)
                    =~= out@ + (seq![rest[0]] + replace_all(rest.drop_first(), pat@, rep@)));
            }
            out.push(s[i]);
            i = i + 1;
        }
    }
    proof {
        assert(s@.skip(i as int) =~= Seq::<char>::empty());
        if pat@.len() == 0 {
            assert(out@ + rep@ == replace_all(s@, pat@, rep@));
        } else {
            assert(replace_all(Seq::<char>::empty(), pat@, rep@) == Seq::<char>::empty());
            assert(out@ + Seq::<char>::empty() =~= out@);
        }
    }
    if pat.len() == 0 {
        append_chars(&mut out, rep);
    }
    out
}

/// A text shorter than a non-empty pattern has nothing to replace.
proof fn lemma_replace_short(s: Seq<char>, pat: Seq<char>, rep: Seq<char>)
    requires
        pat.len() > 0,
        s.len() < pat.len(),
    ensures
        replace_all(s, pat, rep) == s,
{
}

/// Appends the characters of `more` to `v`.
pub fn append_chars(v: &mut Vec<char>, more: &Vec<char>)
    ensures
        final(v)@ == old(v)@ + more@,
{
    let mut k: usize = 0;
    let ghost start = v@;
    while k < more.len()
        invariant
            k <= more@.len(),
            v@ == start + more@.take(k as int),
        decreases more@.len() - k,
    {
        proof {
            assert(more@.take(k + 1) =~= more@.take(k as int).push(more@[k as int]));
        }
        v.push(more[k]);
        k = k + 1;
    }
    proof {
        assert(more@.take(more@.len() as int) =~= more@);
    }
}


/// Replacing a non-empty pattern that does not occur leaves the text as it is.
pub proof fn law_replace_without_occurrence(s: Seq<char>, pat: Seq<char>, rep: Seq<char>)
    requires
        pat.len() > 0,
        first_occurrence(s, pat) is None,
    ensures
        replace_all(s, pat, rep) == s,
{
    lemma_find_from(s, pat, 0);
    lemma_replace_absent(s, pat, rep);
}

/// Replacing in a text where the pattern occurs nowhere changes nothing.
proof fn lemma_replace_absent(s: Seq<char>, pat: Seq<char>, rep: Seq<char>)
    requires
        pat.len() > 0,
        forall|k: int| 0 <= k ==> !occurs_at(s, pat, k),
    ensures
        replace_all(s, pat, rep) == s,
    decreases s.len(),
{
    if s.len() >= pat.len() {
        assert(!occurs_at(s, pat, 0));
        assert(s.subrange(0, pat.len() as int) =~= s.take(pat.len() as int));
        let rest = s.drop_first();
        assert forall|k: int| 0 <= k implies !occurs_at(rest, pat, k) by {
            if occurs_at(rest, pat, k) {
                assert(rest.subrange(k, k + pat.len()) =~= s.subrange(k + 1, k + 1 + pat.len()));
                assert(occurs_at(s, pat, k + 1));
            }
        }
        lemma_replace_absent(rest, pat, rep);
        assert(s =~= seq![s[0]] + rest);
    }
}

/// A text no longer than a non-empty pattern is replaced whole when it is
/// the pattern, and left as it is otherwise.
pub proof fn lemma_replace_not_longer(s: Seq<char>, pat: Seq<char>, rep: Seq<char>)
    requires
        pat.len() > 0,
        s.len() <= pat.len(),
    ensures
        replace_all(s, pat, rep) == (if s == pat { rep } else { s }),
{
    if s.len() == pat.len() {
        assert(s.take(pat.len() as int) =~= s);
        if s == pat {
            assert(s.skip(pat.len() as int) =~= Seq::<char>::empty());
            lemma_replace_short(s.skip(pat.len() as int), pat, rep);
            assert(rep + Seq::<char>::empty() =~= rep);
        } else {
            lemma_replace_short(s.drop_first(), pat, rep);
            assert(s =~= seq![s[0]] + s.drop_first());
        }
    } else {
        assert(s != pat);
    }
}

/// A non-empty pattern whose first character does not occur in the text
/// occurs nowhere in it, and replacing it changes nothing.
pub proof fn lemma_first_char_absent(s: Seq<char>, pat: Seq<char>, rep: Seq<char>)
    requires
        pat.len() > 0,
        forall|i: int| 0 <= i < s.len() ==> s[i] != pat[0],
    ensures
        first_occurrence(s, pat) is None,
        replace_all(s, pat, rep) == s,
{
    lemma_find_from(s, pat, 0);
    if let Some(p) = find_from(s, pat, 0) {
        assert(s.subrange(p, p + pat.len())[0] == s[p]);
    }
    law_replace_without_occurrence(s, pat, rep);
}

/// Replacing in `x + y`, where no occurrence of the pattern starts inside
/// `x`, keeps `x` and replaces in `y`.
pub proof fn lemma_replace_after_prefix(x: Seq<char>, y: Seq<char>, pat: Seq<char>, rep: Seq<char>)
    requires
        pat.len() > 0,
        forall|k: int| 0 <= k < x.len() ==> !occurs_at(x + y, pat, k),
    ensures
        replace_all(x + y, pat, rep) == x + replace_all(y, pat, rep),
    decreases x.len(),
{
    let s = x + y;
    if x.len() > 0 {
        if s.len() < pat.len() {
            lemma_replace_short(y, pat, rep);
        } else {
            assert(!occurs_at(s, pat, 0));
            assert(s.subrange(0, pat.len() as int) =~= s.take(pat.len() as int));
            let x1 = x.drop_first();
            assert(s.drop_first() =~= x1 + y);
            assert forall|k: int| 0 <= k < x1.len() implies !occurs_at(x1 + y, pat, k) by {
                if occurs_at(x1 + y, pat, k) {
                    assert((x1 + y).subrange(k, k + pat.len()) =~= s.subrange(k + 1, k + 1 + pat.len()));
                    assert(occurs_at(s, pat, k + 1));
                }
            }
            lemma_replace_after_prefix(x1, y, pat, rep);
            assert(x =~= seq![x[0]] + x1);
            assert(s[0] == x[0]);
        }
    } else {
        assert(x + y =~= y);
    }
}

/// Replacing in a text that begins with the pattern replaces that
/// occurrence and goes on after it.
pub proof fn lemma_replace_leading_occurrence(y: Seq<char>, pat: Seq<char>, rep: Seq<char>)
    requires
        pat.len() > 0,
    ensures
        replace_all(pat + y, pat, rep) == rep + replace_all(y, pat, rep),
{
    assert((pat + y).take(pat.len() as int) =~= pat);
    assert((pat + y).skip(pat.len() as int) =~= y);
}

} // verus!
