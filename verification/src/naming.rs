//! Names derived from function names.

use vstd::prelude::*;
use crate::text::{chars_of, string_of};

verus! {

/// The upper-case form of an ASCII lower-case letter; any other character
/// is left as it is (`char::to_ascii_uppercase`).
pub open spec fn ascii_upper(c: char) -> char {
    if 'a' <= c && c <= 'z' {
        ((c as u32) - 32) as char
    } else {
        c
    }
}

/// Pascal case of `s`, where `capitalize` says whether the next character
/// that is not an underscore starts a word.
pub open spec fn pascal_from(s: Seq<char>, capitalize: bool) -> Seq<char>
    decreases s.len(),
{
    if s.len() == 0 {
        Seq::empty()
    } else if s[0] == '_' {
        pascal_from(s.drop_first(), true)
    } else if capitalize {
        seq![ascii_upper(s[0])] + pascal_from(s.drop_first(), false)
    } else {
        seq![s[0]] + pascal_from(s.drop_first(), false)
    }
}

/// The upper-case form of an ASCII lower-case letter.
fn upper_ascii(c: char) -> (r: char)
    ensures
        r == ascii_upper(c),
{
    if 'a' <= c && c <= 'z' {
        let code: u8 = (c as u32 - 32) as u8;
        code as char
    } else {
        c
    }
}

/// Converts a string from snake_case to PascalCase: underscores are
/// dropped and the first letter of each word is made upper case.
pub fn to_pascal_case(s: &str) -> (pascal: String)
    ensures
        pascal@ == pascal_from(s@, true),
{
    let chars = chars_of(s);
    let mut out: Vec<char> = Vec::new();
    let mut capitalize = true;
    let mut i: usize = 0;
    proof {
        assert(chars@.skip(0) =~= chars@);
        assert(out@ + pascal_from(chars@, true) =~= pascal_from(chars@, true));
    }
    while i < chars.len()
        invariant
            i <= chars@.len(),
            chars@ == s@,
            out@ + pascal_from(chars@.skip(i as int), capitalize) == pascal_from(s@, true),
        decreases chars@.len() - i,
    {
        let c = chars[i];
        let ghost rest = chars@.skip(i as int);
        proof {
            assert(rest.drop_first() =~= chars@.skip(i + 1));
            assert(rest[0] == c);
        }
        if c == '_' {
            capitalize = true;
        } else if capitalize {
            let u = upper_ascii(c);
            proof {
                assert(out@.push(u) + pascal_from(chars@.skip(i + 1), false)
                    =~= out@ + (seq![u] + pascal_from(rest.drop_first(), false)));
            }
            out.push(u);
            capitalize = false;
        } else {
            proof {
                assert(out@.push(c) + pascal_from(chars@.skip(i + 1), false)
                    =~= out@ + (seq![c] + pascal_from(rest.drop_first(), false)));
            }
            out.push(c);
        }
        i = i + 1;
    }
    proof {
        assert(chars@.skip(i as int) =~= Seq::<char>::empty());
        assert(out@ + Seq::<char>::empty() =~= out@);
    }
    string_of(&out)
}


/// Pascal case holds no underscores and is no longer than what it came from.
pub proof fn law_pascal_case_drops_underscores(s: Seq<char>, capitalize: bool)
    ensures
        !pascal_from(s, capitalize).contains('_'),
        pascal_from(s, capitalize).len() <= s.len(),
    decreases s.len(),
{
    if s.len() > 0 {
        let rest = s.drop_first();
        law_pascal_case_drops_underscores(rest, true);
        law_pascal_case_drops_underscores(rest, false);
        if s[0] != '_' {
            let c = if capitalize { ascii_upper(s[0]) } else { s[0] };
            assert(c != '_');
            let out = pascal_from(s, capitalize);
            assert(out == seq![c] + pascal_from(rest, false));
            assert forall|i: int| 0 <= i < out.len() implies out[i] != '_' by {
                if i > 0 {
                    assert(out[i] == pascal_from(rest, false)[i - 1]);
                }
            }
        }
    }
}

/// The number of characters of `s` that are not underscores.
pub open spec fn non_underscore_count(s: Seq<char>) -> nat
    decreases s.len(),
{
    if s.len() == 0 {
        0
    } else if s[0] == '_' {
        non_underscore_count(s.drop_first())
    } else {
        1 + non_underscore_count(s.drop_first())
    }
}

/// Upper-casing an upper-cased character changes nothing.
pub proof fn lemma_ascii_upper_idempotent(c: char)
    ensures
        ascii_upper(ascii_upper(c)) == ascii_upper(c),
{
    if 'a' <= c && c <= 'z' {
        let code = (c as u32) - 32;
        assert(65 <= code <= 90);
        assert((code as char) as u32 == code);
    }
}

/// Pascal case keeps exactly the characters that are not underscores: it has
/// as many characters as the input has non-underscore ones.
pub proof fn law_pascal_case_count(s: Seq<char>, capitalize: bool)
    ensures
        pascal_from(s, capitalize).len() == non_underscore_count(s),
    decreases s.len(),
{
    if s.len() > 0 {
        law_pascal_case_count(s.drop_first(), true);
        law_pascal_case_count(s.drop_first(), false);
    }
}

/// Pascal case of a text without underscores, past its first character,
/// is the text itself.
proof fn lemma_pascal_copies_plain(t: Seq<char>)
    requires
        !t.contains('_'),
    ensures
        pascal_from(t, false) == t,
    decreases t.len(),
{
    if t.len() > 0 {
        let rest = t.drop_first();
        assert(!rest.contains('_')) by {
            if rest.contains('_') {
                let k = choose|k: int| 0 <= k < rest.len() && rest[k] == '_';
                assert(t[k + 1] == '_');
            }
        }
        assert(t[0] != '_') by {
            if t[0] == '_' {
                assert(t.contains('_'));
            }
        }
        lemma_pascal_copies_plain(rest);
        assert(t =~= seq![t[0]] + rest);
    }
}

/// The first character of Pascal case is an upper-cased one.
proof fn lemma_pascal_first_upper(s: Seq<char>)
    ensures
        pascal_from(s, true).len() > 0 ==> ascii_upper(pascal_from(s, true)[0]) == pascal_from(s, true)[0],
    decreases s.len(),
{
    if s.len() > 0 {
        if s[0] == '_' {
            lemma_pascal_first_upper(s.drop_first());
        } else {
            lemma_ascii_upper_idempotent(s[0]);
        }
    }
}

/// Pascal case is idempotent: converting its result again changes nothing.
pub proof fn law_pascal_case_idempotent(s: Seq<char>)
    ensures
        pascal_from(pascal_from(s, true), true) == pascal_from(s, true),
{
    let r = pascal_from(s, true);
    law_pascal_case_drops_underscores(s, true);
    if r.len() > 0 {
        lemma_pascal_first_upper(s);
        let rest = r.drop_first();
        assert(r[0] != '_') by {
            if r[0] == '_' {
                assert(r.contains('_'));
            }
        }
        assert(!rest.contains('_')) by {
            if rest.contains('_') {
                let k = choose|k: int| 0 <= k < rest.len() && rest[k] == '_';
                assert(r[k + 1] == '_');
            }
        }
        lemma_pascal_copies_plain(rest);
        assert(r =~= seq![r[0]] + rest);
    }
}

} // verus!
