//! Canonical identifier form for free-text labels.
//!
//! A label such as a tag or an operation name may contain spaces, periods
//! and hyphens.  The canonical form treats those three characters as word
//! boundaries, drops them, and uppercases the first letter of every word,
//! leaving all other characters untouched.

use vstd::prelude::*;

verus! {

/// The three characters that separate words in a label.
pub open spec fn is_boundary(c: char) -> bool {
    c == ' ' || c == '.' || c == '-'
}

/// ASCII uppercase mapping: `'a'..='z'` map to `'A'..='Z'`, everything else
/// is unchanged.
pub open spec fn upper_char(c: char) -> char {
    match c {
        'a' => 'A',
        'b' => 'B',
        'c' => 'C',
        'd' => 'D',
        'e' => 'E',
        'f' => 'F',
        'g' => 'G',
        'h' => 'H',
        'i' => 'I',
        'j' => 'J',
        'k' => 'K',
        'l' => 'L',
        'm' => 'M',
        'n' => 'N',
        'o' => 'O',
        'p' => 'P',
        'q' => 'Q',
        'r' => 'R',
        's' => 'S',
        't' => 'T',
        'u' => 'U',
        'v' => 'V',
        'w' => 'W',
        'x' => 'X',
        'y' => 'Y',
        'z' => 'Z',
        _ => c,
    }
}

/// Canonical form of the remainder `s` of a label, where `new_word` says
/// whether the next non-boundary character starts a word.
pub open spec fn norm_rec(s: Seq<char>, new_word: bool) -> Seq<char>
    decreases s.len(),
{
    if s.len() == 0 {
        Seq::<char>::empty()
    } else if is_boundary(s[0]) {
        norm_rec(s.drop_first(), true)
    } else if new_word {
        seq![upper_char(s[0])] + norm_rec(s.drop_first(), false)
    } else {
        seq![s[0]] + norm_rec(s.drop_first(), false)
    }
}

/// Canonical identifier form of a whole label.
pub open spec fn normalized(s: Seq<char>) -> Seq<char> {
    norm_rec(s, true)
}

/// No character of `s` is a word boundary.
pub open spec fn no_boundary(s: Seq<char>) -> bool {
    forall|i: int| 0 <= i < s.len() ==> !is_boundary(#[trigger] s[i])
}

proof fn lemma_norm_no_boundary(s: Seq<char>, new_word: bool)
    ensures
        no_boundary(norm_rec(s, new_word)),
    decreases s.len(),
{
    if s.len() == 0 {
    } else if is_boundary(s[0]) {
        lemma_norm_no_boundary(s.drop_first(), true);
    } else {
        lemma_norm_no_boundary(s.drop_first(), false);
    }
}

proof fn lemma_norm_id_on_clean(s: Seq<char>)
    requires
        no_boundary(s),
    ensures
        norm_rec(s, false) == s,
    decreases s.len(),
{
    if s.len() == 0 {
        assert(norm_rec(s, false) =~= s);
    } else {
        assert(no_boundary(s.drop_first()));
        lemma_norm_id_on_clean(s.drop_first());
        assert(norm_rec(s, false) =~= s);
    }
}

proof fn lemma_first_char_fixed(s: Seq<char>)
    ensures
        norm_rec(s, true).len() > 0 ==> upper_char(norm_rec(s, true)[0]) == norm_rec(s, true)[0],
    decreases s.len(),
{
    if s.len() == 0 {
    } else if is_boundary(s[0]) {
        lemma_first_char_fixed(s.drop_first());
    } else {
        assert(norm_rec(s, true)[0] == upper_char(s[0]));
        assert(upper_char(upper_char(s[0])) == upper_char(s[0]));
    }
}

/// Normalizing is idempotent: the canonical form of a canonical form is
/// itself.
pub proof fn lemma_normalized_idempotent(s: Seq<char>)
    ensures
        normalized(normalized(s)) == normalized(s),
{
    let t = normalized(s);
    lemma_norm_no_boundary(s, true);
    if t.len() == 0 {
        assert(normalized(t) =~= t);
    } else {
        lemma_first_char_fixed(s);
        assert(!is_boundary(t[0]));
        assert(normalized(t) == seq![upper_char(t[0])] + norm_rec(t.drop_first(), false));
        assert(no_boundary(t.drop_first()));
        lemma_norm_id_on_clean(t.drop_first());
        assert(seq![t[0]] + t.drop_first() =~= t);
    }
}

/// ASCII uppercase of one character.
fn upper_char_exec(c: char) -> (r: char)
    ensures
        r == upper_char(c),
{
    match c {
        'a' => 'A',
        'b' => 'B',
        'c' => 'C',
        'd' => 'D',
        'e' => 'E',
        'f' => 'F',
        'g' => 'G',
        'h' => 'H',
        'i' => 'I',
        'j' => 'J',
        'k' => 'K',
        'l' => 'L',
        'm' => 'M',
        'n' => 'N',
        'o' => 'O',
        'p' => 'P',
        'q' => 'Q',
        'r' => 'R',
        's' => 'S',
        't' => 'T',
        'u' => 'U',
        'v' => 'V',
        'w' => 'W',
        'x' => 'X',
        'y' => 'Y',
        'z' => 'Z',
        _ => c,
    }
}

/// Relies on `String::push`: appends exactly one character at the end.
#[verifier::external_body]
fn push_char(s: &mut String, c: char)
    ensures
        final(s)@ == old(s)@.push(c),
{
    s.push(c)
}

/// Turn a free-text label into its canonical identifier form: boundary
/// characters (space, period, hyphen) are dropped and the first letter of
/// every word is uppercased; all other characters pass through unchanged.
pub fn fix_naming(value: &str) -> (result: String)
    ensures
        result@ == normalized(value@),
{
    let mut result = String::new();
    let mut new_word = true;
    let n: usize = value.unicode_len();
    let mut i: usize = 0;
    proof {
        assert(value@.skip(0) =~= value@);
        assert(result@ + norm_rec(value@, true) =~= norm_rec(value@, true));
    }
    while i < n
        invariant
            n == value@.len(),
            i <= n,
            normalized(value@) == result@ + norm_rec(value@.skip(i as int), new_word),
        decreases n - i,
    {
        let c = value.get_char(i);
        proof {
            assert(value@.skip(i as int)[0] == c);
            assert(value@.skip(i as int).drop_first() =~= value@.skip(i as int + 1));
        }
        if c == ' ' || c == '.' || c == '-' {
            new_word = true;
        } else {
            if new_word {
                let u = upper_char_exec(c);
                push_char(&mut result, u);
                proof {
                    assert(result@ + norm_rec(value@.skip(i as int + 1), false) =~= normalized(
                        value@,
                    ));
                }
            } else {
                push_char(&mut result, c);
                proof {
                    assert(result@ + norm_rec(value@.skip(i as int + 1), false) =~= normalized(
                        value@,
                    ));
                }
            }
            new_word = false;
        }
        i = i + 1;
    }
    proof {
        assert(value@.skip(n as int) =~= Seq::<char>::empty());
        assert(result@ =~= normalized(value@));
    }
    result
}

} // verus!
