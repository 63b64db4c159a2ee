//! Shared spacing characters and text-buffer helpers.
//!
//! All transforms in this crate operate on the text's sequence of Unicode
//! scalar values, carried as a `Vec<char>`, so that multi-byte encodings are
//! never split mid-character. The two conversion helpers at the bottom move
//! between `&str`/`String` and that buffer.

use vstd::prelude::*;
use vstd::std_specs::iter::IteratorSpec;

verus! {

broadcast use vstd::string::axiom_spec_iter, vstd::string::next_postcondition;

/// Non-breaking space.
pub const NB_CHAR: char = '\u{a0}';

/// Narrow non-breaking space.
pub const NB_CHAR_NARROW: char = '\u{202f}';

/// En space, used after dialogue-introducing dashes.
pub const NB_CHAR_EM: char = '\u{2002}';

/// The space-like characters of the whitespace collapser: plain space and
/// the defined non-breaking variants. Tab and newline are deliberately
/// excluded, since they often carry structural meaning that must survive
/// untouched.
pub open spec fn space_like(c: char) -> bool {
    c == ' ' || c == NB_CHAR || c == NB_CHAR_NARROW || c == NB_CHAR_EM
}

/// Detects spaces and non-breaking spaces; deliberately not `\t` or `\n`.
pub fn is_whitespace(c: char) -> (r: bool)
    ensures
        r == space_like(c),
{
    c == ' ' || c == NB_CHAR || c == NB_CHAR_NARROW || c == NB_CHAR_EM
}

/// The text buffer of a string: its characters, in order.
pub fn str_chars(s: &str) -> (v: Vec<char>)
    ensures
        v@ == s@,
{
    let mut it = s.chars();
    let mut v: Vec<char> = Vec::new();
    loop
        invariant
            it.obeys_prophetic_iter_laws(),
            it.decrease() is Some,
            v@ + it.remaining() == s@,
        ensures
            v@ == s@,
        decreases it.decrease()->0,
    {
        match it.next() {
            Some(c) => {
                v.push(c);
                proof {
                    assert(v@ + it.remaining() =~= s@);
                }
            },
            None => {
                proof {
                    assert(v@ =~= s@);
                }
                break;
            },
        }
    }
    v
}

/// Appends the characters of `s` to a buffer.
pub fn push_str_chars(out: &mut Vec<char>, s: &str)
    ensures
        final(out)@ == old(out)@ + s@,
{
    let cs = str_chars(s);
    let ghost out0 = out@;
    let mut k: usize = 0;
    while k < cs.len()
        invariant
            k <= cs.len(),
            cs@ == s@,
            out@ == out0 + cs@.take(k as int),
        decreases cs.len() - k,
    {
        out.push(cs[k]);
        k += 1;
        proof {
            assert(out@ =~= out0 + cs@.take(k as int));
        }
    }
    proof {
        assert(out0 + cs@.take(cs@.len() as int) =~= out0 + s@);
    }
}

/// Relies on `String::from_iter` over `char`: collecting a buffer's
/// characters yields the string with exactly those characters.
#[verifier::external_body]
pub fn chars_string(v: &Vec<char>) -> (s: String)
    ensures
        s@ == v@,
{
    v.iter().collect()
}

} // verus!
