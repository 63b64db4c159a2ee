//! Lexical cleanup passes: whitespace collapsing, ligature substitutions and
//! quote disambiguation.

use vstd::prelude::*;

use crate::common::{is_whitespace, space_like, str_chars, chars_string, NB_CHAR};
use crate::unicode::{CharClass, char_class, class_lt, class_rank, spec_char_class, spec_white};

verus! {

/// The whitespace collapse, from position `i` on, given whether the previous
/// kept character was space-like: every maximal run of two or more
/// space-like characters shrinks to its first character; everything else,
/// tabs and newlines included, passes through unchanged.
pub open spec fn spec_collapse_at(s: Seq<char>, i: int, prev_space: bool) -> Seq<char>
    decreases s.len() - i,
{
    if i < 0 || i >= s.len() {
        Seq::empty()
    } else if space_like(s[i]) {
        if prev_space {
            spec_collapse_at(s, i + 1, true)
        } else {
            seq![s[i]] + spec_collapse_at(s, i + 1, true)
        }
    } else {
        seq![s[i]] + spec_collapse_at(s, i + 1, false)
    }
}

/// The whitespace collapse of a whole text.
pub open spec fn spec_collapse(s: Seq<char>) -> Seq<char> {
    spec_collapse_at(s, 0, false)
}

/// Removes unnecessary whitespaces from a string: every maximal run of two
/// or more space-like characters is collapsed to its first character.
/// Leading and trailing spacing is preserved — this is a normalization pass,
/// not a trim — and tabs and newlines are never touched.
pub fn whitespaces(input: &str) -> (out: String)
    ensures
        out@ == spec_collapse(input@),
{
    let v = str_chars(input);
    let mut res: Vec<char> = Vec::new();
    let mut prev_space = false;
    let mut i: usize = 0;
    while i < v.len()
        invariant
            i <= v.len(),
            v@ == input@,
            spec_collapse(input@) == res@ + spec_collapse_at(v@, i as int, prev_space),
        decreases v.len() - i,
    {
        let c = v[i];
        if is_whitespace(c) {
            if !prev_space {
                res.push(c);
            }
            prev_space = true;
        } else {
            prev_space = false;
            res.push(c);
        }
        i += 1;
        proof {
            assert(spec_collapse(input@) == res@ + spec_collapse_at(v@, i as int, prev_space));
        }
    }
    proof {
        assert(res@ + spec_collapse_at(v@, i as int, prev_space) =~= res@);
    }
    chars_string(&res)
}

/// Removes unnecessary whitespaces from a string; older name of
/// [`whitespaces`].
pub fn remove_whitespaces(input: &str) -> (out: String)
    ensures
        out@ == spec_collapse(input@),
{
    whitespaces(input)
}

/// En dash, the replacement for a double dash.
pub const EN_DASH: char = '\u{2013}';

/// Em dash, the replacement for a triple dash.
pub const EM_DASH: char = '\u{2014}';

/// Opening guillemet, the replacement for `<<`.
pub const OPENING_GUILLEMET: char = '\u{ab}';

/// Closing guillemet, the replacement for `>>`.
pub const CLOSING_GUILLEMET: char = '\u{bb}';

/// The dash substitution from position `i` on: a triple dash becomes an em
/// dash (checked greedily first), a double dash an en dash, and every other
/// character passes through.
pub open spec fn spec_dashes_at(s: Seq<char>, i: int) -> Seq<char>
    decreases s.len() - i,
{
    if i < 0 || i >= s.len() {
        Seq::empty()
    } else if s[i] == '-' && i + 1 < s.len() && s[i + 1] == '-' {
        if i + 2 < s.len() && s[i + 2] == '-' {
            seq![EM_DASH] + spec_dashes_at(s, i + 3)
        } else {
            seq![EN_DASH] + spec_dashes_at(s, i + 2)
        }
    } else {
        seq![s[i]] + spec_dashes_at(s, i + 1)
    }
}

/// The dash substitution of a whole text.
pub open spec fn spec_dashes(s: Seq<char>) -> Seq<char> {
    spec_dashes_at(s, 0)
}

/// Replaces double dashes (`--`) with an en dash and triple dashes (`---`)
/// with an em dash.
pub fn dashes(input: &str) -> (out: String)
    ensures
        out@ == spec_dashes(input@),
{
    let v = str_chars(input);
    let mut res: Vec<char> = Vec::new();
    let mut i: usize = 0;
    while i < v.len()
        invariant
            i <= v.len(),
            v@ == input@,
            spec_dashes(input@) == res@ + spec_dashes_at(v@, i as int),
        decreases v.len() - i,
    {
        if v[i] == '-' && i + 1 < v.len() && v[i + 1] == '-' {
            if i + 2 < v.len() && v[i + 2] == '-' {
                res.push(EM_DASH);
                i += 3;
            } else {
                res.push(EN_DASH);
                i += 2;
            }
        } else {
            res.push(v[i]);
            i += 1;
        }
        proof {
            assert(spec_dashes(input@) =~= res@ + spec_dashes_at(v@, i as int));
        }
    }
    chars_string(&res)
}

/// The guillemet substitution from position `i` on: `<<` becomes an opening
/// guillemet, `>>` a closing one, and every other character passes through.
pub open spec fn spec_guillemets_at(s: Seq<char>, i: int) -> Seq<char>
    decreases s.len() - i,
{
    if i < 0 || i >= s.len() {
        Seq::empty()
    } else if s[i] == '<' && i + 1 < s.len() && s[i + 1] == '<' {
        seq![OPENING_GUILLEMET] + spec_guillemets_at(s, i + 2)
    } else if s[i] == '>' && i + 1 < s.len() && s[i + 1] == '>' {
        seq![CLOSING_GUILLEMET] + spec_guillemets_at(s, i + 2)
    } else {
        seq![s[i]] + spec_guillemets_at(s, i + 1)
    }
}

/// The guillemet substitution of a whole text.
pub open spec fn spec_guillemets(s: Seq<char>) -> Seq<char> {
    spec_guillemets_at(s, 0)
}

/// Replaces `<<` with `«` and `>>` with `»`. A token swap only; adjacent
/// spacing is untouched.
pub fn guillemets(input: &str) -> (out: String)
    ensures
        out@ == spec_guillemets(input@),
{
    let v = str_chars(input);
    let mut res: Vec<char> = Vec::new();
    let mut i: usize = 0;
    while i < v.len()
        invariant
            i <= v.len(),
            v@ == input@,
            spec_guillemets(input@) == res@ + spec_guillemets_at(v@, i as int),
        decreases v.len() - i,
    {
        if v[i] == '<' && i + 1 < v.len() && v[i + 1] == '<' {
            res.push(OPENING_GUILLEMET);
            i += 2;
        } else if v[i] == '>' && i + 1 < v.len() && v[i + 1] == '>' {
            res.push(CLOSING_GUILLEMET);
            i += 2;
        } else {
            res.push(v[i]);
            i += 1;
        }
        proof {
            assert(spec_guillemets(input@) =~= res@ + spec_guillemets_at(v@, i as int));
        }
    }
    chars_string(&res)
}

/// The dash substitution leaves a text without double dashes unchanged.
proof fn lemma_dashes_fixed_at(s: Seq<char>, i: int)
    requires
        0 <= i <= s.len(),
        forall|j: int| 0 <= j < s.len() - 1 ==> !(#[trigger] s[j] == '-' && s[j + 1] == '-'),
    ensures
        spec_dashes_at(s, i) == s.skip(i),
    decreases s.len() - i,
{
    if i >= s.len() {
        assert(spec_dashes_at(s, i) =~= s.skip(i));
    } else {
        lemma_dashes_fixed_at(s, i + 1);
        assert(spec_dashes_at(s, i) =~= s.skip(i));
    }
}

/// Law: a text containing no double dash — in particular one containing no
/// dash at all — is returned by the dash substitution unchanged.
pub proof fn lemma_dashes_untriggered(s: Seq<char>)
    requires
        forall|j: int| 0 <= j < s.len() - 1 ==> !(#[trigger] s[j] == '-' && s[j + 1] == '-'),
    ensures
        spec_dashes(s) == s,
{
    lemma_dashes_fixed_at(s, 0);
    assert(s.skip(0) =~= s);
}

/// The output of the dash substitution never holds two adjacent dashes, and
/// starts with a dash only where the input did without a second one after it.
proof fn lemma_dashes_clean_at(s: Seq<char>, i: int)
    requires
        0 <= i,
    ensures
        forall|j: int| 0 <= j < spec_dashes_at(s, i).len() - 1
            ==> !(#[trigger] spec_dashes_at(s, i)[j] == '-' && spec_dashes_at(s, i)[j + 1] == '-'),
        spec_dashes_at(s, i).len() > 0 && spec_dashes_at(s, i)[0] == '-'
            ==> s[i] == '-' && !(i + 1 < s.len() && s[i + 1] == '-'),
    decreases s.len() - i,
{
    let out = spec_dashes_at(s, i);
    if i >= s.len() {
    } else if s[i] == '-' && i + 1 < s.len() && s[i + 1] == '-' {
        let rest = if i + 2 < s.len() && s[i + 2] == '-' {
            lemma_dashes_clean_at(s, i + 3);
            spec_dashes_at(s, i + 3)
        } else {
            lemma_dashes_clean_at(s, i + 2);
            spec_dashes_at(s, i + 2)
        };
        assert forall|j: int| 0 <= j < out.len() - 1
            implies !(#[trigger] out[j] == '-' && out[j + 1] == '-') by {
            if j == 0 {
                assert(out[0] != '-');
            } else {
                assert(out[j] == rest[j - 1]);
                assert(out[j + 1] == rest[j]);
            }
        }
    } else {
        lemma_dashes_clean_at(s, i + 1);
        let rest = spec_dashes_at(s, i + 1);
        assert forall|j: int| 0 <= j < out.len() - 1
            implies !(#[trigger] out[j] == '-' && out[j + 1] == '-') by {
            if j == 0 {
                assert(out[0] == s[i]);
                assert(out[1] == rest[0]);
                if s[i] == '-' && rest[0] == '-' {
                    assert(s[i + 1] == '-');
                    assert(false);
                }
            } else {
                assert(out[j] == rest[j - 1]);
                assert(out[j + 1] == rest[j]);
            }
        }
    }
}

/// Law: the dash substitution is idempotent — applying it twice yields the
/// same result as applying it once.
pub proof fn lemma_dashes_idempotent(s: Seq<char>)
    ensures
        spec_dashes(spec_dashes(s)) == spec_dashes(s),
{
    lemma_dashes_clean_at(s, 0);
    lemma_dashes_untriggered(spec_dashes(s));
}

/// The guillemet substitution leaves a text without `<<` or `>>` unchanged.
proof fn lemma_guillemets_fixed_at(s: Seq<char>, i: int)
    requires
        0 <= i <= s.len(),
        forall|j: int| 0 <= j < s.len() - 1
            ==> !(#[trigger] s[j] == '<' && s[j + 1] == '<') && !(s[j] == '>' && s[j + 1] == '>'),
    ensures
        spec_guillemets_at(s, i) == s.skip(i),
    decreases s.len() - i,
{
    if i >= s.len() {
        assert(spec_guillemets_at(s, i) =~= s.skip(i));
    } else {
        lemma_guillemets_fixed_at(s, i + 1);
        assert(spec_guillemets_at(s, i) =~= s.skip(i));
    }
}

/// Law: a text containing no `<<` and no `>>` — in particular one containing
/// neither `<` nor `>` — is returned by the guillemet substitution unchanged.
pub proof fn lemma_guillemets_untriggered(s: Seq<char>)
    requires
        forall|j: int| 0 <= j < s.len() - 1
            ==> !(#[trigger] s[j] == '<' && s[j + 1] == '<') && !(s[j] == '>' && s[j + 1] == '>'),
    ensures
        spec_guillemets(s) == s,
{
    lemma_guillemets_fixed_at(s, 0);
    assert(s.skip(0) =~= s);
}

/// The output of the guillemet substitution never holds `<<` or `>>`, and
/// starts with an angle bracket only where the input did without a matching
/// second one.
proof fn lemma_guillemets_clean_at(s: Seq<char>, i: int)
    requires
        0 <= i,
    ensures
        forall|j: int| 0 <= j < spec_guillemets_at(s, i).len() - 1
            ==> !(#[trigger] spec_guillemets_at(s, i)[j] == '<'
                    && spec_guillemets_at(s, i)[j + 1] == '<')
                && !(spec_guillemets_at(s, i)[j] == '>'
                    && spec_guillemets_at(s, i)[j + 1] == '>'),
        spec_guillemets_at(s, i).len() > 0 && spec_guillemets_at(s, i)[0] == '<'
            ==> s[i] == '<' && !(i + 1 < s.len() && s[i + 1] == '<'),
        spec_guillemets_at(s, i).len() > 0 && spec_guillemets_at(s, i)[0] == '>'
            ==> s[i] == '>' && !(i + 1 < s.len() && s[i + 1] == '>'),
    decreases s.len() - i,
{
    let out = spec_guillemets_at(s, i);
    if i >= s.len() {
    } else if (s[i] == '<' && i + 1 < s.len() && s[i + 1] == '<')
        || (s[i] == '>' && i + 1 < s.len() && s[i + 1] == '>') {
        lemma_guillemets_clean_at(s, i + 2);
        let rest = spec_guillemets_at(s, i + 2);
        assert forall|j: int| 0 <= j < out.len() - 1
            implies !(#[trigger] out[j] == '<' && out[j + 1] == '<')
                && !(out[j] == '>' && out[j + 1] == '>') by {
            if j == 0 {
                assert(out[0] != '<' && out[0] != '>');
            } else {
                assert(out[j] == rest[j - 1]);
                assert(out[j + 1] == rest[j]);
            }
        }
    } else {
        lemma_guillemets_clean_at(s, i + 1);
        let rest = spec_guillemets_at(s, i + 1);
        assert forall|j: int| 0 <= j < out.len() - 1
            implies !(#[trigger] out[j] == '<' && out[j + 1] == '<')
                && !(out[j] == '>' && out[j + 1] == '>') by {
            if j == 0 {
                assert(out[0] == s[i]);
                assert(out[1] == rest[0]);
                if (s[i] == '<' && rest[0] == '<') || (s[i] == '>' && rest[0] == '>') {
                    assert(s[i + 1] == '<' || s[i + 1] == '>');
                    assert(false);
                }
            } else {
                assert(out[j] == rest[j - 1]);
                assert(out[j + 1] == rest[j]);
            }
        }
    }
}

/// Law: the guillemet substitution is idempotent — applying it twice yields
/// the same result as applying it once.
pub proof fn lemma_guillemets_idempotent(s: Seq<char>)
    ensures
        spec_guillemets(spec_guillemets(s)) == spec_guillemets(s),
{
    lemma_guillemets_clean_at(s, 0);
    lemma_guillemets_untriggered(spec_guillemets(s));
}

/// Ellipsis glyph, the replacement for three dots.
pub const ELLIPSIS: char = '\u{2026}';

/// A plain three-dot ellipsis starts at position `i`.
pub open spec fn ellipsis_dots(s: Seq<char>, i: int) -> bool {
    0 <= i && i + 3 <= s.len() && s[i] == '.' && s[i + 1] == '.' && s[i + 2] == '.'
}

/// A spaced six-character ellipsis `. . . ` starts at position `i`.
pub open spec fn ellipsis_spaced(s: Seq<char>, i: int) -> bool {
    0 <= i && i + 6 <= s.len() && s[i] == '.' && s[i + 1] == ' ' && s[i + 2] == '.' && s[i + 3] == ' '
        && s[i + 4] == '.' && s[i + 5] == ' '
}

/// Replacement for a spaced ellipsis: the interior spaces become
/// non-breaking, the trailing space stays plain.
pub open spec fn spaced_ellipsis_seq() -> Seq<char> {
    seq!['.', NB_CHAR, '.', NB_CHAR, '.', ' ']
}

/// Replacement for a spaced ellipsis followed by a fourth dot: all three
/// spaces become non-breaking.
pub open spec fn full_spaced_ellipsis_seq() -> Seq<char> {
    seq!['.', NB_CHAR, '.', NB_CHAR, '.', NB_CHAR]
}

/// The ellipsis substitution from position `i` on: three dots become the
/// ellipsis glyph; a spaced dot run keeps its dots but its spaces become
/// non-breaking, the trailing one included exactly when a fourth dot
/// follows. A fourth consecutive dot after a three-dot run stays a literal
/// period.
pub open spec fn spec_ellipsis_at(s: Seq<char>, i: int) -> Seq<char>
    decreases s.len() - i,
{
    if i < 0 || i >= s.len() {
        Seq::empty()
    } else if ellipsis_dots(s, i) {
        seq![ELLIPSIS] + spec_ellipsis_at(s, i + 3)
    } else if ellipsis_spaced(s, i) {
        if i + 6 == s.len() || s[i + 6] != '.' {
            spaced_ellipsis_seq() + spec_ellipsis_at(s, i + 6)
        } else {
            full_spaced_ellipsis_seq() + spec_ellipsis_at(s, i + 6)
        }
    } else {
        seq![s[i]] + spec_ellipsis_at(s, i + 1)
    }
}

/// The ellipsis substitution of a whole text.
pub open spec fn spec_ellipsis(s: Seq<char>) -> Seq<char> {
    spec_ellipsis_at(s, 0)
}

/// Replaces ellipsis (`...`) with the appropriate Unicode character, and
/// makes the spacing of a spaced dot run (`. . . `) non-breaking.
pub fn ellipsis(input: &str) -> (out: String)
    ensures
        out@ == spec_ellipsis(input@),
{
    let v = str_chars(input);
    let mut res: Vec<char> = Vec::new();
    let mut i: usize = 0;
    while i < v.len()
        invariant
            i <= v.len(),
            v@ == input@,
            spec_ellipsis(input@) == res@ + spec_ellipsis_at(v@, i as int),
        decreases v.len() - i,
    {
        if v.len() - i >= 3 && v[i] == '.' && v[i + 1] == '.' && v[i + 2] == '.' {
            res.push(ELLIPSIS);
            i += 3;
        } else if v.len() - i >= 6 && v[i] == '.' && v[i + 1] == ' ' && v[i + 2] == '.'
            && v[i + 3] == ' ' && v[i + 4] == '.' && v[i + 5] == ' ' {
            res.push('.');
            res.push(NB_CHAR);
            res.push('.');
            res.push(NB_CHAR);
            res.push('.');
            if v.len() - i == 6 || v[i + 6] != '.' {
                res.push(' ');
            } else {
                res.push(NB_CHAR);
            }
            i += 6;
        } else {
            res.push(v[i]);
            i += 1;
        }
        proof {
            assert(spec_ellipsis(input@) =~= res@ + spec_ellipsis_at(v@, i as int));
        }
    }
    chars_string(&res)
}

/// The ellipsis substitution leaves a text without either trigger pattern
/// unchanged.
proof fn lemma_ellipsis_fixed_at(s: Seq<char>, i: int)
    requires
        0 <= i <= s.len(),
        forall|j: int| !ellipsis_dots(s, j) && !ellipsis_spaced(s, j),
    ensures
        spec_ellipsis_at(s, i) == s.skip(i),
    decreases s.len() - i,
{
    if i >= s.len() {
        assert(spec_ellipsis_at(s, i) =~= s.skip(i));
    } else {
        lemma_ellipsis_fixed_at(s, i + 1);
        assert(spec_ellipsis_at(s, i) =~= s.skip(i));
    }
}

/// Law: a text containing neither a three-dot run nor a spaced dot run — in
/// particular one containing no period at all — is returned by the ellipsis
/// substitution unchanged.
pub proof fn lemma_ellipsis_untriggered(s: Seq<char>)
    requires
        forall|j: int| !ellipsis_dots(s, j) && !ellipsis_spaced(s, j),
    ensures
        spec_ellipsis(s) == s,
{
    lemma_ellipsis_fixed_at(s, 0);
    assert(s.skip(0) =~= s);
}

/// The output of the ellipsis substitution contains neither trigger pattern,
/// and starts with a dot or a plain space only where the input did.
proof fn lemma_ellipsis_clean_at(s: Seq<char>, i: int)
    requires
        0 <= i,
    ensures
        forall|j: int| !ellipsis_dots(spec_ellipsis_at(s, i), j),
        forall|j: int| !ellipsis_spaced(spec_ellipsis_at(s, i), j),
        spec_ellipsis_at(s, i).len() > 0 && spec_ellipsis_at(s, i)[0] == '.' ==> s[i] == '.',
        spec_ellipsis_at(s, i).len() > 0 && spec_ellipsis_at(s, i)[0] == ' ' ==> s[i] == ' ',
    decreases s.len() - i,
{
    let out = spec_ellipsis_at(s, i);
    if i >= s.len() {
    } else if ellipsis_dots(s, i) {
        lemma_ellipsis_clean_at(s, i + 3);
        let rest = spec_ellipsis_at(s, i + 3);
        assert(out == seq![ELLIPSIS] + rest);
        assert forall|j: int| !ellipsis_dots(out, j) by {
            if 0 <= j && j + 3 <= out.len() {
                if j == 0 {
                    assert(out[0] == ELLIPSIS);
                } else {
                    assert(out[j] == rest[j - 1] && out[j + 1] == rest[j]
                        && out[j + 2] == rest[j + 1]);
                    assert(!ellipsis_dots(rest, j - 1));
                }
            }
        }
        assert forall|j: int| !ellipsis_spaced(out, j) by {
            if 0 <= j && j + 6 <= out.len() {
                if j == 0 {
                    assert(out[0] == ELLIPSIS);
                } else {
                    assert(out[j] == rest[j - 1] && out[j + 1] == rest[j]
                        && out[j + 2] == rest[j + 1] && out[j + 3] == rest[j + 2]
                        && out[j + 4] == rest[j + 3] && out[j + 5] == rest[j + 4]);
                    assert(!ellipsis_spaced(rest, j - 1));
                }
            }
        }
    } else if ellipsis_spaced(s, i) {
        lemma_ellipsis_clean_at(s, i + 6);
        let rest = spec_ellipsis_at(s, i + 6);
        let piece = if i + 6 == s.len() || s[i + 6] != '.' {
            spaced_ellipsis_seq()
        } else {
            full_spaced_ellipsis_seq()
        };
        assert(out == piece + rest);
        assert(piece[1] == NB_CHAR && piece[3] == NB_CHAR);
        assert forall|j: int| !ellipsis_dots(out, j) by {
            if 0 <= j && j + 3 <= out.len() {
                if j < 6 {
                    assert(out[1] == NB_CHAR && out[3] == NB_CHAR);
                    if j == 4 {
                        assert(out[5] == piece[5]);
                        assert(out[5] != '.');
                    }
                    if j == 5 {
                        assert(out[5] == piece[5]);
                        assert(out[5] != '.');
                    }
                } else {
                    assert(out[j] == rest[j - 6] && out[j + 1] == rest[j - 5]
                        && out[j + 2] == rest[j - 4]);
                    assert(!ellipsis_dots(rest, j - 6));
                }
            }
        }
        assert forall|j: int| !ellipsis_spaced(out, j) by {
            if 0 <= j && j + 6 <= out.len() {
                if j < 6 {
                    assert(out[1] == NB_CHAR && out[3] == NB_CHAR && out[5] == piece[5]);
                    if j == 4 {
                        // needs out[5] == ' ' and out[6] == '.'
                        if piece[5] == ' ' {
                            // short form: the input has no dot right after the run
                            assert(i + 6 == s.len() || s[i + 6] != '.');
                            assert(out[6] == rest[0]);
                            if rest.len() > 0 && rest[0] == '.' {
                                assert(s[i + 6] == '.');
                                assert(false);
                            }
                            assert(out[6] != '.');
                        }
                    }
                } else {
                    assert(out[j] == rest[j - 6] && out[j + 1] == rest[j - 5]
                        && out[j + 2] == rest[j - 4] && out[j + 3] == rest[j - 3]
                        && out[j + 4] == rest[j - 2] && out[j + 5] == rest[j - 1]);
                    assert(!ellipsis_spaced(rest, j - 6));
                }
            }
        }
    } else {
        lemma_ellipsis_clean_at(s, i + 1);
        let rest = spec_ellipsis_at(s, i + 1);
        assert(out == seq![s[i]] + rest);
        assert forall|j: int| !ellipsis_dots(out, j) by {
            if 0 <= j && j + 3 <= out.len() {
                if j == 0 {
                    if out[0] == '.' && out[1] == '.' && out[2] == '.' {
                        assert(out[1] == rest[0] && out[2] == rest[1]);
                        assert(s[i] == '.');
                        assert(s[i + 1] == '.');
                        if ellipsis_dots(s, i + 1) {
                            assert(rest[0] == ELLIPSIS);
                            assert(false);
                        } else if ellipsis_spaced(s, i + 1) {
                            assert(rest[1] == NB_CHAR);
                            assert(false);
                        } else {
                            lemma_ellipsis_clean_at(s, i + 2);
                            let r2 = spec_ellipsis_at(s, i + 2);
                            assert(rest == seq![s[i + 1]] + r2);
                            assert(rest[1] == r2[0]);
                            assert(s[i + 2] == '.');
                            assert(ellipsis_dots(s, i));
                            assert(false);
                        }
                    }
                } else {
                    assert(out[j] == rest[j - 1] && out[j + 1] == rest[j]
                        && out[j + 2] == rest[j + 1]);
                    assert(!ellipsis_dots(rest, j - 1));
                }
            }
        }
        assert forall|j: int| !ellipsis_spaced(out, j) by {
            if 0 <= j && j + 6 <= out.len() {
                if j == 0 {
                    if out[0] == '.' && out[1] == ' ' && out[2] == '.' && out[3] == ' '
                        && out[4] == '.' && out[5] == ' ' {
                        assert(out[1] == rest[0] && out[2] == rest[1] && out[3] == rest[2]
                            && out[4] == rest[3] && out[5] == rest[4]);
                        assert(s[i] == '.');
                        assert(s[i + 1] == ' ');
                        assert(!ellipsis_dots(s, i + 1) && !ellipsis_spaced(s, i + 1));
                        lemma_ellipsis_clean_at(s, i + 2);
                        let r2 = spec_ellipsis_at(s, i + 2);
                        assert(rest == seq![s[i + 1]] + r2);
                        assert(rest[1] == r2[0] && rest[2] == r2[1] && rest[3] == r2[2]
                            && rest[4] == r2[3]);
                        assert(s[i + 2] == '.');
                        if ellipsis_dots(s, i + 2) {
                            assert(r2[0] == ELLIPSIS);
                            assert(false);
                        } else if ellipsis_spaced(s, i + 2) {
                            assert(r2[1] == NB_CHAR);
                            assert(false);
                        }
                        lemma_ellipsis_clean_at(s, i + 3);
                        let r3 = spec_ellipsis_at(s, i + 3);
                        assert(r2 == seq![s[i + 2]] + r3);
                        assert(r2[1] == r3[0] && r2[2] == r3[1] && r2[3] == r3[2]);
                        assert(s[i + 3] == ' ');
                        assert(!ellipsis_dots(s, i + 3) && !ellipsis_spaced(s, i + 3));
                        lemma_ellipsis_clean_at(s, i + 4);
                        let r4 = spec_ellipsis_at(s, i + 4);
                        assert(r3 == seq![s[i + 3]] + r4);
                        assert(r3[1] == r4[0] && r3[2] == r4[1]);
                        assert(s[i + 4] == '.');
                        if ellipsis_dots(s, i + 4) {
                            assert(r4[0] == ELLIPSIS);
                            assert(false);
                        } else if ellipsis_spaced(s, i + 4) {
                            assert(r4[1] == NB_CHAR);
                            assert(false);
                        }
                        lemma_ellipsis_clean_at(s, i + 5);
                        let r5 = spec_ellipsis_at(s, i + 5);
                        assert(r4 == seq![s[i + 4]] + r5);
                        assert(r4[1] == r5[0]);
                        assert(s[i + 5] == ' ');
                        assert(ellipsis_spaced(s, i));
                        assert(false);
                    }
                } else {
                    assert(out[j] == rest[j - 1] && out[j + 1] == rest[j]
                        && out[j + 2] == rest[j + 1] && out[j + 3] == rest[j + 2]
                        && out[j + 4] == rest[j + 3] && out[j + 5] == rest[j + 4]);
                    assert(!ellipsis_spaced(rest, j - 1));
                }
            }
        }
    }
}

/// Law: the ellipsis substitution is idempotent — applying it twice yields
/// the same result as applying it once.
pub proof fn lemma_ellipsis_idempotent(s: Seq<char>)
    ensures
        spec_ellipsis(spec_ellipsis(s)) == spec_ellipsis(s),
{
    lemma_ellipsis_clean_at(s, 0);
    lemma_ellipsis_untriggered(spec_ellipsis(s));
}

/// Opening curly double quote.
pub const OPEN_DOUBLE: char = '\u{201c}';

/// Closing curly double quote.
pub const CLOSE_DOUBLE: char = '\u{201d}';

/// Opening curly single quote.
pub const OPEN_SINGLE: char = '\u{2018}';

/// Closing curly single quote, also the elision apostrophe.
pub const CLOSE_SINGLE: char = '\u{2019}';

/// Class of the character at position `i`, the string boundary counting as
/// whitespace.
pub open spec fn context_class(s: Seq<char>, i: int) -> CharClass {
    if 0 <= i < s.len() {
        spec_char_class(s[i])
    } else {
        CharClass::Whitespace
    }
}

/// The bounded forward scan that resolves an ambiguous opening single
/// quote: the first position `j` on from `from` holding a straight single
/// quote that is not preceded by whitespace and whose right context is not
/// alphanumeric.
pub open spec fn spec_scan_closing(s: Seq<char>, from: int) -> Option<int>
    decreases s.len() - from,
{
    if from < 1 || from >= s.len() {
        None
    } else if s[from] == '\'' && !spec_white(s[from - 1]) && (from >= s.len() - 1
        || spec_char_class(s[from + 1]) != CharClass::Alphanumeric) {
        Some(from)
    } else {
        spec_scan_closing(s, from + 1)
    }
}

/// Where the forward scan finds a closer, its index lies in the buffer,
/// past the scan's starting point.
proof fn lemma_scan_closing_in_range(s: Seq<char>, from: int)
    ensures
        spec_scan_closing(s, from) matches Some(j)
            ==> 1 <= from <= j < s.len() && s[j] == '\'',
    decreases s.len() - from,
{
    if from < 1 || from >= s.len() {
    } else {
        lemma_scan_closing_in_range(s, from + 1);
    }
}

/// A `usize` option as a mathematical-integer option.
pub open spec fn opt_int(p: Option<usize>) -> Option<int> {
    match p {
        Some(n) => Some(n as int),
        None => None,
    }
}

/// One step of the quote disambiguation at position `i`: yields the emitted
/// character, the buffer (in which a matched closer found by the forward
/// scan may have been rewritten in place), the open-double-quote counter and
/// the index of the pending matched closing single quote.
pub open spec fn spec_quote_step(s: Seq<char>, i: int, opened: int, pending: Option<int>)
    -> (char, Seq<char>, int, Option<int>) {
    let c = s[i];
    let prev = context_class(s, i - 1);
    let next = context_class(s, i + 1);
    if c == '"' {
        if class_rank(prev) < class_rank(next) {
            (OPEN_DOUBLE, s, opened + 1, pending)
        } else if opened > 0 {
            (CLOSE_DOUBLE, s, opened - 1, pending)
        } else {
            ('"', s, opened, pending)
        }
    } else if c == '\'' {
        if prev == CharClass::Alphanumeric && next == CharClass::Alphanumeric {
            // elision or possessive apostrophe
            (CLOSE_SINGLE, s, opened, pending)
        } else if class_rank(prev) < class_rank(next) {
            match spec_scan_closing(s, i + 1) {
                Some(j) => {
                    let has_open = match pending {
                        Some(n) => i <= n,
                        None => false,
                    };
                    if has_open {
                        (CLOSE_SINGLE, s.update(j, CLOSE_SINGLE), opened, Some(j))
                    } else {
                        (OPEN_SINGLE, s.update(j, CLOSE_SINGLE), opened, Some(j))
                    }
                },
                None => (CLOSE_SINGLE, s, opened, pending),
            }
        } else if class_rank(prev) > class_rank(next) {
            // apostrophe at end of word
            (CLOSE_SINGLE, s, opened, pending)
        } else {
            // isolated by whitespace on both sides: fail open
            ('\'', s, opened, pending)
        }
    } else {
        (c, s, opened, pending)
    }
}

/// The quote disambiguation from position `i` on, given the buffer, the
/// open-double-quote counter, the pending matched closer and the output so
/// far.
pub open spec fn spec_quotes_from(
    s: Seq<char>,
    i: int,
    opened: int,
    pending: Option<int>,
    out: Seq<char>,
) -> Seq<char>
    decreases s.len() - i,
    via spec_quotes_from_decreases
{
    if i < 0 || i >= s.len() {
        out
    } else {
        let step = spec_quote_step(s, i, opened, pending);
        spec_quotes_from(step.1, i + 1, step.2, step.3, out + seq![step.0])
    }
}

#[via_fn]
proof fn spec_quotes_from_decreases(
    s: Seq<char>,
    i: int,
    opened: int,
    pending: Option<int>,
    out: Seq<char>,
) {
    if 0 <= i < s.len() {
        lemma_scan_closing_in_range(s, i + 1);
        assert(spec_quote_step(s, i, opened, pending).1.len() == s.len());
    }
}

/// The quote disambiguation of a whole text.
pub open spec fn spec_quotes(s: Seq<char>) -> Seq<char> {
    spec_quotes_from(s, 0, 0, None, Seq::empty())
}

/// The bounded forward scan of the quote disambiguator, as executable code.
fn scan_closing(v: &Vec<char>, from: usize) -> (r: Option<usize>)
    requires
        1 <= from,
    ensures
        spec_scan_closing(v@, from as int) == opt_int(r),
        r matches Some(j) ==> from <= j < v@.len(),
{
    let mut j = from;
    while j < v.len()
        invariant
            1 <= from <= j,
            spec_scan_closing(v@, from as int) == spec_scan_closing(v@, j as int),
        decreases v.len() - j,
    {
        if v[j] == '\'' && !v[j - 1].is_whitespace() && (j >= v.len() - 1
            || char_class(v[j + 1]) != CharClass::Alphanumeric) {
            return Some(j);
        }
        j += 1;
    }
    None
}

/// Replaces straight quotes with typographic variants: every straight
/// double or single quote becomes an opening or closing curly glyph, an
/// elision apostrophe, or stays itself where the context decides nothing.
pub fn quotes(input: &str) -> (out: String)
    ensures
        out@ == spec_quotes(input@),
{
    let mut buf = str_chars(input);
    let mut res: Vec<char> = Vec::new();
    let mut opened_doubles: usize = 0;
    let mut closing_quote: Option<usize> = None;
    let mut i: usize = 0;
    while i < buf.len()
        invariant
            i <= buf.len(),
            opened_doubles <= i,
            spec_quotes(input@) == spec_quotes_from(
                buf@,
                i as int,
                opened_doubles as int,
                opt_int(closing_quote),
                res@,
            ),
        decreases buf.len() - i,
    {
        let ghost pre_buf = buf@;
        let ghost pre_opened = opened_doubles as int;
        let ghost pre_pending = opt_int(closing_quote);
        let ghost pre_out = res@;
        let c = buf[i];
        let prev = if i > 0 {
            char_class(buf[i - 1])
        } else {
            CharClass::Whitespace
        };
        let next = if i < buf.len() - 1 {
            char_class(buf[i + 1])
        } else {
            CharClass::Whitespace
        };
        proof {
            assert(prev == context_class(buf@, i as int - 1));
            assert(next == context_class(buf@, i as int + 1));
        }
        if c == '"' {
            if class_lt(prev, next) {
                opened_doubles += 1;
                res.push(OPEN_DOUBLE);
            } else if opened_doubles > 0 {
                opened_doubles -= 1;
                res.push(CLOSE_DOUBLE);
            } else {
                res.push('"');
            }
        } else if c == '\'' {
            if matches!(prev, CharClass::Alphanumeric) && matches!(next, CharClass::Alphanumeric) {
                res.push(CLOSE_SINGLE);
            } else if class_lt(prev, next) {
                let has_opened_quote = match closing_quote {
                    Some(n) => i <= n,
                    None => false,
                };
                match scan_closing(&buf, i + 1) {
                    Some(j) => {
                        buf.set(j, CLOSE_SINGLE);
                        closing_quote = Some(j);
                        if has_opened_quote {
                            res.push(CLOSE_SINGLE);
                        } else {
                            res.push(OPEN_SINGLE);
                        }
                    },
                    None => {
                        res.push(CLOSE_SINGLE);
                    },
                }
            } else if class_lt(next, prev) {
                res.push(CLOSE_SINGLE);
            } else {
                res.push('\'');
            }
        } else {
            res.push(c);
        }
        i += 1;
        proof {
            let step = spec_quote_step(pre_buf, i as int - 1, pre_opened, pre_pending);
            assert(res@ =~= pre_out + seq![step.0]);
            assert(buf@ =~= step.1);
            assert(opened_doubles as int == step.2);
            assert(opt_int(closing_quote) == step.3);
        }
    }
    chars_string(&res)
}

/// What the disambiguator guarantees of each character it leaves or writes
/// at position `k`: a straight double quote stays only where its left class
/// does not fall below its right class, and a straight single quote stays
/// only where both sides have the same non-alphanumeric class.
pub open spec fn quote_emitted_ok(c: char, s: Seq<char>, k: int) -> bool {
    &&& c == '"' ==> class_rank(context_class(s, k - 1)) >= class_rank(context_class(s, k + 1))
    &&& c == '\'' ==> context_class(s, k - 1) == context_class(s, k + 1)
        && context_class(s, k - 1) != CharClass::Alphanumeric
}

/// Induction behind the quote laws: the output has the input's length and,
/// position for position, the input's character class, and every straight
/// quote it still holds sits in a context that decides nothing.
proof fn lemma_quotes_shape(
    s: Seq<char>,
    buf: Seq<char>,
    i: int,
    opened: int,
    pending: Option<int>,
    out: Seq<char>,
)
    requires
        0 <= i <= buf.len(),
        out.len() == i,
        buf.len() == s.len(),
        forall|k: int| 0 <= k < s.len()
            ==> #[trigger] spec_char_class(buf[k]) == spec_char_class(s[k]),
        forall|k: int| 0 <= k < i ==> #[trigger] quote_emitted_ok(out[k], s, k),
        forall|k: int| 0 <= k < i
            ==> #[trigger] spec_char_class(out[k]) == spec_char_class(s[k]),
    ensures
        spec_quotes_from(buf, i, opened, pending, out).len() == s.len(),
        forall|k: int| 0 <= k < s.len()
            ==> #[trigger] quote_emitted_ok(spec_quotes_from(buf, i, opened, pending, out)[k], s, k),
        forall|k: int| 0 <= k < s.len()
            ==> #[trigger] spec_char_class(spec_quotes_from(buf, i, opened, pending, out)[k])
                == spec_char_class(s[k]),
    decreases buf.len() - i,
{
    if i >= buf.len() {
    } else {
        let step = spec_quote_step(buf, i, opened, pending);
        let out2 = out + seq![step.0];
        assert(context_class(buf, i - 1) == context_class(s, i - 1));
        assert(context_class(buf, i + 1) == context_class(s, i + 1));
        lemma_scan_closing_in_range(buf, i + 1);
        assert(spec_char_class(step.0) == spec_char_class(s[i]));
        assert(quote_emitted_ok(step.0, s, i));
        assert forall|k: int| 0 <= k < s.len()
            implies #[trigger] spec_char_class(step.1[k]) == spec_char_class(s[k]) by {
            if step.1 != buf {
                let j = spec_scan_closing(buf, i + 1)->0;
                assert(buf[j] == '\'');
                assert(step.1 == buf.update(j, CLOSE_SINGLE));
                if k == j {
                    assert(step.1[k] == CLOSE_SINGLE);
                } else {
                    assert(step.1[k] == buf[k]);
                }
            }
        }
        assert(forall|k: int| 0 <= k < i + 1 ==> #[trigger] quote_emitted_ok(out2[k], s, k));
        assert(forall|k: int| 0 <= k < i + 1
            ==> #[trigger] spec_char_class(out2[k]) == spec_char_class(s[k]));
        lemma_quotes_shape(s, step.1, i + 1, step.2, step.3, out2);
    }
}

/// A buffer every character of which the disambiguator would leave in place
/// passes through unchanged from position `i` on.
proof fn lemma_quotes_stable_from(s: Seq<char>, f: Seq<char>, i: int)
    requires
        0 <= i <= f.len(),
        f.len() == s.len(),
        forall|k: int| 0 <= k < s.len()
            ==> #[trigger] spec_char_class(f[k]) == spec_char_class(s[k]),
        forall|k: int| 0 <= k < s.len() ==> #[trigger] quote_emitted_ok(f[k], s, k),
    ensures
        spec_quotes_from(f, i, 0, None, f.take(i)) == f,
    decreases f.len() - i,
{
    if i >= f.len() {
        assert(f.take(i) =~= f);
    } else {
        let step = spec_quote_step(f, i, 0, None);
        assert(context_class(f, i - 1) == context_class(s, i - 1));
        assert(context_class(f, i + 1) == context_class(s, i + 1));
        assert(quote_emitted_ok(f[i], s, i));
        assert(step.0 == f[i] && step.1 == f && step.2 == 0int && step.3 == None::<int>);
        assert(f.take(i) + seq![f[i]] =~= f.take(i + 1));
        lemma_quotes_stable_from(s, f, i + 1);
    }
}

/// Law: quote disambiguation never changes the length of the text — every
/// character is rewritten in place or kept.
pub proof fn lemma_quotes_length(s: Seq<char>)
    ensures
        spec_quotes(s).len() == s.len(),
{
    lemma_quotes_shape(s, s, 0, 0, None, Seq::empty());
}

/// A text without straight quotes passes through unchanged from `i` on.
proof fn lemma_quotes_fixed_at(
    buf: Seq<char>,
    i: int,
    opened: int,
    pending: Option<int>,
    out: Seq<char>,
)
    requires
        0 <= i <= buf.len(),
        forall|k: int| 0 <= k < buf.len() ==> #[trigger] buf[k] != '"' && buf[k] != '\'',
    ensures
        spec_quotes_from(buf, i, opened, pending, out) == out + buf.skip(i),
    decreases buf.len() - i,
{
    if i >= buf.len() {
        assert(out + buf.skip(i) =~= out);
    } else {
        lemma_quotes_fixed_at(buf, i + 1, opened, pending, out + seq![buf[i]]);
        assert((out + seq![buf[i]]) + buf.skip(i + 1) =~= out + buf.skip(i));
    }
}

/// Law: a text containing neither a straight double quote nor a straight
/// single quote is returned by quote disambiguation unchanged.
pub proof fn lemma_quotes_untriggered(s: Seq<char>)
    requires
        forall|k: int| 0 <= k < s.len() ==> #[trigger] s[k] != '"' && s[k] != '\'',
    ensures
        spec_quotes(s) == s,
{
    lemma_quotes_fixed_at(s, 0, 0, None, Seq::empty());
    assert(Seq::<char>::empty() + s.skip(0) =~= s);
}

/// Law: quote disambiguation is idempotent — applying it twice yields the
/// same result as applying it once. Every glyph the first pass writes has
/// the class of the straight quote it replaces, so the second pass faces
/// the same contexts and decides nothing new.
pub proof fn lemma_quotes_idempotent(s: Seq<char>)
    ensures
        spec_quotes(spec_quotes(s)) == spec_quotes(s),
{
    let f = spec_quotes(s);
    lemma_quotes_shape(s, s, 0, 0, None, Seq::empty());
    lemma_quotes_stable_from(s, f, 0);
    assert(f.take(0) =~= Seq::<char>::empty());
}

/// Replaces straight quotes with typographic variants; older name of
/// [`quotes`].
pub fn typographic_quotes(input: &str) -> (out: String)
    ensures
        out@ == spec_quotes(input@),
{
    quotes(input)
}

/// The structural characters of a text: everything that is not space-like,
/// tabs and newlines included, in order.
pub open spec fn structural_view(s: Seq<char>) -> Seq<char> {
    s.filter(|c: char| !space_like(c))
}

/// Filtering a one-character text keeps or drops that character.
proof fn lemma_filter_singleton(c: char, pred: spec_fn(char) -> bool)
    ensures
        seq![c].filter(pred) == if pred(c) { seq![c] } else { Seq::<char>::empty() },
{
    reveal(Seq::filter);
    assert(seq![c].drop_last() =~= Seq::<char>::empty());
    assert(Seq::<char>::empty().filter(pred) =~= Seq::<char>::empty());
    assert(seq![c].last() == c);
    if pred(c) {
        assert(seq![c].filter(pred) =~= seq![c]);
    } else {
        assert(seq![c].filter(pred) =~= Seq::<char>::empty());
    }
}

/// The collapse keeps the structural characters of the text, in order, from
/// position `i` on.
proof fn lemma_collapse_structural_at(s: Seq<char>, i: int, prev_space: bool)
    requires
        0 <= i <= s.len(),
    ensures
        structural_view(spec_collapse_at(s, i, prev_space)) == structural_view(s.skip(i)),
    decreases s.len() - i,
{
    broadcast use vstd::seq_lib::group_seq_lib_default;

    let pred = |c: char| !space_like(c);
    if i >= s.len() {
        reveal(Seq::filter);
        assert(s.skip(i) =~= Seq::<char>::empty());
    } else {
        lemma_collapse_structural_at(s, i + 1, space_like(s[i]) || (prev_space && space_like(s[i])));
        lemma_collapse_structural_at(s, i + 1, true);
        lemma_collapse_structural_at(s, i + 1, false);
        lemma_filter_singleton(s[i], pred);
        assert(s.skip(i) =~= seq![s[i]] + s.skip(i + 1));
        Seq::filter_distributes_over_add(seq![s[i]], s.skip(i + 1), pred);
        if space_like(s[i]) {
            if prev_space {
                assert(structural_view(spec_collapse_at(s, i, prev_space))
                    =~= structural_view(s.skip(i)));
            } else {
                Seq::filter_distributes_over_add(
                    seq![s[i]],
                    spec_collapse_at(s, i + 1, true),
                    pred,
                );
                assert(structural_view(spec_collapse_at(s, i, prev_space))
                    =~= structural_view(s.skip(i)));
            }
        } else {
            Seq::filter_distributes_over_add(
                seq![s[i]],
                spec_collapse_at(s, i + 1, false),
                pred,
            );
            assert(structural_view(spec_collapse_at(s, i, prev_space))
                =~= structural_view(s.skip(i)));
        }
    }
}

/// Law: the whitespace collapse never alters the structural characters of a
/// text — tabs, newlines and every other non-space-like character survive,
/// in order; only space-like characters are ever dropped.
pub proof fn lemma_collapse_structural(s: Seq<char>)
    ensures
        structural_view(spec_collapse(s)) == structural_view(s),
{
    lemma_collapse_structural_at(s, 0, false);
    assert(s.skip(0) =~= s);
}

/// The collapse leaves a text without space-like runs unchanged from `i`
/// on, provided the flag only claims a preceding space where the character
/// at `i` is not itself space-like.
proof fn lemma_collapse_fixed_at(s: Seq<char>, i: int, prev_space: bool)
    requires
        0 <= i <= s.len(),
        forall|j: int| 0 <= j < s.len() - 1
            ==> !(#[trigger] space_like(s[j]) && space_like(s[j + 1])),
        prev_space ==> i == s.len() || !space_like(s[i]),
    ensures
        spec_collapse_at(s, i, prev_space) == s.skip(i),
    decreases s.len() - i,
{
    if i >= s.len() {
        assert(spec_collapse_at(s, i, prev_space) =~= s.skip(i));
    } else {
        lemma_collapse_fixed_at(s, i + 1, space_like(s[i]));
        assert(spec_collapse_at(s, i, prev_space) =~= s.skip(i));
    }
}

/// Law: a text with no two adjacent space-like characters — in particular
/// one where every space stands isolated — is returned by the whitespace
/// collapse unchanged: a single isolated space is never removed.
pub proof fn lemma_collapse_untriggered(s: Seq<char>)
    requires
        forall|j: int| 0 <= j < s.len() - 1
            ==> !(#[trigger] space_like(s[j]) && space_like(s[j + 1])),
    ensures
        spec_collapse(s) == s,
{
    lemma_collapse_fixed_at(s, 0, false);
    assert(s.skip(0) =~= s);
}

/// The collapse never lengthens the text.
pub proof fn lemma_collapse_len(s: Seq<char>, i: int, prev_space: bool)
    requires
        0 <= i <= s.len(),
    ensures
        spec_collapse_at(s, i, prev_space).len() <= s.len() - i,
    decreases s.len() - i,
{
    if i < s.len() {
        lemma_collapse_len(s, i + 1, true);
        lemma_collapse_len(s, i + 1, false);
    }
}

/// The dash substitution never lengthens the text.
pub proof fn lemma_dashes_len(s: Seq<char>, i: int)
    requires
        0 <= i <= s.len(),
    ensures
        spec_dashes_at(s, i).len() <= s.len() - i,
    decreases s.len() - i,
{
    if i < s.len() {
        if s[i] == '-' && i + 1 < s.len() && s[i + 1] == '-' {
            if i + 2 < s.len() && s[i + 2] == '-' {
                lemma_dashes_len(s, i + 3);
            } else {
                lemma_dashes_len(s, i + 2);
            }
        } else {
            lemma_dashes_len(s, i + 1);
        }
    }
}

/// The guillemet substitution never lengthens the text.
pub proof fn lemma_guillemets_len(s: Seq<char>, i: int)
    requires
        0 <= i <= s.len(),
    ensures
        spec_guillemets_at(s, i).len() <= s.len() - i,
    decreases s.len() - i,
{
    if i < s.len() {
        if (s[i] == '<' && i + 1 < s.len() && s[i + 1] == '<')
            || (s[i] == '>' && i + 1 < s.len() && s[i + 1] == '>') {
            lemma_guillemets_len(s, i + 2);
        } else {
            lemma_guillemets_len(s, i + 1);
        }
    }
}

/// The ellipsis substitution never lengthens the text.
pub proof fn lemma_ellipsis_len(s: Seq<char>, i: int)
    requires
        0 <= i <= s.len(),
    ensures
        spec_ellipsis_at(s, i).len() <= s.len() - i,
    decreases s.len() - i,
{
    if i < s.len() {
        if ellipsis_dots(s, i) {
            lemma_ellipsis_len(s, i + 3);
        } else if ellipsis_spaced(s, i) {
            lemma_ellipsis_len(s, i + 6);
        } else {
            lemma_ellipsis_len(s, i + 1);
        }
    }
}

/// The collapse's output holds no two adjacent space-like characters, and,
/// when the flag claims a preceding space, does not start with one.
proof fn lemma_collapse_clean_at(s: Seq<char>, i: int, prev_space: bool)
    requires
        0 <= i,
    ensures
        forall|j: int| 0 <= j < spec_collapse_at(s, i, prev_space).len() - 1
            ==> !(space_like(#[trigger] spec_collapse_at(s, i, prev_space)[j])
                && space_like(spec_collapse_at(s, i, prev_space)[j + 1])),
        prev_space && spec_collapse_at(s, i, prev_space).len() > 0
            ==> !space_like(spec_collapse_at(s, i, prev_space)[0]),
    decreases s.len() - i,
{
    let out = spec_collapse_at(s, i, prev_space);
    if i >= s.len() {
    } else if space_like(s[i]) {
        if prev_space {
            lemma_collapse_clean_at(s, i + 1, true);
        } else {
            lemma_collapse_clean_at(s, i + 1, true);
            let rest = spec_collapse_at(s, i + 1, true);
            assert forall|j: int| 0 <= j < out.len() - 1
                implies !(space_like(#[trigger] out[j]) && space_like(out[j + 1])) by {
                if j == 0 {
                    assert(out[1] == rest[0]);
                } else {
                    assert(out[j] == rest[j - 1]);
                    assert(out[j + 1] == rest[j]);
                }
            }
        }
    } else {
        lemma_collapse_clean_at(s, i + 1, false);
        let rest = spec_collapse_at(s, i + 1, false);
        assert forall|j: int| 0 <= j < out.len() - 1
            implies !(space_like(#[trigger] out[j]) && space_like(out[j + 1])) by {
            if j == 0 {
                assert(out[0] == s[i]);
            } else {
                assert(out[j] == rest[j - 1]);
                assert(out[j + 1] == rest[j]);
            }
        }
    }
}

/// Law: the whitespace collapse is idempotent — its output holds no run of
/// two or more space-like characters, so collapsing it again changes
/// nothing.
pub proof fn lemma_collapse_idempotent(s: Seq<char>)
    ensures
        spec_collapse(spec_collapse(s)) == spec_collapse(s),
{
    lemma_collapse_clean_at(s, 0, false);
    lemma_collapse_untriggered(spec_collapse(s));
}

} // verus!
