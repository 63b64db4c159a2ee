//! Escaping passes for HTML and TeX output.
//!
//! These consume the cleanup and spacing transforms' output: they replace
//! reserved characters with entities or escape sequences, and turn the
//! non-breaking-space characters the spacing engine inserts into markup the
//! target can render.

use vstd::prelude::*;

use crate::common::{str_chars, chars_string, push_str_chars, NB_CHAR, NB_CHAR_NARROW, NB_CHAR_EM};
use crate::unicode::spec_white;

verus! {

/// The HTML escape of one character: `<`, `>` and `&` become entities.
pub open spec fn html_repl(c: char) -> Seq<char> {
    if c == '<' {
        ("&lt;")@
    } else if c == '>' {
        ("&gt;")@
    } else if c == '&' {
        ("&amp;")@
    } else {
        seq![c]
    }
}

/// The HTML escape from position `i` on.
pub open spec fn spec_html_at(s: Seq<char>, i: int) -> Seq<char>
    decreases s.len() - i,
{
    if i < 0 || i >= s.len() {
        Seq::empty()
    } else {
        html_repl(s[i]) + spec_html_at(s, i + 1)
    }
}

/// The HTML escape of a whole text.
pub open spec fn spec_html(s: Seq<char>) -> Seq<char> {
    spec_html_at(s, 0)
}

/// Escapes characters for HTML output, replacing `<`, `>` and `&` with the
/// corresponding HTML entities. Written for content that can be trusted; it
/// is not a defence against untrusted input.
pub fn html(input: &str) -> (out: String)
    ensures
        out@ == spec_html(input@),
{
    let v = str_chars(input);
    let mut res: Vec<char> = Vec::new();
    let mut i: usize = 0;
    while i < v.len()
        invariant
            i <= v.len(),
            v@ == input@,
            spec_html(input@) == res@ + spec_html_at(v@, i as int),
        decreases v.len() - i,
    {
        let c = v[i];
        if c == '<' {
            push_str_chars(&mut res, "&lt;");
        } else if c == '>' {
            push_str_chars(&mut res, "&gt;");
        } else if c == '&' {
            push_str_chars(&mut res, "&amp;");
        } else {
            res.push(c);
        }
        i += 1;
        proof {
            assert(spec_html(input@) =~= res@ + spec_html_at(v@, i as int));
        }
    }
    chars_string(&res)
}

/// The naive quote escape of one character: a double quote becomes a single
/// one.
pub open spec fn quote_repl(c: char) -> char {
    if c == '"' {
        '\''
    } else {
        c
    }
}

/// The naive quote escape of a whole text, character for character.
pub open spec fn spec_escape_quotes(s: Seq<char>) -> Seq<char> {
    s.map_values(|c: char| quote_repl(c))
}

/// Very naively escape quotes: simply replace `"` by `'`.
pub fn quotes(input: &str) -> (out: String)
    ensures
        out@ == spec_escape_quotes(input@),
{
    let v = str_chars(input);
    let mut res: Vec<char> = Vec::new();
    let mut i: usize = 0;
    while i < v.len()
        invariant
            i <= v.len(),
            v@ == input@,
            res@ == spec_escape_quotes(input@).take(i as int),
        decreases v.len() - i,
    {
        let c = v[i];
        if c == '"' {
            res.push('\'');
        } else {
            res.push(c);
        }
        i += 1;
        proof {
            assert(res@ =~= spec_escape_quotes(input@).take(i as int));
        }
    }
    proof {
        assert(spec_escape_quotes(input@).take(v@.len() as int) =~= spec_escape_quotes(input@));
    }
    chars_string(&res)
}

/// The TeX escape of the non-breaking spaces: the narrow one becomes a thin
/// space command, the en space a spacing command, and the full one the tie
/// character.
pub open spec fn nb_tex_repl(c: char) -> Seq<char> {
    if c == NB_CHAR_NARROW {
        ("\\,")@
    } else if c == NB_CHAR_EM {
        ("\\enspace ")@
    } else if c == NB_CHAR {
        seq!['~']
    } else {
        seq![c]
    }
}

/// The TeX non-breaking-space escape from position `i` on.
pub open spec fn spec_nb_spaces_tex_at(s: Seq<char>, i: int) -> Seq<char>
    decreases s.len() - i,
{
    if i < 0 || i >= s.len() {
        Seq::empty()
    } else {
        nb_tex_repl(s[i]) + spec_nb_spaces_tex_at(s, i + 1)
    }
}

/// The TeX non-breaking-space escape of a whole text.
pub open spec fn spec_nb_spaces_tex(s: Seq<char>) -> Seq<char> {
    spec_nb_spaces_tex_at(s, 0)
}

/// Escapes non-breaking spaces for LaTeX, replacing them with the
/// appropriate TeX code. Since the replacements use backslashes, call this
/// **after** [`tex`].
pub fn nb_spaces_tex(input: &str) -> (out: String)
    ensures
        out@ == spec_nb_spaces_tex(input@),
{
    let v = str_chars(input);
    let mut res: Vec<char> = Vec::new();
    let mut i: usize = 0;
    while i < v.len()
        invariant
            i <= v.len(),
            v@ == input@,
            spec_nb_spaces_tex(input@) == res@ + spec_nb_spaces_tex_at(v@, i as int),
        decreases v.len() - i,
    {
        let c = v[i];
        if c == NB_CHAR_NARROW {
            push_str_chars(&mut res, "\\,");
        } else if c == NB_CHAR_EM {
            push_str_chars(&mut res, "\\enspace ");
        } else if c == NB_CHAR {
            res.push('~');
        } else {
            res.push(c);
        }
        i += 1;
        proof {
            assert(spec_nb_spaces_tex(input@) =~= res@ + spec_nb_spaces_tex_at(v@, i as int));
        }
    }
    chars_string(&res)
}

/// The HTML escape of the non-breaking spaces, one styled span per space.
pub open spec fn nb_html_repl(c: char) -> Seq<char> {
    if c == NB_CHAR_NARROW {
        ("<span class = \"nnbsp\">&#8201;</span>")@
    } else if c == NB_CHAR_EM {
        ("<span class = \"ensp\">&#8194;</span>")@
    } else if c == NB_CHAR {
        ("<span class = \"nbsp\">&#160;</span>")@
    } else {
        seq![c]
    }
}

/// The per-space HTML non-breaking-space escape from position `i` on.
pub open spec fn spec_nb_spaces_at(s: Seq<char>, i: int) -> Seq<char>
    decreases s.len() - i,
{
    if i < 0 || i >= s.len() {
        Seq::empty()
    } else {
        nb_html_repl(s[i]) + spec_nb_spaces_at(s, i + 1)
    }
}

/// The per-space HTML non-breaking-space escape of a whole text.
pub open spec fn spec_nb_spaces(s: Seq<char>) -> Seq<char> {
    spec_nb_spaces_at(s, 0)
}

/// Escapes non-breaking spaces for HTML, wrapping each one in a classed
/// span, so that fonts or renderers without proper support for them can be
/// helped along with a stylesheet.
pub fn nb_spaces(input: &str) -> (out: String)
    ensures
        out@ == spec_nb_spaces(input@),
{
    let v = str_chars(input);
    let mut res: Vec<char> = Vec::new();
    let mut i: usize = 0;
    while i < v.len()
        invariant
            i <= v.len(),
            v@ == input@,
            spec_nb_spaces(input@) == res@ + spec_nb_spaces_at(v@, i as int),
        decreases v.len() - i,
    {
        let c = v[i];
        if c == NB_CHAR_NARROW {
            push_str_chars(&mut res, "<span class = \"nnbsp\">&#8201;</span>");
        } else if c == NB_CHAR_EM {
            push_str_chars(&mut res, "<span class = \"ensp\">&#8194;</span>");
        } else if c == NB_CHAR {
            push_str_chars(&mut res, "<span class = \"nbsp\">&#160;</span>");
        } else {
            res.push(c);
        }
        i += 1;
        proof {
            assert(spec_nb_spaces(input@) =~= res@ + spec_nb_spaces_at(v@, i as int));
        }
    }
    chars_string(&res)
}

/// The TeX escape of one character, which for a dash depends on the
/// character after it: a dash directly followed by another gets a brace
/// group to suppress the TeX dash ligature.
pub open spec fn tex_repl(c: char, next: char) -> Seq<char> {
    if c == '-' {
        if next == '-' {
            ("-{}")@
        } else {
            seq!['-']
        }
    } else if c == '&' {
        ("\\&")@
    } else if c == '%' {
        ("\\%")@
    } else if c == '$' {
        ("\\$")@
    } else if c == '#' {
        ("\\#")@
    } else if c == '_' {
        ("\\_")@
    } else if c == '{' {
        ("\\{")@
    } else if c == '}' {
        ("\\}")@
    } else if c == '[' {
        ("{[}")@
    } else if c == ']' {
        ("{]}")@
    } else if c == '~' {
        ("\\textasciitilde{}")@
    } else if c == '^' {
        ("\\textasciicircum{}")@
    } else if c == '<' {
        ("\\textless{}")@
    } else if c == '>' {
        ("\\textgreater{}")@
    } else if c == '!' {
        ("!{}")@
    } else if c == '\\' {
        ("\\textbackslash{}")@
    } else {
        seq![c]
    }
}

/// The TeX escape from position `i` on; past the end of the text the
/// lookahead sees a plain space.
pub open spec fn spec_tex_at(s: Seq<char>, i: int) -> Seq<char>
    decreases s.len() - i,
{
    if i < 0 || i >= s.len() {
        Seq::empty()
    } else {
        tex_repl(s[i], if i + 1 < s.len() { s[i + 1] } else { ' ' }) + spec_tex_at(s, i + 1)
    }
}

/// The TeX escape of a whole text.
pub open spec fn spec_tex(s: Seq<char>) -> Seq<char> {
    spec_tex_at(s, 0)
}

/// Escapes characters for LaTeX: reserved characters become escape
/// sequences, and a doubled dash gets a brace group so TeX does not turn it
/// into a dash ligature.
pub fn tex(input: &str) -> (out: String)
    ensures
        out@ == spec_tex(input@),
{
    let v = str_chars(input);
    let mut res: Vec<char> = Vec::new();
    let mut i: usize = 0;
    while i < v.len()
        invariant
            i <= v.len(),
            v@ == input@,
            spec_tex(input@) == res@ + spec_tex_at(v@, i as int),
        decreases v.len() - i,
    {
        let c = v[i];
        let next = if i + 1 < v.len() {
            v[i + 1]
        } else {
            ' '
        };
        if c == '-' {
            if next == '-' {
                push_str_chars(&mut res, "-{}");
            } else {
                res.push('-');
            }
        } else if c == '&' {
            push_str_chars(&mut res, "\\&");
        } else if c == '%' {
            push_str_chars(&mut res, "\\%");
        } else if c == '$' {
            push_str_chars(&mut res, "\\$");
        } else if c == '#' {
            push_str_chars(&mut res, "\\#");
        } else if c == '_' {
            push_str_chars(&mut res, "\\_");
        } else if c == '{' {
            push_str_chars(&mut res, "\\{");
        } else if c == '}' {
            push_str_chars(&mut res, "\\}");
        } else if c == '[' {
            push_str_chars(&mut res, "{[}");
        } else if c == ']' {
            push_str_chars(&mut res, "{]}");
        } else if c == '~' {
            push_str_chars(&mut res, "\\textasciitilde{}");
        } else if c == '^' {
            push_str_chars(&mut res, "\\textasciicircum{}");
        } else if c == '<' {
            push_str_chars(&mut res, "\\textless{}");
        } else if c == '>' {
            push_str_chars(&mut res, "\\textgreater{}");
        } else if c == '!' {
            push_str_chars(&mut res, "!{}");
        } else if c == '\\' {
            push_str_chars(&mut res, "\\textbackslash{}");
        } else {
            res.push(c);
        }
        i += 1;
        proof {
            assert(spec_tex(input@) =~= res@ + spec_tex_at(v@, i as int));
        }
    }
    chars_string(&res)
}

/// A character that extends a token for the narrow-space span grouping:
/// anything that is not whitespace, plus the narrow no-break space itself.
pub open spec fn token_char(c: char) -> bool {
    !spec_white(c) || c == NB_CHAR_NARROW
}

/// True exactly on the characters that extend a narrow-space token.
fn is_token_char(c: char) -> (r: bool)
    ensures
        r == token_char(c),
{
    !c.is_whitespace() || c == NB_CHAR_NARROW
}

/// End of the token run starting at `i`: the first position at or past `i`
/// that does not hold a token character.
pub open spec fn run_end(s: Seq<char>, i: int) -> int
    decreases s.len() - i,
{
    if i < 0 || i >= s.len() {
        i
    } else if !token_char(s[i]) {
        i
    } else {
        run_end(s, i + 1)
    }
}

/// The token run starting at `i` ends within the text, holds only token
/// characters, and stops right before a non-token character.
proof fn lemma_run_end(s: Seq<char>, i: int)
    requires
        0 <= i <= s.len(),
    ensures
        i <= run_end(s, i) <= s.len(),
        forall|k: int| i <= k < run_end(s, i) ==> token_char(#[trigger] s[k]),
        run_end(s, i) < s.len() ==> !token_char(s[run_end(s, i)]),
        i < s.len() && token_char(s[i]) ==> run_end(s, i) > i,
    decreases s.len() - i,
{
    if i >= s.len() || !token_char(s[i]) {
    } else {
        lemma_run_end(s, i + 1);
    }
}

/// A run over only token characters that stops right before a non-token
/// character is exactly the run the scan finds.
proof fn lemma_run_end_agrees(s: Seq<char>, i: int, e: int)
    requires
        0 <= i <= e <= s.len(),
        forall|k: int| i <= k < e ==> token_char(#[trigger] s[k]),
        e == s.len() || !token_char(s[e]),
    ensures
        run_end(s, i) == e,
    decreases e - i,
{
    if i < e {
        lemma_run_end_agrees(s, i + 1, e);
    }
}

/// Whether the token run `[i, e)` holds a narrow no-break space.
pub open spec fn run_has_narrow(s: Seq<char>, i: int, e: int) -> bool {
    exists|k: int| i <= k < e && s[k] == NB_CHAR_NARROW
}

/// The interior of a wrapped span: each narrow no-break space becomes a
/// numeric entity, every other character stays.
pub open spec fn spec_narrow_entities(s: Seq<char>, i: int, e: int) -> Seq<char>
    decreases e - i,
{
    if i >= e {
        Seq::empty()
    } else if s[i] == NB_CHAR_NARROW {
        ("&#160;")@ + spec_narrow_entities(s, i + 1, e)
    } else {
        seq![s[i]] + spec_narrow_entities(s, i + 1, e)
    }
}

/// The narrow-space span grouping from position `i` on: every maximal run
/// of token characters that holds at least one narrow no-break space is
/// wrapped in a classed span with the narrow spaces replaced by entities;
/// everything else passes through.
pub open spec fn spec_nb_spaces_html_at(s: Seq<char>, i: int) -> Seq<char>
    decreases s.len() - i,
    via spec_nb_spaces_html_at_decreases
{
    if i < 0 || i >= s.len() {
        Seq::empty()
    } else if !token_char(s[i]) {
        seq![s[i]] + spec_nb_spaces_html_at(s, i + 1)
    } else {
        let e = run_end(s, i);
        if run_has_narrow(s, i, e) {
            ("<span class = \"nnbsp\">")@ + spec_narrow_entities(s, i, e) + ("</span>")@
                + spec_nb_spaces_html_at(s, e)
        } else {
            s.subrange(i, e) + spec_nb_spaces_html_at(s, e)
        }
    }
}

#[via_fn]
proof fn spec_nb_spaces_html_at_decreases(s: Seq<char>, i: int) {
    if 0 <= i < s.len() && token_char(s[i]) {
        lemma_run_end(s, i);
    }
}

/// The narrow-space span grouping of a whole text.
pub open spec fn spec_nb_spaces_html(s: Seq<char>) -> Seq<char> {
    spec_nb_spaces_html_at(s, 0)
}

/// Escapes narrow non-breaking spaces for HTML by wrapping each word group
/// that holds one in a span with class `nnbsp`, turning the narrow spaces
/// inside into non-breaking-space entities. A stylesheet can then tighten
/// the word spacing of that class.
pub fn nb_spaces_html(input: &str) -> (out: String)
    ensures
        out@ == spec_nb_spaces_html(input@),
{
    let v = str_chars(input);
    let mut res: Vec<char> = Vec::new();
    let mut i: usize = 0;
    while i < v.len()
        invariant
            i <= v.len(),
            v@ == input@,
            spec_nb_spaces_html(input@) == res@ + spec_nb_spaces_html_at(v@, i as int),
        decreases v.len() - i,
    {
        if !is_token_char(v[i]) {
            res.push(v[i]);
            i += 1;
            proof {
                assert(spec_nb_spaces_html(input@) =~= res@
                    + spec_nb_spaces_html_at(v@, i as int));
            }
        } else {
            // find the end of the token run, noting any narrow space in it
            let mut e = i;
            let mut has_narrow = false;
            loop
                invariant
                    i <= e <= v.len(),
                    v@ == input@,
                    forall|k: int| i <= k < e ==> token_char(#[trigger] v@[k]),
                    has_narrow == run_has_narrow(v@, i as int, e as int),
                ensures
                    i <= e <= v.len(),
                    run_end(v@, i as int) == e,
                    has_narrow == run_has_narrow(v@, i as int, e as int),
                decreases v.len() - e,
            {
                if e >= v.len() {
                    proof {
                        lemma_run_end_agrees(v@, i as int, e as int);
                    }
                    break;
                }
                let c = v[e];
                if !is_token_char(c) {
                    proof {
                        lemma_run_end_agrees(v@, i as int, e as int);
                    }
                    break;
                }
                proof {
                    if c == NB_CHAR_NARROW {
                        assert(run_has_narrow(v@, i as int, e as int + 1));
                    } else {
                        assert(run_has_narrow(v@, i as int, e as int + 1)
                            == run_has_narrow(v@, i as int, e as int));
                    }
                }
                if c == NB_CHAR_NARROW {
                    has_narrow = true;
                }
                e += 1;
            }
            let ghost run_start = i as int;
            let ghost run_stop = e as int;
            if has_narrow {
                push_str_chars(&mut res, "<span class = \"nnbsp\">");
                let ghost mid0 = res@;
                let mut k = i;
                while k < e
                    invariant
                        i <= k <= e <= v.len(),
                        v@ == input@,
                        mid0 + spec_narrow_entities(v@, i as int, e as int)
                            == res@ + spec_narrow_entities(v@, k as int, e as int),
                    decreases e - k,
                {
                    if v[k] == NB_CHAR_NARROW {
                        push_str_chars(&mut res, "&#160;");
                    } else {
                        res.push(v[k]);
                    }
                    k += 1;
                    proof {
                        assert(mid0 + spec_narrow_entities(v@, i as int, e as int)
                            =~= res@ + spec_narrow_entities(v@, k as int, e as int));
                    }
                }
                push_str_chars(&mut res, "</span>");
            } else {
                let mut k = i;
                let ghost res0 = res@;
                while k < e
                    invariant
                        i <= k <= e <= v.len(),
                        v@ == input@,
                        res@ == res0 + v@.subrange(i as int, k as int),
                    decreases e - k,
                {
                    res.push(v[k]);
                    k += 1;
                    proof {
                        assert(res@ =~= res0 + v@.subrange(i as int, k as int));
                    }
                }
            }
            proof {
                lemma_run_end(v@, i as int);
            }
            i = e;
            proof {
                assert(spec_nb_spaces_html(input@) =~= res@
                    + spec_nb_spaces_html_at(v@, i as int));
            }
        }
    }
    chars_string(&res)
}

/// Escapes narrow non-breaking spaces for HTML; older name of
/// [`nb_spaces_html`].
pub fn nnbsp(input: &str) -> (out: String)
    ensures
        out@ == spec_nb_spaces_html(input@),
{
    nb_spaces_html(input)
}

/// Law: a text without `<`, `>` or `&` is returned by the HTML escape
/// unchanged.
pub proof fn lemma_html_untriggered(s: Seq<char>)
    requires
        forall|k: int| 0 <= k < s.len()
            ==> #[trigger] s[k] != '<' && s[k] != '>' && s[k] != '&',
    ensures
        spec_html(s) == s,
{
    lemma_html_fixed_at(s, 0);
    assert(s.skip(0) =~= s);
}

/// The HTML escape copies every character from `i` on where none is
/// reserved.
proof fn lemma_html_fixed_at(s: Seq<char>, i: int)
    requires
        0 <= i <= s.len(),
        forall|k: int| 0 <= k < s.len()
            ==> #[trigger] s[k] != '<' && s[k] != '>' && s[k] != '&',
    ensures
        spec_html_at(s, i) == s.skip(i),
    decreases s.len() - i,
{
    if i >= s.len() {
        assert(spec_html_at(s, i) =~= s.skip(i));
    } else {
        lemma_html_fixed_at(s, i + 1);
        assert(spec_html_at(s, i) =~= s.skip(i));
    }
}

/// Law: a text without a double quote is returned by the naive quote
/// escape unchanged.
pub proof fn lemma_escape_quotes_untriggered(s: Seq<char>)
    requires
        forall|k: int| 0 <= k < s.len() ==> #[trigger] s[k] != '"',
    ensures
        spec_escape_quotes(s) == s,
{
    assert(spec_escape_quotes(s) =~= s);
}

/// Law: a text without non-breaking spaces is returned by the TeX
/// non-breaking-space escape unchanged.
pub proof fn lemma_nb_spaces_tex_untriggered(s: Seq<char>)
    requires
        forall|k: int| 0 <= k < s.len()
            ==> #[trigger] s[k] != NB_CHAR && s[k] != NB_CHAR_NARROW && s[k] != NB_CHAR_EM,
    ensures
        spec_nb_spaces_tex(s) == s,
{
    lemma_nb_spaces_tex_fixed_at(s, 0);
    assert(s.skip(0) =~= s);
}

/// The TeX non-breaking-space escape copies every character from `i` on
/// where no non-breaking space occurs.
proof fn lemma_nb_spaces_tex_fixed_at(s: Seq<char>, i: int)
    requires
        0 <= i <= s.len(),
        forall|k: int| 0 <= k < s.len()
            ==> #[trigger] s[k] != NB_CHAR && s[k] != NB_CHAR_NARROW && s[k] != NB_CHAR_EM,
    ensures
        spec_nb_spaces_tex_at(s, i) == s.skip(i),
    decreases s.len() - i,
{
    if i >= s.len() {
        assert(spec_nb_spaces_tex_at(s, i) =~= s.skip(i));
    } else {
        lemma_nb_spaces_tex_fixed_at(s, i + 1);
        assert(spec_nb_spaces_tex_at(s, i) =~= s.skip(i));
    }
}

/// Law: a text without non-breaking spaces is returned by the per-space
/// HTML escape unchanged.
pub proof fn lemma_nb_spaces_untriggered(s: Seq<char>)
    requires
        forall|k: int| 0 <= k < s.len()
            ==> #[trigger] s[k] != NB_CHAR && s[k] != NB_CHAR_NARROW && s[k] != NB_CHAR_EM,
    ensures
        spec_nb_spaces(s) == s,
{
    lemma_nb_spaces_fixed_at(s, 0);
    assert(s.skip(0) =~= s);
}

/// The per-space HTML escape copies every character from `i` on where no
/// non-breaking space occurs.
proof fn lemma_nb_spaces_fixed_at(s: Seq<char>, i: int)
    requires
        0 <= i <= s.len(),
        forall|k: int| 0 <= k < s.len()
            ==> #[trigger] s[k] != NB_CHAR && s[k] != NB_CHAR_NARROW && s[k] != NB_CHAR_EM,
    ensures
        spec_nb_spaces_at(s, i) == s.skip(i),
    decreases s.len() - i,
{
    if i >= s.len() {
        assert(spec_nb_spaces_at(s, i) =~= s.skip(i));
    } else {
        lemma_nb_spaces_fixed_at(s, i + 1);
        assert(spec_nb_spaces_at(s, i) =~= s.skip(i));
    }
}

/// Law: a text without a narrow no-break space is returned by the
/// span-grouping HTML escape unchanged.
pub proof fn lemma_nb_spaces_html_untriggered(s: Seq<char>)
    requires
        forall|k: int| 0 <= k < s.len() ==> #[trigger] s[k] != NB_CHAR_NARROW,
    ensures
        spec_nb_spaces_html(s) == s,
{
    lemma_nb_spaces_html_fixed_at(s, 0);
    assert(s.skip(0) =~= s);
}

/// The span grouping copies every character from `i` on where no narrow
/// no-break space occurs: a run without one is copied verbatim.
proof fn lemma_nb_spaces_html_fixed_at(s: Seq<char>, i: int)
    requires
        0 <= i <= s.len(),
        forall|k: int| 0 <= k < s.len() ==> #[trigger] s[k] != NB_CHAR_NARROW,
    ensures
        spec_nb_spaces_html_at(s, i) == s.skip(i),
    decreases s.len() - i,
{
    if i >= s.len() {
        assert(spec_nb_spaces_html_at(s, i) =~= s.skip(i));
    } else if !token_char(s[i]) {
        lemma_nb_spaces_html_fixed_at(s, i + 1);
        assert(spec_nb_spaces_html_at(s, i) =~= s.skip(i));
    } else {
        lemma_run_end(s, i);
        let e = run_end(s, i);
        assert(!run_has_narrow(s, i, e));
        lemma_nb_spaces_html_fixed_at(s, e);
        assert(spec_nb_spaces_html_at(s, i) =~= s.skip(i));
    }
}

} // verus!
