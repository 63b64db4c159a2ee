//! The French contextual spacing engine.
//!
//! [`FrenchFormatter`] orchestrates the lexical cleanup passes and then
//! corrects, in place, the spacing around punctuation, dashes, guillemets
//! and numbers, following the French non-breaking-space conventions. Every
//! decision is a bounded local heuristic: on ambiguity the character is left
//! unchanged rather than rewritten destructively.

use vstd::prelude::*;

use crate::clean;
use crate::common::{space_like, str_chars, chars_string, NB_CHAR, NB_CHAR_EM,
    NB_CHAR_NARROW};
use crate::unicode::{spec_alphabetic, spec_digit, spec_lowercase, spec_uppercase, spec_white,
    is_digit_char};

verus! {

/// French typographic formatter.
///
/// Tries to make a text typographically correct according to French rules:
///
/// * spaces before `?`, `!`, `;` become narrow non-breaking spaces;
/// * spaces before `:` become non-breaking spaces;
/// * the space after a dialogue dash becomes an en space;
/// * spaces after `«` and before `»` become non-breaking or narrow
///   non-breaking, depending on whether the span looks like dialogue or a
///   few quoted words;
/// * spaces in numbers, e.g. `80 000` or `50 €`, become narrow and
///   non-breaking.
///
/// The generic cleanup passes (curly quotes, ellipsis, dash and guillemet
/// ligatures) run first, each behind its own toggle. The heuristics involve
/// a bit of guessing, so the four thresholds can be tuned for better
/// results.
#[derive(Debug, Clone, Copy)]
pub struct FrenchFormatter {
    /// After that number of characters, assume it's not a currency.
    pub threshold_currency: usize,
    /// After that number of characters, assume it's not a unit.
    pub threshold_unit: usize,
    /// After that number of characters, assume it is a dialogue.
    pub threshold_quote: usize,
    /// After that number of characters, assume it isn't an abbreviation.
    pub threshold_real_word: usize,
    /// Enable typographic apostrophes and quotes.
    pub typographic_quotes: bool,
    /// Enable typographic ellipsis.
    pub typographic_ellipsis: bool,
    /// Enable dash ligature replacement.
    pub ligature_dashes: bool,
    /// Enable guillemet ligature replacement.
    pub ligature_guillemets: bool,
}

/// The default configuration: thresholds 3, 2, 20 and 3; quotes and
/// ellipsis replacement on, the two ligature substitutions off.
pub open spec fn default_config() -> FrenchFormatter {
    FrenchFormatter {
        threshold_currency: 3,
        threshold_unit: 2,
        threshold_quote: 20,
        threshold_real_word: 3,
        typographic_quotes: true,
        typographic_ellipsis: true,
        ligature_dashes: false,
        ligature_guillemets: false,
    }
}

impl Default for FrenchFormatter {
    fn default() -> (r: Self)
        ensures
            r == default_config(),
    {
        FrenchFormatter {
            threshold_currency: 3,
            threshold_unit: 2,
            threshold_quote: 20,
            threshold_real_word: 3,
            typographic_quotes: true,
            typographic_ellipsis: true,
            ligature_dashes: false,
            ligature_guillemets: false,
        }
    }
}

impl FrenchFormatter {
    /// Create a new `FrenchFormatter` with default settings.
    pub fn new() -> (r: Self)
        ensures
            r == default_config(),
    {
        Self::default()
    }

    /// Sets the currency threshold: after that number of characters, assume
    /// it's not a currency. Default is `3`.
    pub fn threshold_currency(self, t: usize) -> (r: Self)
        ensures
            r == (FrenchFormatter { threshold_currency: t, ..self }),
    {
        FrenchFormatter { threshold_currency: t, ..self }
    }

    /// Sets the unit threshold: after that number of characters, assume
    /// it's not a unit. Default is `2`.
    pub fn threshold_unit(self, t: usize) -> (r: Self)
        ensures
            r == (FrenchFormatter { threshold_unit: t, ..self }),
    {
        FrenchFormatter { threshold_unit: t, ..self }
    }

    /// Sets the quote threshold: after that number of characters, assume
    /// it's not a quote of a few words but a dialogue. Default is `20`.
    pub fn threshold_quote(self, t: usize) -> (r: Self)
        ensures
            r == (FrenchFormatter { threshold_quote: t, ..self }),
    {
        FrenchFormatter { threshold_quote: t, ..self }
    }

    /// Sets the real-word threshold: after that number of characters,
    /// assume it's not an abbreviation but a real word, used to decide
    /// whether a period ends a sentence. Default is `3`.
    pub fn threshold_real_word(self, t: usize) -> (r: Self)
        ensures
            r == (FrenchFormatter { threshold_real_word: t, ..self }),
    {
        FrenchFormatter { threshold_real_word: t, ..self }
    }

    /// Enables the typographic quotes replacement: `"L'"` becomes `"L’"`.
    /// Default is on.
    pub fn typographic_quotes(self, b: bool) -> (r: Self)
        ensures
            r == (FrenchFormatter { typographic_quotes: b, ..self }),
    {
        FrenchFormatter { typographic_quotes: b, ..self }
    }

    /// Enables the typographic ellipsis replacement: `"..."` becomes `"…"`.
    /// Default is on.
    pub fn typographic_ellipsis(self, b: bool) -> (r: Self)
        ensures
            r == (FrenchFormatter { typographic_ellipsis: b, ..self }),
    {
        FrenchFormatter { typographic_ellipsis: b, ..self }
    }

    /// If set, replaces `--` with `–` and `---` with `—`. Default is off.
    pub fn ligature_dashes(self, b: bool) -> (r: Self)
        ensures
            r == (FrenchFormatter { ligature_dashes: b, ..self }),
    {
        FrenchFormatter { ligature_dashes: b, ..self }
    }

    /// If set, replaces `<<` with `«` and `>>` with `»`. Default is off.
    pub fn ligature_guillemets(self, b: bool) -> (r: Self)
        ensures
            r == (FrenchFormatter { ligature_guillemets: b, ..self }),
    {
        FrenchFormatter { ligature_guillemets: b, ..self }
    }
}

/// The spaces the spacing passes may rewrite: plain space and the two
/// non-breaking spaces the passes themselves insert before punctuation. The
/// en space is not among them — where one stands, it was put on purpose.
pub open spec fn rewritable_space(c: char) -> bool {
    c == ' ' || c == NB_CHAR || c == NB_CHAR_NARROW
}

/// True exactly on the spaces the spacing passes may rewrite.
pub fn is_rewritable_space(c: char) -> (r: bool)
    ensures
        r == rewritable_space(c),
{
    c == ' ' || c == NB_CHAR || c == NB_CHAR_NARROW
}

/// The trouble characters: those whose neighboring spacing may need
/// correction.
pub open spec fn spec_trouble(c: char) -> bool {
    c == '?' || c == '!' || c == ';' || c == ':' || c == '\u{bb}' || c == '\u{ab}'
        || c == '\u{2014}' || c == '\u{2013}'
}

/// True exactly on the trouble characters.
pub fn is_trouble(c: char) -> (r: bool)
    ensures
        r == spec_trouble(c),
{
    c == '?' || c == '!' || c == ';' || c == ':' || c == '\u{bb}' || c == '\u{ab}'
        || c == '\u{2014}' || c == '\u{2013}'
}

/// First position at or past `n` holding character `c`, if any.
pub open spec fn spec_find_next(s: Seq<char>, c: char, n: int) -> Option<int>
    decreases s.len() - n,
{
    if n < 0 || n >= s.len() {
        None
    } else if s[n] == c {
        Some(n)
    } else {
        spec_find_next(s, c, n + 1)
    }
}

/// Where `spec_find_next` finds a character, its index lies in the text.
proof fn lemma_find_next_in_range(s: Seq<char>, c: char, n: int)
    ensures
        spec_find_next(s, c, n) matches Some(j) ==> n <= j < s.len() && s[j] == c,
    decreases s.len() - n,
{
    if n < 0 || n >= s.len() {
    } else {
        lemma_find_next_in_range(s, c, n + 1);
    }
}

/// A `usize` option as a mathematical-integer option.
pub open spec fn opt_pos(p: Option<usize>) -> Option<int> {
    match p {
        Some(n) => Some(n as int),
        None => None,
    }
}

/// Find the first char `c` in `v` at or after index `n`.
pub fn find_next(v: &Vec<char>, c: char, n: usize) -> (r: Option<usize>)
    ensures
        opt_pos(r) == spec_find_next(v@, c, n as int),
        r matches Some(j) ==> n <= j < v@.len(),
{
    let mut i = n;
    while i < v.len()
        invariant
            n <= i,
            spec_find_next(v@, c, n as int) == spec_find_next(v@, c, i as int),
        decreases v.len() - i,
    {
        if v[i] == c {
            return Some(i);
        }
        i += 1;
    }
    None
}

/// Whether the next non-whitespace character at or past `n` is uppercase;
/// characters that are neither upper- nor lowercase are skipped.
pub open spec fn spec_next_char_uppercase(s: Seq<char>, n: int) -> bool
    decreases s.len() - n,
{
    if n < 0 || n >= s.len() {
        false
    } else if spec_white(s[n]) {
        spec_next_char_uppercase(s, n + 1)
    } else if spec_uppercase(s[n]) {
        true
    } else if spec_lowercase(s[n]) {
        false
    } else {
        spec_next_char_uppercase(s, n + 1)
    }
}

/// Return true if the next non-whitespace char in `v` at or after index `n`
/// is uppercase.
pub fn is_next_char_uppercase(v: &Vec<char>, n: usize) -> (r: bool)
    ensures
        r == spec_next_char_uppercase(v@, n as int),
{
    let mut i = n;
    while i < v.len()
        invariant
            n <= i,
            spec_next_char_uppercase(v@, n as int) == spec_next_char_uppercase(v@, i as int),
        decreases v.len() - i,
    {
        let c = v[i];
        if c.is_whitespace() {
            i += 1;
        } else if c.is_uppercase() {
            return true;
        } else if c.is_lowercase() {
            return false;
        } else {
            i += 1;
        }
    }
    false
}

/// First alphabetic position at or past `n`, if any.
pub open spec fn spec_first_alpha(s: Seq<char>, n: int) -> Option<int>
    decreases s.len() - n,
{
    if n < 0 || n >= s.len() {
        None
    } else if spec_alphabetic(s[n]) {
        Some(n)
    } else {
        spec_first_alpha(s, n + 1)
    }
}

/// First whitespace position at or past `n`, if any.
pub open spec fn spec_first_white(s: Seq<char>, n: int) -> Option<int>
    decreases s.len() - n,
{
    if n < 0 || n >= s.len() {
        None
    } else if spec_white(s[n]) {
        Some(n)
    } else {
        spec_first_white(s, n + 1)
    }
}

/// Where the word of `spec_next_word` begins: at the first alphabetic
/// character at or past `n`, or at `n` itself where none exists.
pub open spec fn spec_word_begin(s: Seq<char>, n: int) -> int {
    match spec_first_alpha(s, n) {
        Some(b) => b,
        None => n,
    }
}

/// Where the word beginning at `b` ends: at the first whitespace at or
/// past `b`, or at the end of the text.
pub open spec fn spec_word_end(s: Seq<char>, b: int) -> int {
    match spec_first_white(s, b) {
        Some(j) => j,
        None => s.len() as int,
    }
}

/// The next word at or past `n`, as the heuristics read it.
pub open spec fn spec_next_word(s: Seq<char>, n: int) -> Seq<char> {
    s.subrange(spec_word_begin(s, n), spec_word_end(s, spec_word_begin(s, n)))
}

/// A found first-alphabetic position lies in the text and holds an
/// alphabetic character.
proof fn lemma_first_alpha_range(s: Seq<char>, n: int)
    ensures
        spec_first_alpha(s, n) matches Some(b) ==> n <= b < s.len() && spec_alphabetic(s[b]),
    decreases s.len() - n,
{
    if n < 0 || n >= s.len() {
    } else {
        lemma_first_alpha_range(s, n + 1);
    }
}

/// A found first-whitespace position lies in the text; where the character
/// at `n` is not whitespace, it lies strictly past `n`.
proof fn lemma_first_white_range(s: Seq<char>, n: int)
    ensures
        spec_first_white(s, n) matches Some(j) ==> n <= j < s.len() && spec_white(s[j]),
        0 <= n < s.len() && !spec_white(s[n])
            ==> spec_first_white(s, n) != Some(n),
    decreases s.len() - n,
{
    if n < 0 || n >= s.len() {
    } else {
        lemma_first_white_range(s, n + 1);
    }
}

/// The word the heuristics read starts at or past `n` and is a well-formed
/// range.
proof fn lemma_next_word_wf(s: Seq<char>, n: int)
    requires
        0 <= n <= s.len(),
    ensures
        n <= spec_word_begin(s, n) <= spec_word_end(s, spec_word_begin(s, n)) <= s.len(),
{
    lemma_first_alpha_range(s, n);
    lemma_first_white_range(s, spec_word_begin(s, n));
}

/// Returns the next word in `v` starting from index `n`: from the first
/// alphabetic character on, up to (exclusive) the first whitespace after
/// it.
pub fn get_next_word(v: &Vec<char>, n: usize) -> (w: Vec<char>)
    requires
        n <= v@.len(),
    ensures
        w@ == spec_next_word(v@, n as int),
{
    proof {
        lemma_next_word_wf(v@, n as int);
    }
    let mut beginning = n;
    let mut found = false;
    let mut i = n;
    while i < v.len() && !found
        invariant
            n <= i <= v@.len(),
            !found ==> spec_first_alpha(v@, n as int) == spec_first_alpha(v@, i as int),
            !found ==> beginning == n,
            found ==> spec_first_alpha(v@, n as int) == Some(beginning as int),
        decreases v.len() - i + (if found { 0int } else { 1int }),
    {
        if v[i].is_alphabetic() {
            beginning = i;
            found = true;
        } else {
            i += 1;
        }
    }
    proof {
        lemma_first_alpha_range(v@, n as int);
        assert(beginning as int == spec_word_begin(v@, n as int));
    }
    let mut end = v.len();
    let mut j = beginning;
    let mut stopped = false;
    while j < v.len() && !stopped
        invariant
            beginning <= j <= v@.len(),
            !stopped ==> spec_first_white(v@, beginning as int)
                == spec_first_white(v@, j as int),
            !stopped ==> end == v.len(),
            stopped ==> spec_first_white(v@, beginning as int) == Some(j as int) && end == j,
        decreases v.len() - j + (if stopped { 0int } else { 1int }),
    {
        if v[j].is_whitespace() {
            end = j;
            stopped = true;
        } else {
            j += 1;
        }
    }
    proof {
        assert(end as int == spec_word_end(v@, spec_word_begin(v@, n as int)));
        lemma_next_word_wf(v@, n as int);
    }
    let mut w: Vec<char> = Vec::new();
    let mut k = beginning;
    while k < end
        invariant
            beginning <= k <= end <= v@.len(),
            w@ == v@.subrange(beginning as int, k as int),
        decreases end - k,
    {
        w.push(v[k]);
        k += 1;
        proof {
            assert(w@ =~= v@.subrange(beginning as int, k as int));
        }
    }
    w
}

/// True when every character of the word is uppercase.
fn all_uppercase(w: &Vec<char>) -> (r: bool)
    ensures
        r == forall|k: int| 0 <= k < w@.len() ==> spec_uppercase(#[trigger] w@[k]),
{
    let mut k: usize = 0;
    while k < w.len()
        invariant
            k <= w@.len(),
            forall|m: int| 0 <= m < k ==> spec_uppercase(#[trigger] w@[m]),
        decreases w.len() - k,
    {
        if !w[k].is_uppercase() {
            return false;
        }
        k += 1;
    }
    true
}

/// Whether the character at `i` is a symbol that belongs to a number
/// before it and should be glued to it with a non-breaking space: the
/// degree sign, a short all-uppercase word (a currency code), a short
/// lowercase word (a unit), or, with no letter after it, any standalone
/// symbol or single uppercase letter.
pub open spec fn spec_char_is_symbol(f: FrenchFormatter, s: Seq<char>, i: int) -> bool {
    let is_next_letter = if i < s.len() - 1 {
        spec_alphabetic(s[i + 1])
    } else {
        false
    };
    if is_next_letter {
        if s[i] == '\u{b0}' {
            true
        } else if spec_uppercase(s[i]) {
            if spec_next_word(s, i).len() > f.threshold_currency {
                false
            } else {
                forall|k: int| 0 <= k < spec_next_word(s, i).len()
                    ==> spec_uppercase(#[trigger] spec_next_word(s, i)[k])
            }
        } else if spec_alphabetic(s[i]) {
            spec_next_word(s, i).len() <= f.threshold_unit
        } else {
            false
        }
    } else {
        if !spec_alphabetic(s[i]) && !spec_white(s[i]) {
            true
        } else if spec_uppercase(s[i]) {
            true
        } else {
            false
        }
    }
}

impl FrenchFormatter {
    /// Return true if the character is a symbol that is used after a number
    /// and should have a non-breaking space before it.
    pub fn char_is_symbol(&self, v: &Vec<char>, i: usize) -> (r: bool)
        requires
            i < v@.len(),
        ensures
            r == spec_char_is_symbol(*self, v@, i as int),
    {
        let is_next_letter = if i < v.len() - 1 {
            v[i + 1].is_alphabetic()
        } else {
            false
        };
        let c = v[i];
        if is_next_letter {
            if c == '\u{b0}' {
                true
            } else if c.is_uppercase() {
                let word = get_next_word(v, i);
                if word.len() > self.threshold_currency {
                    // not a currency
                    false
                } else {
                    // all uppercase and short: assume a currency or a unit
                    all_uppercase(&word)
                }
            } else if c.is_alphabetic() {
                let word = get_next_word(v, i);
                // a couple of letters: assume it is a unit
                word.len() <= self.threshold_unit
            } else {
                false
            }
        } else {
            if !c.is_alphabetic() && !c.is_whitespace() {
                true
            } else if c.is_uppercase() {
                true
            } else {
                false
            }
        }
    }
}

/// Number of bytes a character occupies in UTF-8.
pub open spec fn utf8_width(c: char) -> int {
    if (c as u32) < 0x80 {
        1
    } else if (c as u32) < 0x800 {
        2
    } else if (c as u32) < 0x10000 {
        3
    } else {
        4
    }
}

/// Number of bytes a word occupies in UTF-8, which is the length the
/// abbreviation heuristic compares against its threshold.
pub open spec fn utf8_len(w: Seq<char>) -> int
    decreases w.len(),
{
    if w.len() == 0 {
        0
    } else {
        utf8_len(w.drop_last()) + utf8_width(w.last())
    }
}

/// A word's UTF-8 length is at least that of any of its prefixes.
proof fn lemma_utf8_len_prefix(w: Seq<char>, k: int)
    requires
        0 <= k <= w.len(),
    ensures
        utf8_len(w.take(k)) <= utf8_len(w),
    decreases w.len() - k,
{
    if k == w.len() {
        assert(w.take(k) =~= w);
    } else {
        lemma_utf8_len_prefix(w, k + 1);
        assert(w.take(k + 1).drop_last() =~= w.take(k));
        assert(utf8_len(w.take(k + 1)) == utf8_len(w.take(k)) + utf8_width(w[k]));
    }
}

/// Number of bytes a character occupies in UTF-8.
fn char_width(c: char) -> (r: usize)
    ensures
        r as int == utf8_width(c),
        1 <= r <= 4,
{
    let u = c as u32;
    if u < 0x80 {
        1
    } else if u < 0x800 {
        2
    } else if u < 0x10000 {
        3
    } else {
        4
    }
}

/// Whether the word's UTF-8 length exceeds `limit`.
fn word_len_exceeds(w: &Vec<char>, limit: usize) -> (r: bool)
    ensures
        r == (utf8_len(w@) > limit),
{
    let mut total: usize = 0;
    let mut k: usize = 0;
    while k < w.len()
        invariant
            k <= w@.len(),
            total as int == utf8_len(w@.take(k as int)),
            total <= limit,
        decreases w.len() - k,
    {
        let wd = char_width(w[k]);
        proof {
            assert(w@.take(k as int + 1).drop_last() =~= w@.take(k as int));
        }
        if wd > limit - total {
            proof {
                lemma_utf8_len_prefix(w@, k as int + 1);
            }
            return true;
        }
        total += wd;
        k += 1;
    }
    proof {
        assert(w@.take(w@.len() as int) =~= w@);
    }
    false
}

/// The closing-dash search from position `j` on, carrying the word read
/// since the last whitespace: stops with the position of the whitespace
/// before a later dash, and gives up at sentence-ending evidence — `?` or
/// `!` followed by an uppercase letter, or a period whose preceding word is
/// capitalized and no longer than the real-word threshold, followed by an
/// uppercase letter.
pub open spec fn spec_closing_dash_from(
    f: FrenchFormatter,
    s: Seq<char>,
    j: int,
    word: Seq<char>,
) -> Option<int>
    decreases s.len() - j,
{
    if j < 0 || j >= s.len() {
        None
    } else {
        let c = s[j];
        if c == '!' || c == '?' {
            if spec_next_char_uppercase(s, j + 1) {
                None
            } else {
                spec_closing_dash_from(f, s, j + 1, word)
            }
        } else if c == '-' || c == '\u{2013}' || c == '\u{2014}' {
            if spec_white(s[j - 1]) {
                Some(j - 1)
            } else {
                spec_closing_dash_from(f, s, j + 1, word)
            }
        } else if c == '.' {
            if !spec_next_char_uppercase(s, j + 1) {
                spec_closing_dash_from(f, s, j + 1, word)
            } else if word.len() > 0 && (!spec_uppercase(word[0])
                || utf8_len(word) > f.threshold_real_word) {
                None
            } else {
                spec_closing_dash_from(f, s, j + 1, word)
            }
        } else if spec_white(c) {
            spec_closing_dash_from(f, s, j + 1, Seq::empty())
        } else {
            spec_closing_dash_from(f, s, j + 1, word.push(c))
        }
    }
}

/// The closing-dash search starting at `n` with an empty word.
pub open spec fn spec_find_closing_dash(f: FrenchFormatter, s: Seq<char>, n: int) -> Option<int> {
    spec_closing_dash_from(f, s, n, Seq::empty())
}

/// Where the closing-dash search finds a position, it lies in the text, at
/// or past the position before the search's start.
proof fn lemma_closing_dash_in_range(
    f: FrenchFormatter,
    s: Seq<char>,
    j: int,
    word: Seq<char>,
)
    ensures
        spec_closing_dash_from(f, s, j, word) matches Some(r) ==> j - 1 <= r < s.len(),
    decreases s.len() - j,
{
    if j < 0 || j >= s.len() {
    } else {
        lemma_closing_dash_in_range(f, s, j + 1, word);
        lemma_closing_dash_in_range(f, s, j + 1, Seq::empty());
        lemma_closing_dash_in_range(f, s, j + 1, word.push(s[j]));
    }
}

impl FrenchFormatter {
    /// Search forward for a closing dash paired with an opening one, giving
    /// up — `None` — at what looks like the end of a sentence first.
    pub fn find_closing_dash(&self, v: &Vec<char>, n: usize) -> (r: Option<usize>)
        requires
            1 <= n,
        ensures
            opt_pos(r) == spec_find_closing_dash(*self, v@, n as int),
            r matches Some(x) ==> x < v@.len(),
    {
        proof {
            lemma_closing_dash_in_range(*self, v@, n as int, Seq::<char>::empty());
        }
        let mut word: Vec<char> = Vec::new();
        let mut j = n;
        while j < v.len()
            invariant
                1 <= n <= j,
                spec_find_closing_dash(*self, v@, n as int)
                    == spec_closing_dash_from(*self, v@, j as int, word@),
            decreases v.len() - j,
        {
            let c = v[j];
            if c == '!' || c == '?' {
                if is_next_char_uppercase(v, j + 1) {
                    return None;
                }
            } else if c == '-' || c == '\u{2013}' || c == '\u{2014}' {
                if v[j - 1].is_whitespace() {
                    proof {
                        lemma_closing_dash_in_range(*self, v@, n as int, Seq::<char>::empty());
                    }
                    return Some(j - 1);
                }
            } else if c == '.' {
                if !is_next_char_uppercase(v, j + 1) {
                    // an abbreviation-like period: keep searching
                } else if word.len() > 0 && (!word[0].is_uppercase()
                    || word_len_exceeds(&word, self.threshold_real_word)) {
                    return None;
                }
            } else if c.is_whitespace() {
                word = Vec::new();
            } else {
                word.push(c);
            }
            j += 1;
        }
        None
    }
}

/// First decimal digit at or past `n`, if any.
pub open spec fn spec_first_digit(s: Seq<char>, n: int) -> Option<int>
    decreases s.len() - n,
{
    if n < 0 || n >= s.len() {
        None
    } else if spec_digit(s[n]) {
        Some(n)
    } else {
        spec_first_digit(s, n + 1)
    }
}

/// First trouble character at or past `n`, if any.
pub open spec fn spec_first_trouble(s: Seq<char>, n: int) -> Option<int>
    decreases s.len() - n,
{
    if n < 0 || n >= s.len() {
        None
    } else if spec_trouble(s[n]) {
        Some(n)
    } else {
        spec_first_trouble(s, n + 1)
    }
}

/// First decimal digit of the buffer, if any.
fn first_digit_index(v: &Vec<char>) -> (r: Option<usize>)
    ensures
        opt_pos(r) == spec_first_digit(v@, 0),
        r matches Some(j) ==> j < v@.len(),
{
    let mut i: usize = 0;
    while i < v.len()
        invariant
            spec_first_digit(v@, 0) == spec_first_digit(v@, i as int),
        decreases v.len() - i,
    {
        if is_digit_char(v[i]) {
            return Some(i);
        }
        i += 1;
    }
    None
}

/// First trouble character of the buffer, if any.
fn first_trouble_index(v: &Vec<char>) -> (r: Option<usize>)
    ensures
        opt_pos(r) == spec_first_trouble(v@, 0),
        r matches Some(j) ==> j < v@.len(),
{
    let mut i: usize = 0;
    while i < v.len()
        invariant
            spec_first_trouble(v@, 0) == spec_first_trouble(v@, i as int),
        decreases v.len() - i,
    {
        if is_trouble(v[i]) {
            return Some(i);
        }
        i += 1;
    }
    None
}

/// One step of the numeric-run spacing at position `i`: inside a number
/// series, a whitespace character whose next token is a digit or a
/// stuck-to-number symbol becomes the narrow non-breaking space.
pub open spec fn spec_number_step(
    f: FrenchFormatter,
    s: Seq<char>,
    i: int,
    series: bool,
    nb_narrow: char,
) -> (Seq<char>, bool) {
    let c = s[i];
    if spec_digit(c) {
        if i == 0 || !spec_alphabetic(s[i - 1]) {
            (s, true)
        } else {
            (s, series)
        }
    } else if spec_white(c) {
        if series && (spec_digit(s[i + 1]) || spec_char_is_symbol(f, s, i + 1)) {
            (s.update(i, nb_narrow), series)
        } else {
            (s, series)
        }
    } else {
        (s, false)
    }
}

/// The numeric-run spacing from position `i` up to the second-to-last
/// character.
pub open spec fn spec_number_from(
    f: FrenchFormatter,
    s: Seq<char>,
    i: int,
    series: bool,
    nb_narrow: char,
) -> Seq<char>
    decreases s.len() - i,
    via spec_number_from_decreases
{
    if i < 0 || i + 1 >= s.len() {
        s
    } else {
        let step = spec_number_step(f, s, i, series, nb_narrow);
        spec_number_from(f, step.0, i + 1, step.1, nb_narrow)
    }
}

#[via_fn]
proof fn spec_number_from_decreases(
    f: FrenchFormatter,
    s: Seq<char>,
    i: int,
    series: bool,
    nb_narrow: char,
) {
    if 0 <= i && i + 1 < s.len() {
        assert(spec_number_step(f, s, i, series, nb_narrow).0.len() == s.len());
    }
}

/// One step of the punctuation/dash/guillemet spacing at position `i`,
/// rewriting the buffer in place: a space before `?`, `!` or `;` becomes
/// narrow non-breaking; before `:` or a closing guillemet, non-breaking;
/// the space after an opening guillemet or a dash is resolved by delimiter
/// matching, rewriting the matched closer's space in the same step.
pub open spec fn spec_trouble_step(
    f: FrenchFormatter,
    s: Seq<char>,
    i: int,
    nb: char,
    nb_em: char,
    nb_narrow: char,
) -> Seq<char> {
    let current = s[i];
    let next = s[i + 1];
    if rewritable_space(current) {
        if next == '?' || next == '!' || next == ';' {
            s.update(i, nb_narrow)
        } else if next == ':' {
            s.update(i, nb)
        } else if next == '\u{bb}' {
            // a non-plain space here was used for a reason: keep it
            if current == ' ' {
                s.update(i, nb)
            } else {
                s
            }
        } else {
            s
        }
    } else if (current == '\u{2014}' || current == '\u{ab}' || current == '-'
        || current == '\u{2013}') && rewritable_space(next) {
        if current == '\u{ab}' {
            match spec_find_next(s, '\u{bb}', i) {
                Some(j) => if spec_white(s[j - 1]) {
                    if i <= 1 || j - i > f.threshold_quote {
                        // at the front, or long: a dialogue or quotation
                        s.update(j - 1, nb).update(i + 1, nb)
                    } else {
                        // short: a few quoted words
                        s.update(j - 1, nb_narrow).update(i + 1, nb_narrow)
                    }
                } else {
                    s.update(i + 1, nb)
                },
                // no closing guillemet: assume a dialogue
                None => s.update(i + 1, nb),
            }
        } else {
            if i <= 1 {
                s.update(i + 1, nb_em)
            } else if s[i - 1] == nb {
                // non-breaking space before, so the one after may break
                s.update(i + 1, ' ')
            } else {
                match spec_find_closing_dash(f, s, i + 1) {
                    Some(closing) => s.update(closing, nb).update(i + 1, nb),
                    None => s.update(i + 1, nb),
                }
            }
        }
    } else {
        s
    }
}

/// The punctuation/dash/guillemet spacing from position `i` up to the
/// second-to-last character.
pub open spec fn spec_trouble_from(
    f: FrenchFormatter,
    s: Seq<char>,
    i: int,
    nb: char,
    nb_em: char,
    nb_narrow: char,
) -> Seq<char>
    decreases s.len() - i,
    via spec_trouble_from_decreases
{
    if i < 0 || i + 1 >= s.len() {
        s
    } else {
        spec_trouble_from(f, spec_trouble_step(f, s, i, nb, nb_em, nb_narrow), i + 1, nb, nb_em,
            nb_narrow)
    }
}

#[via_fn]
proof fn spec_trouble_from_decreases(
    f: FrenchFormatter,
    s: Seq<char>,
    i: int,
    nb: char,
    nb_em: char,
    nb_narrow: char,
) {
    if 0 <= i && i + 1 < s.len() {
        lemma_find_next_in_range(s, '\u{bb}', i);
        lemma_closing_dash_in_range(f, s, i + 1, Seq::<char>::empty());
        assert(spec_trouble_step(f, s, i, nb, nb_em, nb_narrow).len() == s.len());
    }
}

/// The lexical passes of the formatter, in order: whitespace collapse, then
/// the dash and guillemet ligatures, quote disambiguation and ellipsis
/// replacement, each if enabled.
pub open spec fn spec_lexical(f: FrenchFormatter, s: Seq<char>) -> Seq<char> {
    let a = clean::spec_collapse(s);
    let b = if f.ligature_dashes {
        clean::spec_dashes(a)
    } else {
        a
    };
    let c = if f.ligature_guillemets {
        clean::spec_guillemets(b)
    } else {
        b
    };
    let d = if f.typographic_quotes {
        clean::spec_quotes(c)
    } else {
        c
    };
    if f.typographic_ellipsis {
        clean::spec_ellipsis(d)
    } else {
        d
    }
}

/// The whole format: the lexical passes, then — unless the text holds
/// neither a digit nor a trouble character — the numeric-run spacing
/// followed by the punctuation/dash/guillemet spacing, each starting one
/// position before the first character that concerns it.
pub open spec fn spec_format_output(
    f: FrenchFormatter,
    s: Seq<char>,
    nb: char,
    nb_em: char,
    nb_narrow: char,
) -> Seq<char> {
    let t = spec_lexical(f, s);
    let first = spec_first_trouble(t, 0);
    let first_number = spec_first_digit(t, 0);
    if first is None && first_number is None {
        t
    } else {
        let u = match first_number {
            Some(d) => spec_number_from(f, t, if d > 1 { d - 1 } else { 0 }, false, nb_narrow),
            None => t,
        };
        match first {
            Some(x) => spec_trouble_from(f, u, if x > 1 { x - 1 } else { 0 }, nb, nb_em,
                nb_narrow),
            None => u,
        }
    }
}

impl FrenchFormatter {
    /// Format a string according to French typographic rules, writing the
    /// given characters for the standard, en and narrow non-breaking
    /// spaces.
    fn format_output(&self, input: &str, nb_char: char, nb_char_em: char, nb_char_narrow: char)
        -> (out: String)
        ensures
            out@ == spec_format_output(*self, input@, nb_char, nb_char_em, nb_char_narrow),
    {
        let mut text = clean::whitespaces(input);
        if self.ligature_dashes {
            text = clean::dashes(text.as_str());
        }
        if self.ligature_guillemets {
            text = clean::guillemets(text.as_str());
        }
        if self.typographic_quotes {
            text = clean::quotes(text.as_str());
        }
        if self.typographic_ellipsis {
            text = clean::ellipsis(text.as_str());
        }
        proof {
            assert(text@ == spec_lexical(*self, input@));
        }
        let mut chars = str_chars(text.as_str());
        let first = first_trouble_index(&chars);
        let first_number = first_digit_index(&chars);
        if first.is_none() && first_number.is_none() {
            return text;
        }
        let ghost t0 = chars@;
        if let Some(fd) = first_number {
            let start = if fd > 1 { fd - 1 } else { 0 };
            let mut is_number_series = false;
            let mut i = start;
            while i < chars.len() && i + 1 < chars.len()
                invariant
                    start <= i,
                    chars@.len() == t0.len(),
                    spec_number_from(*self, t0, start as int, false, nb_char_narrow)
                        == spec_number_from(*self, chars@, i as int, is_number_series,
                            nb_char_narrow),
                decreases chars.len() - i,
            {
                let ghost pre = chars@;
                let ghost pre_series = is_number_series;
                let current = chars[i];
                let next = chars[i + 1];
                if is_digit_char(current) {
                    if i == 0 || !chars[i - 1].is_alphabetic() {
                        is_number_series = true;
                    }
                } else if current.is_whitespace() {
                    if is_number_series && (is_digit_char(next)
                        || self.char_is_symbol(&chars, i + 1)) {
                        // next is a number or a symbol such as a currency
                        chars.set(i, nb_char_narrow);
                    }
                } else {
                    is_number_series = false;
                }
                i += 1;
                proof {
                    let step = spec_number_step(*self, pre, i as int - 1, pre_series,
                        nb_char_narrow);
                    assert(chars@ =~= step.0);
                    assert(is_number_series == step.1);
                }
            }
        }
        proof {
            assert(chars@ == (match opt_pos(first_number) {
                Some(d) => spec_number_from(*self, t0, if d > 1 { d - 1 } else { 0 }, false,
                    nb_char_narrow),
                None => t0,
            }));
        }
        let ghost u0 = chars@;
        if let Some(ft) = first {
            let start = if ft > 1 { ft - 1 } else { 0 };
            let mut i = start;
            while i < chars.len() && i + 1 < chars.len()
                invariant
                    start <= i,
                    chars@.len() == u0.len(),
                    spec_trouble_from(*self, u0, start as int, nb_char, nb_char_em,
                        nb_char_narrow)
                        == spec_trouble_from(*self, chars@, i as int, nb_char, nb_char_em,
                            nb_char_narrow),
                decreases chars.len() - i,
            {
                let ghost pre = chars@;
                let current = chars[i];
                let next = chars[i + 1];
                if is_rewritable_space(current) {
                    if next == '?' || next == '!' || next == ';' {
                        chars.set(i, nb_char_narrow);
                    } else if next == ':' {
                        chars.set(i, nb_char);
                    } else if next == '\u{bb}' {
                        if current == ' ' {
                            chars.set(i, nb_char);
                        }
                    }
                } else {
                    if (current == '\u{2014}' || current == '\u{ab}' || current == '-'
                        || current == '\u{2013}') && is_rewritable_space(next) {
                        let replacing_char = if current == '\u{ab}' {
                            proof {
                                lemma_find_next_in_range(chars@, '\u{bb}', i as int);
                            }
                            match find_next(&chars, '\u{bb}', i) {
                                Some(j) => {
                                    if chars[j - 1].is_whitespace() {
                                        if i <= 1 || j - i > self.threshold_quote {
                                            // at the front, or long: a dialogue
                                            chars.set(j - 1, nb_char);
                                            nb_char
                                        } else {
                                            // short: a few quoted words
                                            chars.set(j - 1, nb_char_narrow);
                                            nb_char_narrow
                                        }
                                    } else {
                                        nb_char
                                    }
                                },
                                // no closing guillemet: assume a dialogue
                                None => nb_char,
                            }
                        } else {
                            if i <= 1 {
                                nb_char_em
                            } else if chars[i - 1] == nb_char {
                                // non-breaking space before: keep one that breaks after
                                ' '
                            } else {
                                match self.find_closing_dash(&chars, i + 1) {
                                    Some(closing) => {
                                        chars.set(closing, nb_char);
                                        nb_char
                                    },
                                    None => nb_char,
                                }
                            }
                        };
                        chars.set(i + 1, replacing_char);
                    }
                }
                i += 1;
                proof {
                    assert(chars@ =~= spec_trouble_step(*self, pre, i as int - 1, nb_char,
                        nb_char_em, nb_char_narrow));
                }
            }
        }
        chars_string(&chars)
    }

    /// (Try to) format a string according to French typographic rules,
    /// using the native non-breaking-space characters.
    ///
    /// Call this once per paragraph: the beginning of the string is assumed
    /// to also begin a line.
    pub fn format(&self, input: &str) -> (out: String)
        ensures
            out@ == spec_format_output(*self, input@, NB_CHAR, NB_CHAR_EM, NB_CHAR_NARROW),
    {
        self.format_output(input, NB_CHAR, NB_CHAR_EM, NB_CHAR_NARROW)
    }

    /// (Try to) format a string according to French typographic rules,
    /// writing `~` for every non-breaking space so the result works
    /// correctly as LaTeX input.
    pub fn format_tex(&self, input: &str) -> (out: String)
        ensures
            out@ == spec_format_output(*self, input@, '~', '~', '~'),
    {
        self.format_output(input, '~', '~', '~')
    }
}

/// The numeric-run spacing rewrites characters in place: it never changes
/// the length of the text.
pub proof fn lemma_number_from_len(
    f: FrenchFormatter,
    s: Seq<char>,
    i: int,
    series: bool,
    nb_narrow: char,
)
    ensures
        spec_number_from(f, s, i, series, nb_narrow).len() == s.len(),
    decreases s.len() - i,
{
    if i < 0 || i + 1 >= s.len() {
    } else {
        let step = spec_number_step(f, s, i, series, nb_narrow);
        assert(step.0.len() == s.len());
        lemma_number_from_len(f, step.0, i + 1, step.1, nb_narrow);
    }
}

/// The punctuation/dash/guillemet spacing rewrites characters in place: it
/// never changes the length of the text.
pub proof fn lemma_trouble_from_len(
    f: FrenchFormatter,
    s: Seq<char>,
    i: int,
    nb: char,
    nb_em: char,
    nb_narrow: char,
)
    ensures
        spec_trouble_from(f, s, i, nb, nb_em, nb_narrow).len() == s.len(),
    decreases s.len() - i,
{
    if i < 0 || i + 1 >= s.len() {
    } else {
        let step = spec_trouble_step(f, s, i, nb, nb_em, nb_narrow);
        lemma_find_next_in_range(s, '\u{bb}', i);
        lemma_closing_dash_in_range(f, s, i + 1, Seq::<char>::empty());
        assert(step.len() == s.len());
        lemma_trouble_from_len(f, step, i + 1, nb, nb_em, nb_narrow);
    }
}

/// Law: the formatter never lengthens the text. The lexical passes only
/// collapse or substitute shorter glyphs, and the two spacing passes
/// rewrite characters strictly in place.
pub proof fn lemma_format_no_expansion(
    f: FrenchFormatter,
    s: Seq<char>,
    nb: char,
    nb_em: char,
    nb_narrow: char,
)
    ensures
        spec_format_output(f, s, nb, nb_em, nb_narrow).len() <= s.len(),
{
    clean::lemma_collapse_len(s, 0, false);
    let a = clean::spec_collapse(s);
    clean::lemma_dashes_len(a, 0);
    let b = if f.ligature_dashes {
        clean::spec_dashes(a)
    } else {
        a
    };
    clean::lemma_guillemets_len(b, 0);
    let c = if f.ligature_guillemets {
        clean::spec_guillemets(b)
    } else {
        b
    };
    clean::lemma_quotes_length(c);
    let d = if f.typographic_quotes {
        clean::spec_quotes(c)
    } else {
        c
    };
    clean::lemma_ellipsis_len(d, 0);
    let e = if f.typographic_ellipsis {
        clean::spec_ellipsis(d)
    } else {
        d
    };
    assert(e == spec_lexical(f, s));
    assert(e.len() <= s.len());
    let fd = spec_first_digit(e, 0);
    let ft = spec_first_trouble(e, 0);
    let u = match fd {
        Some(d0) => spec_number_from(f, e, if d0 > 1 { d0 - 1 } else { 0 }, false, nb_narrow),
        None => e,
    };
    match fd {
        Some(d0) => lemma_number_from_len(f, e, if d0 > 1 { d0 - 1 } else { 0 }, false,
            nb_narrow),
        None => {},
    }
    match ft {
        Some(x) => lemma_trouble_from_len(f, u, if x > 1 { x - 1 } else { 0 }, nb, nb_em,
            nb_narrow),
        None => {},
    }
}

/// A text without trouble characters has no first trouble position, and one
/// without digits no first digit position.
proof fn lemma_no_first(s: Seq<char>, n: int)
    requires
        0 <= n,
    ensures
        (forall|k: int| 0 <= k < s.len() ==> !spec_trouble(#[trigger] s[k]))
            ==> spec_first_trouble(s, n) is None,
        (forall|k: int| 0 <= k < s.len() ==> !spec_digit(#[trigger] s[k]))
            ==> spec_first_digit(s, n) is None,
    decreases s.len() - n,
{
    if n < s.len() {
        lemma_no_first(s, n + 1);
    }
}

/// Law: a text containing none of the formatter's trigger characters — no
/// digit, no trouble character, no straight quote, no period, no dash, no
/// angle bracket, and no two adjacent space-like characters — is returned
/// unchanged, whatever the configuration and output characters.
pub proof fn lemma_format_untriggered(
    f: FrenchFormatter,
    s: Seq<char>,
    nb: char,
    nb_em: char,
    nb_narrow: char,
)
    requires
        forall|k: int| 0 <= k < s.len() ==> !spec_trouble(#[trigger] s[k]) && !spec_digit(s[k])
            && s[k] != '"' && s[k] != '\'' && s[k] != '.' && s[k] != '-' && s[k] != '<'
            && s[k] != '>',
        forall|j: int| 0 <= j < s.len() - 1
            ==> !(#[trigger] space_like(s[j]) && space_like(s[j + 1])),
    ensures
        spec_format_output(f, s, nb, nb_em, nb_narrow) == s,
{
    clean::lemma_collapse_untriggered(s);
    clean::lemma_dashes_untriggered(s);
    clean::lemma_guillemets_untriggered(s);
    clean::lemma_quotes_untriggered(s);
    assert forall|j: int| !clean::ellipsis_dots(s, j) && !clean::ellipsis_spaced(s, j) by {
        if 0 <= j && j + 3 <= s.len() {
            assert(s[j] != '.');
        }
    }
    clean::lemma_ellipsis_untriggered(s);
    assert(spec_lexical(f, s) == s);
    lemma_no_first(s, 0);
}

/// Law: the guillemet threshold rule of the spacing step. Where an opening
/// guillemet at `i` is followed by a rewritable space and the forward
/// search finds a closing guillemet at `j` with whitespace right before
/// it, the step writes the standard non-breaking space at both ends of the
/// span exactly when the opener stands within the first two characters or
/// the span `j - i` exceeds the quote threshold, and the narrow one
/// otherwise — so spans of exactly the threshold and of one character more
/// select opposite spacing classes.
pub proof fn lemma_guillemet_span_class(
    f: FrenchFormatter,
    s: Seq<char>,
    i: int,
    nb: char,
    nb_em: char,
    nb_narrow: char,
)
    requires
        0 <= i,
        i + 1 < s.len(),
        s[i] == '\u{ab}',
        rewritable_space(s[i + 1]),
    ensures
        match spec_find_next(s, '\u{bb}', i) {
            Some(j) => spec_white(s[j - 1]) ==> if i <= 1 || j - i > f.threshold_quote {
                spec_trouble_step(f, s, i, nb, nb_em, nb_narrow)[i + 1] == nb
                    && spec_trouble_step(f, s, i, nb, nb_em, nb_narrow)[j - 1] == nb
            } else {
                spec_trouble_step(f, s, i, nb, nb_em, nb_narrow)[i + 1] == nb_narrow
                    && spec_trouble_step(f, s, i, nb, nb_em, nb_narrow)[j - 1] == nb_narrow
            },
            None => true,
        },
{
    lemma_find_next_in_range(s, '\u{bb}', i);
    lemma_find_next_in_range(s, '\u{bb}', i + 1);
    assert(spec_find_next(s, '\u{bb}', i) == spec_find_next(s, '\u{bb}', i + 1));
}

/// The closing-dash search gives up wherever it reaches `e` still
/// scanning: a `?` or `!` at `e` whose next cased character is uppercase
/// ends the search with nothing, whatever word has been read.
proof fn lemma_closing_dash_abort_from(
    f: FrenchFormatter,
    s: Seq<char>,
    j: int,
    e: int,
    word: Seq<char>,
)
    requires
        1 <= j <= e < s.len(),
        s[e] == '!' || s[e] == '?',
        spec_next_char_uppercase(s, e + 1),
        forall|k: int| j <= k <= e ==> !((s[k] == '-' || s[k] == '\u{2013}'
            || s[k] == '\u{2014}') && spec_white(#[trigger] s[k - 1])),
    ensures
        spec_closing_dash_from(f, s, j, word) is None,
    decreases e - j,
{
    if j == e {
    } else {
        let c = s[j];
        if c == '!' || c == '?' {
            if !spec_next_char_uppercase(s, j + 1) {
                lemma_closing_dash_abort_from(f, s, j + 1, e, word);
            }
        } else if c == '-' || c == '\u{2013}' || c == '\u{2014}' {
            lemma_closing_dash_abort_from(f, s, j + 1, e, word);
        } else if c == '.' {
            lemma_closing_dash_abort_from(f, s, j + 1, e, word);
        } else if spec_white(c) {
            lemma_closing_dash_abort_from(f, s, j + 1, e, Seq::<char>::empty());
        } else {
            lemma_closing_dash_abort_from(f, s, j + 1, e, word.push(c));
        }
    }
}

/// Law: the pairing search never bridges a sentence boundary. Where a `?`
/// or `!` followed (skipping whitespace and caseless characters) by an
/// uppercase letter stands before any whitespace-preceded dash, the
/// closing-dash search returns nothing and the opening dash is treated as
/// unpaired.
pub proof fn lemma_closing_dash_sentence_boundary(
    f: FrenchFormatter,
    s: Seq<char>,
    n: int,
    e: int,
)
    requires
        1 <= n <= e < s.len(),
        s[e] == '!' || s[e] == '?',
        spec_next_char_uppercase(s, e + 1),
        forall|k: int| n <= k <= e ==> !((s[k] == '-' || s[k] == '\u{2013}'
            || s[k] == '\u{2014}') && spec_white(#[trigger] s[k - 1])),
    ensures
        spec_find_closing_dash(f, s, n) is None,
{
    lemma_closing_dash_abort_from(f, s, n, e, Seq::<char>::empty());
}

/// A character the closing-dash scan reads into its word: neither
/// whitespace nor one of the characters the scan treats specially.
pub open spec fn scan_word_char(c: char) -> bool {
    !spec_white(c) && c != '!' && c != '?' && c != '.' && c != '-' && c != '\u{2013}'
        && c != '\u{2014}'
}

/// Carrying a word that already fails the abbreviation test — its first
/// character is not uppercase, or it is longer than the real-word
/// threshold — the scan reaching a sentence-ending period at `e` with no
/// whitespace or matched dash on the way gives up with nothing.
proof fn lemma_closing_dash_bad_word(
    f: FrenchFormatter,
    s: Seq<char>,
    j: int,
    e: int,
    word: Seq<char>,
)
    requires
        1 <= j <= e < s.len(),
        s[e] == '.',
        spec_next_char_uppercase(s, e + 1),
        word.len() > 0,
        !spec_uppercase(word[0]) || utf8_len(word) > f.threshold_real_word,
        forall|k: int| j <= k <= e ==> !((s[k] == '-' || s[k] == '\u{2013}'
            || s[k] == '\u{2014}') && spec_white(#[trigger] s[k - 1])),
        forall|k: int| j <= k < e ==> !spec_white(#[trigger] s[k]),
    ensures
        spec_closing_dash_from(f, s, j, word) is None,
    decreases e - j,
{
    if j == e {
    } else {
        let c = s[j];
        if c == '!' || c == '?' {
            if !spec_next_char_uppercase(s, j + 1) {
                lemma_closing_dash_bad_word(f, s, j + 1, e, word);
            }
        } else if c == '-' || c == '\u{2013}' || c == '\u{2014}' {
            lemma_closing_dash_bad_word(f, s, j + 1, e, word);
        } else if c == '.' {
            if !spec_next_char_uppercase(s, j + 1) {
                lemma_closing_dash_bad_word(f, s, j + 1, e, word);
            }
        } else {
            let grown = word.push(c);
            assert(grown.drop_last() =~= word);
            assert(utf8_len(grown) == utf8_len(word) + utf8_width(c));
            lemma_closing_dash_bad_word(f, s, j + 1, e, grown);
        }
    }
}

/// Whatever word the scan carries when it reaches the last whitespace
/// before a lowercase word ending at a sentence-ending period, it gives up
/// with nothing.
proof fn lemma_closing_dash_reach_word(
    f: FrenchFormatter,
    s: Seq<char>,
    j: int,
    w: int,
    e: int,
    word: Seq<char>,
)
    requires
        1 <= j <= w,
        w + 2 <= e < s.len(),
        spec_white(s[w]),
        scan_word_char(s[w + 1]),
        !spec_uppercase(s[w + 1]),
        forall|k: int| w < k < e ==> !spec_white(#[trigger] s[k]),
        s[e] == '.',
        spec_next_char_uppercase(s, e + 1),
        forall|k: int| j <= k <= e ==> !((s[k] == '-' || s[k] == '\u{2013}'
            || s[k] == '\u{2014}') && spec_white(#[trigger] s[k - 1])),
    ensures
        spec_closing_dash_from(f, s, j, word) is None,
    decreases w - j,
{
    if j == w {
        // the whitespace resets the word; the next character opens a word
        // that fails the capitalization test
        assert(spec_closing_dash_from(f, s, w + 1, Seq::<char>::empty())
            == spec_closing_dash_from(f, s, w + 2, Seq::<char>::empty().push(s[w + 1])));
        lemma_closing_dash_bad_word(f, s, w + 2, e, Seq::<char>::empty().push(s[w + 1]));
    } else {
        let c = s[j];
        if c == '!' || c == '?' {
            if !spec_next_char_uppercase(s, j + 1) {
                lemma_closing_dash_reach_word(f, s, j + 1, w, e, word);
            }
        } else if c == '-' || c == '\u{2013}' || c == '\u{2014}' {
            lemma_closing_dash_reach_word(f, s, j + 1, w, e, word);
        } else if c == '.' {
            if !spec_next_char_uppercase(s, j + 1) {
                lemma_closing_dash_reach_word(f, s, j + 1, w, e, word);
            } else if !(word.len() > 0 && (!spec_uppercase(word[0])
                || utf8_len(word) > f.threshold_real_word)) {
                lemma_closing_dash_reach_word(f, s, j + 1, w, e, word);
            }
        } else if spec_white(c) {
            lemma_closing_dash_reach_word(f, s, j + 1, w, e, Seq::<char>::empty());
        } else {
            lemma_closing_dash_reach_word(f, s, j + 1, w, e, word.push(c));
        }
    }
}

/// Law: a period ending a sentence also stops the pairing search. Where
/// the last whitespace before a sentence-ending period opens an
/// uncapitalized word, and no whitespace-preceded dash stands anywhere up
/// to the period, the closing-dash search returns nothing.
pub proof fn lemma_closing_dash_period_boundary(
    f: FrenchFormatter,
    s: Seq<char>,
    n: int,
    w: int,
    e: int,
)
    requires
        1 <= n <= w,
        w + 2 <= e < s.len(),
        spec_white(s[w]),
        scan_word_char(s[w + 1]),
        !spec_uppercase(s[w + 1]),
        forall|k: int| w < k < e ==> !spec_white(#[trigger] s[k]),
        s[e] == '.',
        spec_next_char_uppercase(s, e + 1),
        forall|k: int| n <= k <= e ==> !((s[k] == '-' || s[k] == '\u{2013}'
            || s[k] == '\u{2014}') && spec_white(#[trigger] s[k - 1])),
    ensures
        spec_find_closing_dash(f, s, n) is None,
{
    lemma_closing_dash_reach_word(f, s, n, w, e, Seq::<char>::empty());
}

} // verus!
