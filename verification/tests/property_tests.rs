use typofix::clean::{dashes, ellipsis, guillemets, quotes, whitespaces};
use typofix::common::is_whitespace;
use typofix::escape::{html, nb_spaces_tex, nnbsp, tex};
use typofix::french::{is_rewritable_space, FrenchFormatter};
use typofix::unicode::{char_class, CharClass};

// A transform with none of its trigger characters present returns the text
// unchanged.

#[test]
fn untriggered_transforms_are_identity() {
    let s = "plain words, nothing to rewrite here";
    assert_eq!(quotes(s), s);
    assert_eq!(ellipsis(s), s);
    assert_eq!(dashes(s), s);
    assert_eq!(guillemets(s), s);
    assert_eq!(html(s), s);
    assert_eq!(nb_spaces_tex(s), s);
    assert_eq!(whitespaces(s), s);
}

#[test]
fn format_without_digit_or_trouble_is_identity() {
    let s = "rien de spécial dans ce texte";
    assert_eq!(FrenchFormatter::new().format(s), s);
}

// Applying a ligature substitution or quote disambiguation twice gives the
// same result as applying it once.

#[test]
fn dashes_idempotent() {
    let once = dashes("a ---- b --- c -- d - e");
    let twice = dashes(&once);
    assert_eq!(twice, once);
}

#[test]
fn guillemets_idempotent() {
    let once = guillemets("<<< Foo >>> and << Bar >>");
    let twice = guillemets(&once);
    assert_eq!(twice, once);
}

#[test]
fn ellipsis_idempotent() {
    let once = ellipsis("Wait..... or . . . maybe. . . .");
    let twice = ellipsis(&once);
    assert_eq!(twice, once);
}

#[test]
fn quotes_idempotent() {
    let once = quotes("\"'Let's try \"nested\" quotes,' he said.\" And 'more'!");
    let twice = quotes(&once);
    assert_eq!(twice, once);
}

// The whitespace collapser never touches tabs or newlines, and never drops
// an isolated space.

#[test]
fn collapse_keeps_tabs_and_newlines() {
    let s = "line1  \t  line2\n\nend   here";
    assert_eq!(whitespaces(s), "line1 \t line2\n\nend here");
}

#[test]
fn collapse_keeps_isolated_spaces() {
    let s = " one space each, kept ";
    assert_eq!(whitespaces(s), s);
}

#[test]
fn collapse_mixed_space_runs_keep_first() {
    // a narrow no-break space followed by a plain space collapses to the first
    let s = "a\u{202f} b";
    assert_eq!(whitespaces(s), "a\u{202f}b");
}

// The guillemet span threshold: a span of exactly the quote threshold takes
// the narrow class, one character more takes the standard class.

#[test]
fn quote_threshold_boundary_narrow() {
    // the closing guillemet stands exactly 20 positions after the opener
    let s = "test « aaaaaaaaaaaaaaaaa »";
    let res = FrenchFormatter::new().format(s);
    assert_eq!(res, "test «\u{202f}aaaaaaaaaaaaaaaaa\u{202f}»");
}

#[test]
fn quote_threshold_boundary_standard() {
    // one character more: 21 positions, so the span counts as a dialogue
    let s = "test « aaaaaaaaaaaaaaaaaa »";
    let res = FrenchFormatter::new().format(s);
    assert_eq!(res, "test «\u{a0}aaaaaaaaaaaaaaaaaa\u{a0}»");
}

#[test]
fn quote_threshold_setter_moves_boundary() {
    let s = "test « court »";
    let res = FrenchFormatter::new().threshold_quote(3).format(s);
    assert_eq!(res, "test «\u{a0}court\u{a0}»");
}

// Unrelated dashes separated by a sentence boundary are spaced
// independently, never bridged into one dialogue span.

#[test]
fn dashes_not_bridged_across_sentences() {
    let s = "tirets – sans ça. Mais – si ?";
    let res = FrenchFormatter::new().format_tex(s);
    assert_eq!(res, "tirets –~sans ça. Mais –~si~?");
}

// Exact outputs of the escape formulas.

#[test]
fn tex_escape_formulas() {
    assert_eq!(tex("~"), "\\textasciitilde{}");
    assert_eq!(tex("^"), "\\textasciicircum{}");
    assert_eq!(tex("<a>"), "\\textless{}a\\textgreater{}");
    assert_eq!(tex("a!"), "a!{}");
    assert_eq!(tex("a_b"), "a\\_b");
}

#[test]
fn nb_spaces_tex_formulas() {
    assert_eq!(nb_spaces_tex("a\u{a0}b"), "a~b");
    assert_eq!(nb_spaces_tex("a\u{202f}b"), "a\\,b");
    assert_eq!(nb_spaces_tex("a\u{2002}b"), "a\\enspace b");
}

#[test]
fn html_escape_formulas() {
    assert_eq!(html("&"), "&amp;");
    assert_eq!(html("a<b"), "a&lt;b");
}

// The spacing engine's native output uses the real non-breaking characters.

#[test]
fn french_numbers_native_spaces() {
    let french = FrenchFormatter::new();
    assert_eq!(french.format("10 000"), "10\u{202f}000");
    assert_eq!(french.format("20 °C"), "20\u{202f}°C");
}

#[test]
fn french_punctuation_native_spaces() {
    let french = FrenchFormatter::new();
    assert_eq!(french.format("Ah bon ?"), "Ah bon\u{202f}?");
    assert_eq!(french.format("voici : cela"), "voici\u{a0}: cela");
}

// The lexical toggles: every pass can be switched on or off.

#[test]
fn toggles_select_lexical_passes() {
    let on = FrenchFormatter::new()
        .ligature_dashes(true)
        .ligature_guillemets(true);
    // the fresh en dash then gets the dash spacing treatment
    assert_eq!(on.format("a -- b"), "a –\u{a0}b");
    assert_eq!(on.format_tex("<< Oui >>"), "«~Oui~»");

    let off = FrenchFormatter::new()
        .typographic_quotes(false)
        .typographic_ellipsis(false);
    assert_eq!(off.format("l'an..."), "l'an...");
    assert_eq!(FrenchFormatter::new().format("l'an..."), "l’an…");
}

#[test]
fn elision_apostrophe_is_closing_glyph() {
    assert_eq!(quotes("L'apostrophe"), "L’apostrophe");
}

#[test]
fn char_classes_are_ordered() {
    assert_eq!(char_class(' '), CharClass::Whitespace);
    assert_eq!(char_class(','), CharClass::Punctuation);
    assert_eq!(char_class('a'), CharClass::Alphanumeric);
    assert_eq!(char_class('5'), CharClass::Alphanumeric);
    assert_eq!(char_class('é'), CharClass::Alphanumeric);
}

#[test]
fn space_like_set_is_exact() {
    assert!(is_whitespace(' '));
    assert!(is_whitespace('\u{a0}'));
    assert!(is_whitespace('\u{202f}'));
    assert!(is_whitespace('\u{2002}'));
    assert!(!is_whitespace('\t'));
    assert!(!is_whitespace('\n'));
}

#[test]
fn rewritable_space_set_excludes_en_space() {
    assert!(is_rewritable_space(' '));
    assert!(is_rewritable_space('\u{a0}'));
    assert!(is_rewritable_space('\u{202f}'));
    assert!(!is_rewritable_space('\u{2002}'));
}

#[test]
fn collapse_eats_en_space_runs() {
    assert_eq!(whitespaces("a\u{2002}\u{2002}b"), "a\u{2002}b");
    // a mixed run keeps its first character
    assert_eq!(whitespaces("a \u{2002}b"), "a b");
}

#[test]
fn spacing_pass_leaves_en_space_alone() {
    // an en space before punctuation was put there on purpose
    let s = "foo\u{2002}?";
    assert_eq!(FrenchFormatter::new().format(s), s);
}

// Fail-open cases: where the context decides nothing, the character stays.

#[test]
fn unmatched_double_quote_stays() {
    assert_eq!(quotes("foo\" bar"), "foo\" bar");
}

#[test]
fn isolated_single_quote_stays() {
    assert_eq!(quotes("a ' b"), "a ' b");
}

#[test]
fn non_plain_space_before_closing_guillemet_stays() {
    // a non-breaking space before the closing guillemet was put there on
    // purpose and is left alone
    let s = "foo\u{a0}» la";
    assert_eq!(FrenchFormatter::new().format(s), s);
}

#[test]
fn digit_glued_to_letter_starts_no_number_series() {
    assert_eq!(FrenchFormatter::new().format_tex("a1 2"), "a1 2");
}

#[test]
fn tab_inside_number_series_becomes_narrow_space() {
    // any whitespace between two digit runs is glued, tab included
    assert_eq!(FrenchFormatter::new().format("10\t000"), "10\u{202f}000");
}

#[test]
fn collapse_idempotent() {
    let once = whitespaces("too   many    spaces");
    let twice = whitespaces(&once);
    assert_eq!(twice, once);
}

#[test]
fn nnbsp_is_the_span_grouping() {
    let actual = nnbsp("Oui\u{202f}!");
    assert_eq!(actual, "<span class = \"nnbsp\">Oui&#160;!</span>");
}

#[test]
fn unit_and_currency_words_are_measured_whole() {
    let french = FrenchFormatter::new();
    // a two-letter unit and a three-letter currency code are glued even
    // with text following them
    assert_eq!(french.format_tex("50 km x"), "50~km x");
    assert_eq!(french.format_tex("10 EUR x"), "10~EUR x");
    // one letter more and the word exceeds its threshold
    assert_eq!(french.format_tex("50 kms x"), "50 kms x");
    assert_eq!(french.format_tex("10 EURO x"), "10 EURO x");
}

#[test]
fn threshold_setters_narrow_the_heuristics() {
    // a zero unit threshold rejects even a two-letter unit
    let res = FrenchFormatter::new().threshold_unit(0).format_tex("50 km");
    assert_eq!(res, "50 km");
    // a zero currency threshold rejects even a three-letter code
    let res = FrenchFormatter::new().threshold_currency(0).format_tex("10 EUR");
    assert_eq!(res, "10 EUR");
}

#[test]
fn dialogue_dash_at_start_gets_en_space() {
    let res = FrenchFormatter::new().format("– voila");
    assert_eq!(res, "–\u{2002}voila");
}

#[test]
fn format_of_empty_is_empty() {
    assert_eq!(FrenchFormatter::new().format(""), "");
    assert_eq!(whitespaces(""), "");
    assert_eq!(quotes(""), "");
}
