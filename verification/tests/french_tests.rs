use typofix::french::FrenchFormatter;

#[test]
fn french() {
    let s = "  «  Comment allez-vous ?\u{a0}» demanda-t-elle à son   \
             interlocutrice  qui lui répondit  \
             : « Mais très bien ma chère  !  »";
    let res = FrenchFormatter::new().format(s);
    assert_eq!(res,
               " «\u{a0}Comment allez-vous\u{202f}?\u{a0}» demanda-t-elle à son \
                interlocutrice qui lui répondit\u{a0}: \
                «\u{a0}Mais très bien ma chère\u{202f}!\u{a0}»");
}

#[test]
fn french_french() {
    let s = "  «  Comment allez-vous ?\u{a0}» demanda-t-elle à son   \
             interlocutrice  qui lui répondit  \
             : « Mais très bien ma chère  !  »";
    let res = FrenchFormatter::new().format(s);
    assert_eq!(res,
               " «\u{a0}Comment allez-vous\u{202f}?\u{a0}» demanda-t-elle à son \
                interlocutrice qui lui répondit\u{a0}: \
                «\u{a0}Mais très bien ma chère\u{202f}!\u{a0}»");
}

#[test]
fn french_quotes_1() {
    let s = "« Un test »";
    let res = FrenchFormatter::new().format_tex(s);
    assert_eq!(res, "«~Un test~»");
}

#[test]
fn french_quotes_2() {
    let s = "« Un test";
    let res = FrenchFormatter::new().format_tex(s);
    assert_eq!(res, "«~Un test");
}

#[test]
fn french_quotes_3() {
    let s = "Un test »";
    let res = FrenchFormatter::new().format_tex(s);
    assert_eq!(res, "Un test~»");
}

#[test]
fn french_quotes_4() {
    let s = "test « court »";
    let res = FrenchFormatter::new().format(s);
    assert_eq!(res, "test «\u{202f}court\u{202f}»");
}

#[test]
fn french_quotes_5() {
    let s = "test « beaucoup, beaucoup plus long »";
    let res = FrenchFormatter::new().format(s);
    assert_eq!(res, "test «\u{a0}beaucoup, beaucoup plus long\u{a0}»");
}

#[test]
fn french_dashes_1() {
    let s = "Il faudrait gérer ces tirets – sans ça certains textes rendent mal – un jour ou \
             l'autre";
    let res = FrenchFormatter::new().format_tex(s);
    assert_eq!(res,
               "Il faudrait gérer ces tirets –~sans ça certains textes \
                rendent mal~– un jour ou l’autre");
}

#[test]
fn french_dashes_2() {
    let s = "Il faudrait gérer ces tirets – sans ça certains textes rendent mal. Mais ce n'est \
             pas si simple – si ?";
    let res = FrenchFormatter::new().format_tex(s);
    assert_eq!(res,
               "Il faudrait gérer ces tirets –~sans ça certains textes rendent mal. Mais ce \
                n’est pas si simple –~si~?");
}

#[test]
fn french_numbers() {
    let french = FrenchFormatter::new();

    let res = french.format_tex("10 000");
    assert_eq!(res, "10~000");

    let res = french.format_tex("10 000 €");
    assert_eq!(res, "10~000~€");

    let res = french.format_tex("10 000 euros");
    assert_eq!(res, "10~000 euros");

    let res = french.format_tex("10 000 EUR");
    assert_eq!(res, "10~000~EUR");

    let res = french.format_tex("50 km");
    assert_eq!(res, "50~km");

    let res = french.format_tex("50 %");
    assert_eq!(res, "50~%");

    let res = french.format_tex("20 °C");
    assert_eq!(res, "20~°C");

    let res = french.format_tex("20 F");
    assert_eq!(res, "20~F");

    let res = french.format_tex("20 BALLES");
    assert_eq!(res, "20 BALLES");
}

#[test]
fn french_french_numbers() {
    let french = FrenchFormatter::new();

    let res = french.format_tex("10 000");
    assert_eq!(res, "10~000");

    let res = french.format_tex("10 000 €");
    assert_eq!(res, "10~000~€");

    let res = french.format_tex("10 000 euros");
    assert_eq!(res, "10~000 euros");

    let res = french.format_tex("10 000 EUR");
    assert_eq!(res, "10~000~EUR");

    let res = french.format_tex("50 km");
    assert_eq!(res, "50~km");

    let res = french.format_tex("50 %");
    assert_eq!(res, "50~%");

    let res = french.format_tex("20 °C");
    assert_eq!(res, "20~°C");

    let res = french.format_tex("20 F");
    assert_eq!(res, "20~F");

    let res = french.format_tex("20 BALLES");
    assert_eq!(res, "20 BALLES");
}
