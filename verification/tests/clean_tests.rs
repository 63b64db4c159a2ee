use typofix::clean::{dashes, ellipsis, guillemets, quotes, remove_whitespaces,
    typographic_quotes, whitespaces};

#[test]
fn remove_whitespaces_1() {
    let s = "   Remove    supplementary   spaces    but    don't    trim     either   ";
    let res = remove_whitespaces(s);
    assert_eq!(res, " Remove supplementary spaces but don't trim either ");
}

#[test]
fn whitespaces_1() {
    let s = "   Remove    supplementary   spaces    but    don't    trim     either   ";
    let res = whitespaces(s);
    assert_eq!(res, " Remove supplementary spaces but don't trim either ");
}

#[test]
fn typographic_quotes_1() {
    let s = "Some string without ' typographic ' quotes";
    let res = typographic_quotes(s);
    assert_eq!(res, s);
}

#[test]
fn typographic_quotes_2() {
    let s = typographic_quotes("\"foo\"");
    assert_eq!(s, "“foo”");
    let s = typographic_quotes("'foo'");
    assert_eq!(s, "‘foo’");
}

#[test]
fn typographic_quotes_3() {
    let s = typographic_quotes("'mam, how are you?");
    assert_eq!(s, "’mam, how are you?");
}

#[test]
fn typographic_quotes_4() {
    let s = typographic_quotes("some char: 'c', '4', '&'");
    assert_eq!(s, "some char: ‘c’, ‘4’, ‘&’");
}

#[test]
fn typographic_quotes_5() {
    let s = typographic_quotes("It's a good day to say 'hi'");
    assert_eq!(s, "It’s a good day to say ‘hi’");
}

#[test]
fn typographic_quotes_6() {
    let s = typographic_quotes("The '60s were nice, weren't they?");
    assert_eq!(s, "The ’60s were nice, weren’t they?");
}

#[test]
fn typographic_quotes_7() {
    let s = typographic_quotes("Plurals' possessive");
    assert_eq!(s, "Plurals’ possessive");
}

#[test]
fn typographic_quotes_8() {
    let s = typographic_quotes("\"I like 'That '70s show'\", she said");
    assert_eq!(s, "“I like ‘That ’70s show’”, she said");
}

#[test]
fn typographic_quotes_9() {
    let s = typographic_quotes("some char: '!', '?', ','");
    assert_eq!(s, "some char: ‘!’, ‘?’, ‘,’");
}

#[test]
fn typographic_quotes_10() {
    let s = typographic_quotes("\"'Let's try \"nested\" quotes,' he said.\"");
    assert_eq!(s, "“‘Let’s try “nested” quotes,’ he said.”");
}

#[test]
fn typographic_quotes_11() {
    let s = typographic_quotes("Enhanced \"typographic_quotes\"'s heuristics");
    assert_eq!(s, "Enhanced “typographic_quotes”’s heuristics");
}

#[test]
fn quotes_1() {
    let s = "Some string without ' typographic ' quotes";
    let res = quotes(s);
    assert_eq!(res, s);
}

#[test]
fn quotes_2() {
    let s = quotes("\"foo\"");
    assert_eq!(s, "“foo”");
    let s = quotes("'foo'");
    assert_eq!(s, "‘foo’");
}

#[test]
fn quotes_3() {
    let s = quotes("'mam, how are you?");
    assert_eq!(s, "’mam, how are you?");
}

#[test]
fn quotes_4() {
    let s = quotes("some char: 'c', '4', '&'");
    assert_eq!(s, "some char: ‘c’, ‘4’, ‘&’");
}

#[test]
fn quotes_5() {
    let s = quotes("It's a good day to say 'hi'");
    assert_eq!(s, "It’s a good day to say ‘hi’");
}

#[test]
fn quotes_6() {
    let s = quotes("The '60s were nice, weren't they?");
    assert_eq!(s, "The ’60s were nice, weren’t they?");
}

#[test]
fn quotes_7() {
    let s = quotes("Plurals' possessive");
    assert_eq!(s, "Plurals’ possessive");
}

#[test]
fn quotes_8() {
    let s = quotes("\"I like 'That '70s show'\", she said");
    assert_eq!(s, "“I like ‘That ’70s show’”, she said");
}

#[test]
fn quotes_9() {
    let s = quotes("some char: '!', '?', ','");
    assert_eq!(s, "some char: ‘!’, ‘?’, ‘,’");
}

#[test]
fn quotes_10() {
    let s = quotes("\"'Let's try \"nested\" quotes,' he said.\"");
    assert_eq!(s, "“‘Let’s try “nested” quotes,’ he said.”");
}

#[test]
fn quotes_11() {
    let s = quotes("Enhanced \"quotes\"'s heuristics");
    assert_eq!(s, "Enhanced “quotes”’s heuristics");
}

#[test]
fn quotes_rewrites_in_place() {
    // quote disambiguation replaces characters one for one; it can never
    // insert or drop text
    let s = "A double quote--\"within\" dashes--would be nice.";
    let res = quotes(s);
    assert_eq!(res, "A double quote--“within” dashes--would be nice.");
    assert_eq!(res.chars().count(), s.chars().count());
}

#[test]
fn ellipsis_0() {
    let s = ellipsis("Foo...");
    assert_eq!(s, "Foo…");
}

#[test]
fn clean_ellipsis_0() {
    let s = ellipsis("Foo...");
    assert_eq!(s, "Foo…");
}

#[test]
fn ellipsis_1() {
    let s = ellipsis("Foo... Bar");
    assert_eq!(s, "Foo… Bar");
}

#[test]
fn clean_ellipsis_1() {
    let s = ellipsis("Foo... Bar");
    assert_eq!(s, "Foo… Bar");
}

#[test]
fn ellipsis_2() {
    let s = ellipsis("foo....");
    assert_eq!(s, "foo….");
}

#[test]
fn clean_ellipsis_2() {
    let s = ellipsis("foo....");
    assert_eq!(s, "foo….");
}

#[test]
fn ellipsis_3() {
    let s = ellipsis("foo. . . ");
    assert_eq!(s, "foo.\u{a0}.\u{a0}. ");
}

#[test]
fn clean_ellipsis_3() {
    let s = ellipsis("foo. . . ");
    assert_eq!(s, "foo.\u{a0}.\u{a0}. ");
}

#[test]
fn ellipsis_4() {
    let s = ellipsis("foo. . . .");
    assert_eq!(s, "foo.\u{a0}.\u{a0}.\u{a0}.");
}

#[test]
fn clean_ellipsis_4() {
    let s = ellipsis("foo. . . .");
    assert_eq!(s, "foo.\u{a0}.\u{a0}.\u{a0}.");
}

#[test]
fn ellipsis_5() {
    let s = ellipsis("foo..");
    assert_eq!(s, "foo..");
}

#[test]
fn dashes_0() {
    let s = dashes("foo - bar");
    assert_eq!(s, "foo - bar");
}

#[test]
fn dashes_1() {
    let s = dashes("foo -- bar");
    assert_eq!(s, "foo – bar");
}

#[test]
fn dashes_2() {
    let s = dashes("foo --- bar");
    assert_eq!(s, "foo — bar");
}

#[test]
fn dashes_3() {
    let s = dashes("foo --- bar--");
    assert_eq!(s, "foo — bar–");
}

#[test]
fn guillemets_1() {
    let s = guillemets("<< Foo >>");
    assert_eq!(s, "« Foo »");
}

#[test]
fn guillemets_2() {
    let s = guillemets("<< Foo");
    assert_eq!(s, "« Foo");
}

#[test]
fn guillemets_3() {
    let s = guillemets("Foo >>");
    assert_eq!(s, "Foo »");
}

#[test]
fn guillemets_4() {
    let s = guillemets("<< Foo < Bar >>");
    assert_eq!(s, "« Foo < Bar »");
}
