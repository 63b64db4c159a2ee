use typofix::escape::{html, nb_spaces, nb_spaces_html, nb_spaces_tex, quotes, tex};

#[test]
fn html_0() {
    let s = "Some string without any character to escape";
    let result = html(s);
    assert_eq!(result, s);
}

#[test]
fn escape_html_0() {
    let s = "Some string without any character to escape";
    let result = html(s);
    assert_eq!(result, s);
}

#[test]
fn tex_0() {
    let s = "Some string without any character to escape";
    let result = tex(s);
    assert_eq!(result, s);
}

#[test]
fn escape_tex_0() {
    let s = "Some string without any character to escape";
    let result = tex(s);
    assert_eq!(result, s);
}

#[test]
fn nb_spaces_0() {
    let s = "Some string without any character to escape";
    let result = nb_spaces(s);
    assert_eq!(result, s);
}

#[test]
fn escape_nb_spaces_0() {
    let s = "Some string without any character to escape";
    let result = nb_spaces_html(s);
    assert_eq!(result, s);
}

#[test]
fn tex_nb_spaces_0() {
    let s = "Some string without any character to escape";
    let result = nb_spaces_tex(s);
    assert_eq!(result, s);
}

#[test]
fn escape_tex_nb_spaces_0() {
    let s = "Some string without any character to escape";
    let result = nb_spaces_tex(s);
    assert_eq!(result, s);
}

#[test]
fn quotes_0() {
    let s = "Some string without any character to escape";
    let result = quotes(s);
    assert_eq!(result, s);
}

#[test]
fn escape_quotes_0() {
    let s = "Some string without any character to escape";
    let result = quotes(s);
    assert_eq!(result, s);
}

#[test]
fn html_1() {
    let s = "<p>Some characters need escaping & something</p>";
    let expected = "&lt;p&gt;Some characters need escaping &amp; something&lt;/p&gt;";
    let actual = html(s);
    assert_eq!(actual, expected);
}

#[test]
fn escape_html_1() {
    let s = "<p>Some characters need escaping & something</p>";
    let expected = "&lt;p&gt;Some characters need escaping &amp; something&lt;/p&gt;";
    let actual = html(s);
    assert_eq!(actual, expected);
}

#[test]
fn html_2() {
    let actual = html("<foo> & <bar>");
    let expected = "&lt;foo&gt; &amp; &lt;bar&gt;";
    assert_eq!(actual, expected);
}

#[test]
fn escape_html_2() {
    let actual = html("<foo> & <bar>");
    let expected = "&lt;foo&gt; &amp; &lt;bar&gt;";
    assert_eq!(actual, expected);
}

#[test]
fn tex_braces() {
    let actual = tex(r"\foo{bar}");
    let expected = r"\textbackslash{}foo\{bar\}";
    assert_eq!(actual, expected);
}

#[test]
fn escape_tex_braces() {
    let actual = tex(r"\foo{bar}");
    let expected = r"\textbackslash{}foo\{bar\}";
    assert_eq!(actual, expected);
}

#[test]
fn tex_square_braces() {
    let actual = tex(r"foo[bar]");
    let expected = r"foo{[}bar{]}";
    assert_eq!(actual, expected);
}

#[test]
fn tex_dashes() {
    let actual = tex("--foo, ---bar");
    let expected = r"-{}-foo, -{}-{}-bar";
    assert_eq!(actual, expected);
}

#[test]
fn escape_tex_dashes() {
    let actual = tex("--foo, ---bar");
    let expected = r"-{}-foo, -{}-{}-bar";
    assert_eq!(actual, expected);
}

#[test]
fn tex_numbers() {
    let actual = tex(r"30000$ is 10% of number #1 income");
    let expected = r"30000\$ is 10\% of number \#1 income";
    assert_eq!(actual, expected);
}

#[test]
fn escape_tex_numbers() {
    let actual = tex(r"30000$ is 10% of number #1 income");
    let expected = r"30000\$ is 10\% of number \#1 income";
    assert_eq!(actual, expected);
}

#[test]
fn quotes_escape() {
    let actual = quotes(r#"Some text with "quotes""#);
    let expected = r#"Some text with 'quotes'"#;
    assert_eq!(actual, expected);
}

#[test]
fn escape_quotes_escape() {
    let actual = quotes(r#"Some text with "quotes""#);
    let expected = r#"Some text with 'quotes'"#;
    assert_eq!(actual, expected);
}

#[test]
fn nb_spaces_escape() {
    let actual = nb_spaces("This\u{a0}contains\u{202f}non breaking spaces");
    let expected = "This<span class = \"nbsp\">&#160;</span>contains\
                    <span class = \"nnbsp\">&#8201;</span>non breaking spaces";
    assert_eq!(actual, expected);
}

#[test]
fn nnbsp_1() {
    // narrow non-breaking space before the question mark
    let actual = nb_spaces_html("Test\u{202f}?");
    let expected = "<span class = \"nnbsp\">Test&#160;?</span>";
    assert_eq!(actual, expected);
}

#[test]
fn nnbsp_2() {
    // narrow non-breaking spaces before the bang and around the quotes
    let actual = nb_spaces_html("Ceci est un «\u{202f}Test\u{202f}»\u{202f}!");
    let expected = "Ceci est un <span class = \"nnbsp\">«&#160;Test&#160;»&#160;!</span>";
    assert_eq!(actual, expected);
}
