use swc_lexer::strip_literal_swc;
use swc_lexer::error::Error;

#[test]
fn string_literal_keeps_its_quotes() {
    let out = strip_literal_swc(String::from("let x = \"secret\";"));
    assert_eq!(out, Ok(String::from("let x = \"      \";")));
}

#[test]
fn empty_string_literal_is_unchanged() {
    assert_eq!(strip_literal_swc(String::from("\"\"")), Ok(String::from("\"\"")));
}

#[test]
fn adjacent_string_literals() {
    assert_eq!(strip_literal_swc(String::from("\"a\"\"b\"")), Ok(String::from("\" \"\" \"")));
    assert_eq!(strip_literal_swc(String::from("\"ab\"\"cd\"")), Ok(String::from("\"  \"\"  \"")));
}

#[test]
fn template_text_is_masked() {
    assert_eq!(strip_literal_swc(String::from("`hi ${x}`")), Ok(String::from("`   ${x}`")));
}

#[test]
fn empty_source() {
    assert_eq!(strip_literal_swc(String::new()), Ok(String::new()));
}

#[test]
fn source_without_literals_is_unchanged() {
    let source = "// note\nlet y = 1; /* two */ y += 2;\n";
    assert_eq!(strip_literal_swc(String::from(source)), Ok(String::from(source)));
}

#[test]
fn unterminated_string_is_a_lexical_error() {
    assert_eq!(strip_literal_swc(String::from("let x = \"abc")), Err(Error::Lexical));
}

#[test]
fn text_beyond_ascii() {
    let out = strip_literal_swc(String::from("const é = 'ça va'; // ü"));
    assert_eq!(out, Ok(String::from("const é = '      '; // ü")));
}

#[test]
fn byte_order_mark_is_kept() {
    let out = strip_literal_swc(String::from("\u{feff}let x = \"a\";"));
    assert_eq!(out, Ok(String::from("\u{feff}let x = \" \";")));
}

#[test]
fn stripping_twice_is_stripping_once() {
    let source = "import a from 'mod'; const b = `x ${a + \"y\"} z`; // 'c'\n";
    let once = strip_literal_swc(String::from(source)).unwrap();
    assert_eq!(once, "import a from '   '; const b = `  ${a + \" \"}  `; // 'c'\n");
    assert_eq!(strip_literal_swc(once.clone()), Ok(once));
}

#[test]
fn stripped_text_is_as_long_as_the_source() {
    let source = "x = 'é€𝄞' + `ß${'\\''}`;\n\t/* 'not a literal' */";
    let out = strip_literal_swc(String::from(source)).unwrap();
    assert_eq!(out.len(), source.len());
    assert_eq!(out, "x = '         ' + `  ${'  '}`;\n\t/* 'not a literal' */");
}

#[test]
fn escaped_quote_stays_inside_the_literal() {
    let out = strip_literal_swc(String::from("s = \"a\\\"b\" + 'c\\'d';"));
    assert_eq!(out, Ok(String::from("s = \"    \" + '    ';")));
}

#[test]
fn literal_inside_a_template_expression() {
    let out = strip_literal_swc(String::from("`a${\"b\"}c`"));
    assert_eq!(out, Ok(String::from("` ${\" \"} `")));
}

#[test]
fn unterminated_template_is_a_lexical_error() {
    assert_eq!(strip_literal_swc(String::from("let x = `abc")), Err(Error::Lexical));
}

#[test]
fn whitespace_only_source() {
    assert_eq!(strip_literal_swc(String::from(" \n\t ")), Ok(String::from(" \n\t ")));
}

#[test]
fn odd_sources_are_masked_or_refused() {
    let sources = [
        "\\", "#", "@", "\u{0}", "'\\", "`${", "`${`", "0x", "1e", "/*", "\"\n\"", "<!--", "-->",
        "#!/bin/sh\n'a'", "}", "${", "\u{2028}'a'\u{2029}", "a\u{feff}'b'", "'\u{1F600}'", "1__0",
        "\\u{110000}", "'\\x'", "'\\u{}'", "08", "/a/'b'", "x = <<<<<<< y",
    ];
    for source in sources {
        match strip_literal_swc(String::from(source)) {
            Ok(out) => assert_eq!(out.len(), source.len(), "{:?}", source),
            Err(fault) => assert_eq!(fault, Error::Lexical, "{:?}", source),
        }
    }
}
