use swc_lexer::comments;
use swc_lexer::get_literal_pos_swc;
use swc_lexer::positions::{literal_positions, push_pairs, scan_positions};
use swc_lexer::error::Error;
use swc_lexer::token::{Scan, Span, Token, TokenKind};

#[test]
fn string_literal_position() {
    assert_eq!(get_literal_pos_swc(String::from("let x = \"secret\";")), Ok(vec![8, 16]));
}

#[test]
fn template_positions() {
    assert_eq!(get_literal_pos_swc(String::from("`hi ${x}`")), Ok(vec![1, 4, 8, 8]));
}

#[test]
fn adjacent_literal_positions() {
    assert_eq!(get_literal_pos_swc(String::from("\"a\"\"b\"")), Ok(vec![0, 3, 3, 6]));
}

#[test]
fn no_literal_no_position() {
    assert_eq!(get_literal_pos_swc(String::new()), Ok(vec![]));
    assert_eq!(get_literal_pos_swc(String::from("let y = 1;")), Ok(vec![]));
}

#[test]
fn positions_are_byte_offsets() {
    assert_eq!(get_literal_pos_swc(String::from("é = 'é'")), Ok(vec![5, 9]));
    assert_eq!(get_literal_pos_swc(String::from("\u{feff}'a'")), Ok(vec![3, 6]));
}

#[test]
fn comment_is_the_only_span() {
    let found = comments::get_literal_pos_swc(String::from("// comment\nlet y = 1;"));
    assert_eq!(found, Ok(vec![0, 10]));
}

#[test]
fn comments_are_ignored_without_the_store() {
    assert_eq!(get_literal_pos_swc(String::from("// comment\nlet y = 1;")), Ok(vec![]));
}

#[test]
fn literals_come_before_comments() {
    let source = "/* a */ let s = 'x'; // b\nlet t = \"y\"; /* c */";
    let found = comments::get_literal_pos_swc(String::from(source));
    assert_eq!(found, Ok(vec![16, 19, 34, 37, 0, 7, 21, 25, 39, 46]));
}

#[test]
fn leading_comments_come_in_the_order_of_the_text() {
    let source = "/*1*/ a /*2*/; /*3*/ b /*4*/; /*5*/ c /*6*/; /*7*/ d /*8*/;";
    let found = comments::get_literal_pos_swc(String::from(source)).unwrap();
    assert_eq!(found, vec![0, 5, 8, 13, 15, 20, 23, 28, 30, 35, 38, 43, 45, 50, 53, 58]);
}

#[test]
fn trailing_comments_come_in_the_order_of_the_text() {
    let source = "a; // 1\nb; // 2\nc; // 3\nd; // 4\ne; // 5\nf; // 6\n'g'; // 7\n";
    let found = comments::get_literal_pos_swc(String::from(source)).unwrap();
    assert_eq!(found, vec![48, 51, 3, 7, 11, 15, 19, 23, 27, 31, 35, 39, 43, 47, 53, 57]);
}

#[test]
fn positions_fail_on_a_lexical_error() {
    assert_eq!(get_literal_pos_swc(String::from("let x = \"abc")), Err(Error::Lexical));
    assert_eq!(comments::get_literal_pos_swc(String::from("let x = `abc")), Err(Error::Lexical));
}

#[test]
fn positions_of_a_stream() {
    let tokens = vec![
        Token::new(TokenKind::Other, 0, 1),
        Token::new(TokenKind::Str, 2, 5),
        Token::new(TokenKind::Error, 5, 6),
        Token::new(TokenKind::Template, 7, 7),
        Token::new(TokenKind::Other, 8, 9),
        Token::new(TokenKind::Str, 9, 11),
    ];
    assert_eq!(literal_positions(&tokens), vec![2, 5, 7, 7, 9, 11]);
    assert_eq!(literal_positions(&vec![]), vec![]);
}

#[test]
fn pairs_are_appended() {
    let mut positions = vec![1, 2];
    push_pairs(&mut positions, &vec![Span::new(5, 8), Span::new(3, 3)]);
    assert_eq!(positions, vec![1, 2, 5, 8, 3, 3]);
    push_pairs(&mut positions, &vec![]);
    assert_eq!(positions, vec![1, 2, 5, 8, 3, 3]);
}

#[test]
fn positions_of_a_scan() {
    let scan = Scan::new(
        vec![Token::new(TokenKind::Other, 1, 2), Token::new(TokenKind::Str, 5, 9)],
        0,
    );
    assert_eq!(scan_positions("a = 'bc'", &scan), Ok(vec![4, 8]));
}

#[test]
fn positions_of_a_faulty_scan() {
    let scan = Scan::new(vec![Token::new(TokenKind::Str, 5, 10)], 0);
    assert_eq!(scan_positions("a = 'bc'", &scan), Err(Error::BadSpan));
    let scan = Scan::new(vec![Token::new(TokenKind::Str, 5, 6)], 0);
    assert_eq!(scan_positions("a = 'bc'", &scan), Err(Error::BadDelimiter));
    let scan = Scan::new(vec![Token::new(TokenKind::Error, 5, 9)], 0);
    assert_eq!(scan_positions("a = 'bc'", &scan), Err(Error::Lexical));
    let scan = Scan::new(vec![Token::new(TokenKind::Str, 5, 9)], 2);
    assert_eq!(scan_positions("a = 'bc'", &scan), Err(Error::Lexical));
}

#[test]
fn positions_are_ranges_in_the_order_of_the_text() {
    let source = "a('é', \"b\", `c${'d'}e`, 'f'); // g";
    let found = get_literal_pos_swc(String::from(source)).unwrap();
    assert_eq!(found, vec![2, 6, 8, 11, 14, 15, 17, 20, 21, 22, 25, 28]);
    assert_eq!(found.len() % 2, 0);
    for pair in found.chunks(2) {
        assert!(pair[0] <= pair[1] && pair[1] as usize <= source.len());
    }
    for pairs in found.chunks(2).collect::<Vec<_>>().windows(2) {
        assert!(pairs[0][0] <= pairs[1][0]);
    }
}

#[test]
fn comment_positions_follow_a_byte_order_mark() {
    let found = comments::get_literal_pos_swc(String::from("\u{feff}/* é */ 'a'"));
    assert_eq!(found, Ok(vec![12, 15, 3, 11]));
}

#[test]
fn odd_sources_give_ranges_or_are_refused() {
    let sources = [
        "\\", "#", "'\\", "`${", "/*", "/* a", "// a", "<!-- a\n'b'", "#!/bin/sh\n// c\n'a'",
        "/**/", "'a'/**/'b'//", "\u{feff}//", "/* é */ `ß` /* € */",
    ];
    for source in sources {
        for found in [
            get_literal_pos_swc(String::from(source)),
            comments::get_literal_pos_swc(String::from(source)),
        ] {
            match found {
                Ok(positions) => {
                    assert_eq!(positions.len() % 2, 0, "{:?}", source);
                    for pair in positions.chunks(2) {
                        assert!(pair[0] <= pair[1] && pair[1] as usize <= source.len());
                        assert!(source.is_char_boundary(pair[0] as usize));
                        assert!(source.is_char_boundary(pair[1] as usize));
                    }
                },
                Err(fault) => assert_eq!(fault, Error::Lexical, "{:?}", source),
            }
        }
    }
}
