use swc_lexer::comments::{
    check_slices, drain, least_anchor, locate_comments, push_listed_at, scan_and_comment_positions,
    CommentBucket,
};
use swc_lexer::error::Error;
use swc_lexer::token::{Scan, Span, Token, TokenKind};

fn buckets() -> Vec<CommentBucket> {
    vec![
        CommentBucket::new(30, vec![Span::new(31, 35)]),
        CommentBucket::new(10, vec![Span::new(1, 4), Span::new(5, 9)]),
        CommentBucket::new(20, vec![Span::new(12, 18)]),
    ]
}

#[test]
fn buckets_are_drained_in_anchor_order() {
    let spans = drain(&buckets());
    assert_eq!(spans, vec![Span::new(1, 4), Span::new(5, 9), Span::new(12, 18), Span::new(31, 35)]);
}

#[test]
fn no_bucket_nothing_drained() {
    assert_eq!(drain(&vec![]), vec![]);
    assert_eq!(drain(&vec![CommentBucket::new(7, vec![])]), vec![]);
}

#[test]
fn buckets_of_one_anchor_keep_their_order() {
    let list = vec![
        CommentBucket::new(9, vec![Span::new(6, 7)]),
        CommentBucket::new(2, vec![Span::new(1, 2)]),
        CommentBucket::new(9, vec![Span::new(3, 4)]),
    ];
    assert_eq!(drain(&list), vec![Span::new(1, 2), Span::new(6, 7), Span::new(3, 4)]);
}

#[test]
fn anchors_at_both_ends_of_the_range() {
    let list = vec![
        CommentBucket::new(u32::MAX, vec![Span::new(8, 9)]),
        CommentBucket::new(0, vec![Span::new(1, 2)]),
    ];
    assert_eq!(drain(&list), vec![Span::new(1, 2), Span::new(8, 9)]);
}

#[test]
fn least_anchor_from_a_bound() {
    assert_eq!(least_anchor(&buckets(), 0), Some(10));
    assert_eq!(least_anchor(&buckets(), 10), Some(10));
    assert_eq!(least_anchor(&buckets(), 11), Some(20));
    assert_eq!(least_anchor(&buckets(), 21), Some(30));
    assert_eq!(least_anchor(&buckets(), 31), None);
    assert_eq!(least_anchor(&vec![], 0), None);
}

#[test]
fn comments_at_one_anchor() {
    let mut spans = vec![Span::new(0, 0)];
    push_listed_at(&mut spans, &buckets(), 10);
    assert_eq!(spans, vec![Span::new(0, 0), Span::new(1, 4), Span::new(5, 9)]);
    push_listed_at(&mut spans, &buckets(), 11);
    assert_eq!(spans.len(), 3);
}

#[test]
fn comment_spans_are_checked_against_the_text() {
    assert!(check_slices("// é", &vec![Span::new(0, 5), Span::new(3, 5), Span::new(5, 5)]));
    assert!(!check_slices("// é", &vec![Span::new(0, 6)]));
    assert!(!check_slices("// é", &vec![Span::new(0, 4)]));
    assert!(!check_slices("// é", &vec![Span::new(2, 1)]));
    assert!(check_slices("", &vec![]));
}

#[test]
fn comment_positions_become_offsets() {
    assert_eq!(locate_comments("// a", &vec![Span::new(1, 5)]), Some(vec![Span::new(0, 4)]));
    let marked = locate_comments("\u{feff}// a", &vec![Span::new(1, 5)]);
    assert_eq!(marked, Some(vec![Span::new(3, 7)]));
    assert_eq!(locate_comments("// a", &vec![Span::new(1, 6)]), None);
    assert_eq!(locate_comments("// a", &vec![Span::new(0, 4)]), None);
}

#[test]
fn literals_then_leading_then_trailing() {
    let source = "/*a*/ 'x' /*b*/ /*c*/ y";
    let scan = Scan::new(
        vec![Token::new(TokenKind::Str, 7, 10), Token::new(TokenKind::Other, 23, 24)],
        0,
    );
    let leading = vec![
        CommentBucket::new(23, vec![Span::new(17, 22)]),
        CommentBucket::new(7, vec![Span::new(1, 6)]),
    ];
    let trailing = vec![CommentBucket::new(10, vec![Span::new(11, 16)])];
    let found = scan_and_comment_positions(source, &scan, &leading, &trailing);
    assert_eq!(found, Ok(vec![6, 9, 0, 5, 16, 21, 10, 15]));
}

#[test]
fn comment_outside_the_text_is_refused() {
    let scan = Scan::new(vec![], 0);
    let leading = vec![CommentBucket::new(1, vec![Span::new(1, 9)])];
    assert_eq!(scan_and_comment_positions("/*a*/", &scan, &leading, &vec![]), Err(Error::BadSpan));
    assert_eq!(scan_and_comment_positions("/*a*/", &scan, &vec![], &leading), Err(Error::BadSpan));
}

#[test]
fn fault_of_the_scan_comes_first() {
    let scan = Scan::new(vec![Token::new(TokenKind::Error, 1, 2)], 0);
    let leading = vec![CommentBucket::new(1, vec![Span::new(1, 9)])];
    assert_eq!(scan_and_comment_positions("/*a*/", &scan, &leading, &vec![]), Err(Error::Lexical));
}
