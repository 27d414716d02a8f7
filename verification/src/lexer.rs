//! The tokenizer. Everything in this file is taken on trust: it is the
//! boundary to `swc_common` and `swc_ecma_parser`.

use vstd::prelude::*;
use vstd::string::*;
use swc_common::comments::SingleThreadedComments;
use swc_common::{FileName, SourceMap};
use swc_ecma_ast::EsVersion;
use swc_ecma_parser::lexer::Lexer;
use swc_ecma_parser::token;
use swc_ecma_parser::{StringInput, Syntax, Tokens};
use crate::comments::{lists, CommentBucket};
use crate::token::{Scan, ScanView, Span, Token, TokenKind};

verus! {

/// `swc_common`'s `SingleThreadedComments`: the store that the lexer fills
/// with the comments that it comes across.
#[verifier::external_type_specification]
#[verifier::external_body]
pub struct ExSingleThreadedComments(SingleThreadedComments);

/// What the lexer finds in a text when it is given a comment store: the
/// scan, and the comments by the position that each is attached to.
pub struct Gathering {
    pub scan: ScanView,
    pub leading: Map<u32, Seq<Span>>,
    pub trailing: Map<u32, Seq<Span>>,
}

/// The scan of a source text, as `lex` makes it.
pub uninterp spec fn lexed(source: Seq<char>) -> ScanView;

/// The scan and the comments of a source text, as `lex_with_comments` makes
/// them.
pub uninterp spec fn lexed_with_comments(source: Seq<char>) -> Gathering;

/// The leading comments in a store, by the position that each is attached to.
pub uninterp spec fn leading_in(comments: SingleThreadedComments) -> Map<u32, Seq<Span>>;

/// The trailing comments in a store, by the position that each is attached to.
pub uninterp spec fn trailing_in(comments: SingleThreadedComments) -> Map<u32, Seq<Span>>;

/// Runs `swc_ecma_parser`'s `Lexer` to its end over `source`, which
/// `SourceMap::new_source_file` has made the only file of a new source map,
/// with the default syntax, ES2022 as the target and no comment store. Each
/// token that the lexer yields is given as its kind and the two positions of
/// its span; with them comes the number of errors that the lexer has set
/// aside meanwhile (`Tokens::take_errors`).
///
/// Assumed: the lexer comes to an end, and what it yields depends on the
/// text alone. Nothing is assumed of what that is. The positions are the
/// lexer's own: the file starts at position 1, and a byte order mark at the
/// start of the text is no part of the file. The text must be short enough
/// for the end of the file to be a 32-bit position.
#[verifier::external_body]
pub(crate) fn lex(source: &str) -> (scan: Scan)
    requires
        source.spec_bytes().len() < u32::MAX,
    ensures
        scan@ == lexed(source@),
{
    let files = SourceMap::default();
    let file = files.new_source_file(FileName::Anon, source.to_string());
    let input = StringInput::from(&*file);
    let mut lexer = Lexer::new(Syntax::default(), EsVersion::Es2022, input, None);
    let tokens = lexer.by_ref().map(|t| Token::new(match t.token {
        token::Token::Str { .. } => TokenKind::Str,
        token::Token::Template { .. } => TokenKind::Template,
        token::Token::Error(..) => TokenKind::Error,
        _ => TokenKind::Other,
    }, t.span.lo.0, t.span.hi.0)).collect();
    Scan::new(tokens, lexer.take_errors().len())
}

/// As `lex`, but with a new `SingleThreadedComments` as the lexer's comment
/// store, which is handed back with the scan.
///
/// Assumed: the lexer comes to an end, and what it yields and what it leaves
/// in the store depend on the text alone.
#[verifier::external_body]
pub(crate) fn lex_with_comments(source: &str) -> (found: (Scan, SingleThreadedComments))
    requires
        source.spec_bytes().len() < u32::MAX,
    ensures
        lexed_with_comments(source@) == (Gathering {
            scan: found.0@,
            leading: leading_in(found.1),
            trailing: trailing_in(found.1),
        }),
{
    let files = SourceMap::default();
    let file = files.new_source_file(FileName::Anon, source.to_string());
    let input = StringInput::from(&*file);
    let comments = SingleThreadedComments::default();
    let mut lexer = Lexer::new(Syntax::default(), EsVersion::Es2022, input, Some(&comments));
    let tokens = lexer.by_ref().map(|t| Token::new(match t.token {
        token::Token::Str { .. } => TokenKind::Str,
        token::Token::Template { .. } => TokenKind::Template,
        token::Token::Error(..) => TokenKind::Error,
        _ => TokenKind::Other,
    }, t.span.lo.0, t.span.hi.0)).collect();
    (Scan::new(tokens, lexer.take_errors().len()), comments)
}

/// Takes the two maps out of a comment store (`SingleThreadedComments::take_all`)
/// and gives each as a list of buckets, the leading comments first: a bucket
/// holds the position that comments are attached to and, in the map's order,
/// the spans of the comments there.
///
/// Assumed: each list has one bucket for each position of its map. Nothing is
/// assumed of the order of the buckets, which is that in which the map is
/// walked.
#[verifier::external_body]
pub(crate) fn take_comments(comments: SingleThreadedComments) -> (buckets: (
    Vec<CommentBucket>,
    Vec<CommentBucket>,
))
    ensures
        lists(buckets.0@, leading_in(comments)),
        lists(buckets.1@, trailing_in(comments)),
{
    let (leading, trailing) = comments.take_all();
    let leading = leading.take().into_iter().map(|(at, found)| {
        let spans = found.iter().map(|c| Span::new(c.span.lo.0, c.span.hi.0));
        CommentBucket::new(at.0, spans.collect())
    });
    let trailing = trailing.take().into_iter().map(|(at, found)| {
        let spans = found.iter().map(|c| Span::new(c.span.lo.0, c.span.hi.0));
        CommentBucket::new(at.0, spans.collect())
    });
    (leading.collect(), trailing.collect())
}

} // verus!
