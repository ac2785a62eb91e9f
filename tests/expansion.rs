use seq_expand::decimal::decimal_text;
use seq_expand::invocation::Invocation;
use seq_expand::parse::{SyntaxError, SyntaxErrorKind};
use seq_expand::process::Proc;
use seq_expand::token::{Delimiter, Pos, Span, Token};

fn span_of(span: proc_macro2::Span) -> Span {
    let start = span.start();
    let end = span.end();
    Span {
        start: Pos { line: start.line, column: start.column },
        end: Pos { line: end.line, column: end.column },
    }
}

fn tokens_of(stream: proc_macro2::TokenStream) -> Vec<Token> {
    stream
        .into_iter()
        .map(|tree| match tree {
            proc_macro2::TokenTree::Ident(i) => Token::Ident { name: i.to_string(), span: span_of(i.span()) },
            proc_macro2::TokenTree::Punct(p) => Token::Punct { ch: p.as_char(), span: span_of(p.span()) },
            proc_macro2::TokenTree::Literal(l) => Token::Literal { text: l.to_string(), span: span_of(l.span()) },
            proc_macro2::TokenTree::Group(g) => Token::Group {
                delimiter: match g.delimiter() {
                    proc_macro2::Delimiter::Parenthesis => Delimiter::Parenthesis,
                    proc_macro2::Delimiter::Brace => Delimiter::Brace,
                    proc_macro2::Delimiter::Bracket => Delimiter::Bracket,
                    proc_macro2::Delimiter::None => Delimiter::Invisible,
                },
                inner: tokens_of(g.stream()),
                span: span_of(g.span()),
            },
        })
        .collect()
}

fn lex(text: &str) -> Vec<Token> {
    tokens_of(text.parse::<proc_macro2::TokenStream>().unwrap())
}

fn render(tokens: &[Token]) -> String {
    let parts: Vec<String> = tokens
        .iter()
        .map(|t| match t {
            Token::Ident { name, .. } => name.clone(),
            Token::Punct { ch, .. } => ch.to_string(),
            Token::Literal { text, .. } => text.clone(),
            Token::Group { delimiter, inner, .. } => {
                let (open, close) = match delimiter {
                    Delimiter::Parenthesis => ("(", ")"),
                    Delimiter::Brace => ("{", "}"),
                    Delimiter::Bracket => ("[", "]"),
                    Delimiter::Invisible => ("", ""),
                };
                format!("{}{}{}", open, render(inner), close)
            }
        })
        .collect();
    parts.join(" ")
}

fn expand(text: &str) -> String {
    render(&seq_expand::driver::seq(&lex(text)).unwrap())
}

fn error_kind(text: &str) -> SyntaxErrorKind {
    seq_expand::driver::seq(&lex(text)).unwrap_err().kind
}

fn sp(line: usize, start: usize, end: usize) -> Span {
    Span { start: Pos { line, column: start }, end: Pos { line, column: end } }
}

#[test]
fn exclusive_range_pastes_each_index() {
    assert_eq!(expand("N in 0..3 { f~N() }"), "f0 () f1 () f2 ()");
}

#[test]
fn inclusive_range_takes_the_end() {
    assert_eq!(expand("N in 0..=3 { f~N() }"), "f0 () f1 () f2 () f3 ()");
}

#[test]
fn marker_expands_only_its_contents() {
    assert_eq!(
        expand("N in 0..2 { struct S { #( field~N: u8, )* } }"),
        "struct S {field0 : u8 , field1 : u8 ,}"
    );
}

#[test]
fn body_without_marker_repeats_whole() {
    assert_eq!(expand("N in 0..2 { fn f~N() {} }"), "fn f0 () {} fn f1 () {}");
}

#[test]
fn nested_marker_keeps_enclosing_delimiters() {
    assert_eq!(
        expand("N in 0..3 { fn f() -> [u8; 3] { [#(N,)*] } }"),
        "fn f () - > [u8 ; 3] {[0 , 1 , 2 ,]}"
    );
}

#[test]
fn spaced_tilde_does_not_paste() {
    assert_eq!(expand("N in 0..2 { f ~ N }"), "f ~ 0 f ~ 1");
    assert_eq!(expand("N in 0..2 { f~ N }"), "f ~ 0 f ~ 1");
    assert_eq!(expand("N in 0..2 { f ~N }"), "f ~ 0 f ~ 1");
    assert_eq!(expand("N in 0..2 { f~N }"), "f0 f1");
}

#[test]
fn empty_or_inverted_range_gives_nothing() {
    assert!(seq_expand::driver::seq(&lex("N in 0..0 { f~N() }")).unwrap().is_empty());
    assert!(seq_expand::driver::seq(&lex("N in 3..1 { N }")).unwrap().is_empty());
    assert!(seq_expand::driver::seq(&lex("N in 2..=1 { N }")).unwrap().is_empty());
}

#[test]
fn empty_range_with_marker_keeps_the_rest() {
    assert_eq!(expand("N in 0..0 { [#(N,)*] }"), "[]");
}

#[test]
fn other_tokens_are_copied_in_both_modes() {
    assert_eq!(expand("N in 0..2 { a + 'c' \"s\" (b) }"), "a + 'c' \"s\" (b) a + 'c' \"s\" (b)");
    assert_eq!(expand("N in 0..2 { N a #(b N)* c }"), "N a b 0 b 1 c");
}

#[test]
fn binder_outside_marker_is_kept() {
    let out = seq_expand::driver::seq(&lex("N in 5..6 { N #(N)* }")).unwrap();
    assert_eq!(render(&out), "N 5");
    assert!(matches!(&out[0], Token::Ident { name, .. } if name == "N"));
    assert!(matches!(&out[1], Token::Literal { text, .. } if text == "5"));
}

#[test]
fn expansion_is_deterministic() {
    let input = lex("N in 0..4 { struct S~N { #( f~N: [u8; N], )* } }");
    let first = seq_expand::driver::seq(&input).unwrap();
    let second = seq_expand::driver::seq(&input).unwrap();
    assert_eq!(first, second);
}

#[test]
fn spans_of_output_tokens() {
    let out = seq_expand::driver::seq(&lex("N in 7..8 { f~N N }")).unwrap();
    assert_eq!(out, vec![
        Token::Ident { name: "f7".to_string(), span: sp(1, 12, 13) },
        Token::Literal { text: "7".to_string(), span: sp(1, 16, 17) },
    ]);
}

#[test]
fn negative_bounds() {
    assert_eq!(expand("N in -2..1 { x(N) }"), "x (-2) x (-1) x (0)");
    let out = seq_expand::driver::seq(&lex("N in -1..0 { N }")).unwrap();
    assert_eq!(render(&out), "-1");
}

#[test]
fn literal_bounds_read_by_value() {
    assert_eq!(expand("N in 0x2..0b100 { N }"), "2 3");
    assert_eq!(expand("N in 1_0..=1_1u32 { N }"), "10 11");
}

#[test]
fn largest_inclusive_end() {
    assert_eq!(expand("N in 9223372036854775806..=9223372036854775807 { N }"), "9223372036854775806 9223372036854775807");
}

#[test]
fn marker_group_must_be_parenthesized() {
    assert_eq!(expand("N in 0..2 { #[x]* N }"), "# [x] * 0 # [x] * 1");
}

#[test]
fn several_markers_expand_independently() {
    assert_eq!(expand("N in 1..3 { #(a~N)* - (#(N)*) }"), "a1 a2 - (1 2)");
}

#[test]
fn marker_contents_are_not_searched_for_markers() {
    assert_eq!(expand("N in 0..2 { #(#(N)*)* }"), "# (0) * # (1) *");
}

#[test]
fn error_binder_not_identifier() {
    assert_eq!(error_kind("1 in 0..3 {}"), SyntaxErrorKind::ExpectedIdent);
    assert_eq!(error_kind("fn in 0..3 {}"), SyntaxErrorKind::ExpectedIdent);
    assert_eq!(error_kind(""), SyntaxErrorKind::ExpectedIdent);
}

#[test]
fn error_missing_in() {
    assert_eq!(error_kind("N on 0..3 {}"), SyntaxErrorKind::ExpectedIn);
    let err = seq_expand::driver::seq(&lex("N")).unwrap_err();
    assert_eq!(err, SyntaxError { kind: SyntaxErrorKind::ExpectedIn, span: None });
}

#[test]
fn error_bound_not_integer() {
    assert_eq!(error_kind("N in a..3 {}"), SyntaxErrorKind::ExpectedInteger);
    assert_eq!(error_kind("N in 0..\"3\" {}"), SyntaxErrorKind::ExpectedInteger);
    assert_eq!(error_kind("N in 0..99999999999999999999 {}"), SyntaxErrorKind::ExpectedInteger);
    let err = seq_expand::driver::seq(&lex("N in 0..x {}")).unwrap_err();
    assert_eq!(err, SyntaxError { kind: SyntaxErrorKind::ExpectedInteger, span: Some(sp(1, 8, 9)) });
}

#[test]
fn error_missing_range_operator() {
    assert_eq!(error_kind("N in 0 3 {}"), SyntaxErrorKind::ExpectedRange);
    assert_eq!(error_kind("N in 0 . . 3 {}"), SyntaxErrorKind::ExpectedRange);
    assert_eq!(error_kind("N in 0. .3 {}"), SyntaxErrorKind::ExpectedInteger);
}

#[test]
fn error_body_not_braced() {
    assert_eq!(error_kind("N in 0..3 (f~N)"), SyntaxErrorKind::ExpectedBraces);
    assert_eq!(error_kind("N in 0..3"), SyntaxErrorKind::ExpectedBraces);
}

#[test]
fn error_tokens_after_body() {
    assert_eq!(error_kind("N in 0..3 {} x"), SyntaxErrorKind::UnexpectedToken);
}

#[test]
fn parse_reads_every_part() {
    let inv = Invocation::parse(&lex("K in -3..=4 { K }")).unwrap();
    assert_eq!(inv.binder, "K");
    assert_eq!(inv.start, -3);
    assert_eq!(inv.end, 4);
    assert!(inv.inclusive);
    assert_eq!(render(&inv.body), "K");
}

#[test]
fn expander_substitutes_and_pastes() {
    let inv = Invocation::parse(&lex("N in 0..1 { }")).unwrap();
    let out = inv.expand(&lex("a~N N (b~N [N]) a~M"), 12);
    assert_eq!(render(&out), "a12 12 (b12 [12]) a ~ M");
}

#[test]
fn block_reports_whether_a_marker_was_found() {
    let inv = Invocation::parse(&lex("N in 0..2 { }")).unwrap();
    let (found, out) = inv.expand_block(&lex("x (y #(N)*)"));
    assert!(found);
    assert_eq!(render(&out), "x (y 0 1)");
    let (found, out) = inv.expand_block(&lex("x (y N)"));
    assert!(!found);
    assert_eq!(render(&out), "x (y N)");
}

#[test]
fn decimal_text_of_integers() {
    assert_eq!(decimal_text(0), "0");
    assert_eq!(decimal_text(907), "907");
    assert_eq!(decimal_text(-42), "-42");
    assert_eq!(decimal_text(i64::MIN), "-9223372036854775808");
    assert_eq!(decimal_text(i64::MAX), "9223372036854775807");
}

#[test]
fn procs_fill_a_table() {
    let procs: Vec<Proc> = (0..256).map(|_| Proc::new()).collect();
    assert_eq!(procs.len(), 256);
}
