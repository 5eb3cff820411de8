use linefmt::{format_tokens, Token, TokenKind};
use syntex_syntax::codemap::FilePathMapping;
use syntex_syntax::parse::lexer::StringReader;
use syntex_syntax::parse::token;
use syntex_syntax::parse::ParseSess;
use syntex_syntax::print::pprust;
use syntex_syntax::symbol::keywords;

fn kind_of(tok: &token::Token) -> TokenKind {
    match *tok {
        token::Ident(..) if tok.is_keyword(keywords::Match) => TokenKind::Match,
        token::Ident(..) => TokenKind::Ident,
        token::Not => TokenKind::Not,
        token::Colon => TokenKind::Colon,
        token::Comma => TokenKind::Comma,
        token::Semi => TokenKind::Semi,
        token::Eq => TokenKind::Eq,
        token::Lt => TokenKind::Lt,
        token::Le => TokenKind::Le,
        token::EqEq => TokenKind::EqEq,
        token::Ne => TokenKind::Ne,
        token::Ge => TokenKind::Ge,
        token::Gt => TokenKind::Gt,
        token::AndAnd => TokenKind::AndAnd,
        token::OrOr => TokenKind::OrOr,
        token::Tilde => TokenKind::Tilde,
        token::OpenDelim(token::Paren) => TokenKind::LParen,
        token::CloseDelim(token::Paren) => TokenKind::RParen,
        token::OpenDelim(token::Brace) => TokenKind::LBrace,
        token::CloseDelim(token::Brace) => TokenKind::RBrace,
        token::BinOp(token::And) => TokenKind::Ampersand,
        token::BinOp(_) => TokenKind::BinOp,
        token::BinOpEq(_) => TokenKind::BinOpEq,
        token::ModSep => TokenKind::ModSep,
        token::RArrow => TokenKind::RArrow,
        token::FatArrow => TokenKind::FatArrow,
        _ => TokenKind::Other,
    }
}

fn lex(source: &str) -> Vec<Token> {
    let session = ParseSess::new(FilePathMapping::empty());
    let filemap = session
        .codemap()
        .new_filemap("<test>".to_string(), source.to_string());
    let mut lexer = StringReader::new(&session, filemap);
    let mut tokens = Vec::new();
    loop {
        let next = lexer.real_token();
        if next.tok == token::Eof {
            return tokens;
        }
        tokens.push(Token::new(
            kind_of(&next.tok),
            &pprust::token_to_string(&next.tok),
        ));
    }
}

fn format(source: &str) -> String {
    format_tokens(lex(source)).unwrap()
}

#[test]
fn source_is_lexed_into_kinds_and_spellings() {
    assert_eq!(
        lex("match  x{1=>&a,}"),
        vec![
            Token::new(TokenKind::Match, "match"),
            Token::new(TokenKind::Ident, "x"),
            Token::new(TokenKind::LBrace, "{"),
            Token::new(TokenKind::Other, "1"),
            Token::new(TokenKind::FatArrow, "=>"),
            Token::new(TokenKind::Ampersand, "&"),
            Token::new(TokenKind::Ident, "a"),
            Token::new(TokenKind::Comma, ","),
            Token::new(TokenKind::RBrace, "}"),
        ]
    );
}

#[test]
fn call_in_source_text_is_one_line() {
    assert_eq!(format("f ( x ) ;"), "f(x);\n");
    assert_eq!(format("f(x);"), "f(x);\n");
}

#[test]
fn function_in_source_text() {
    assert_eq!(
        format("fn main(){let x=f(a,b);match x{1=>a,2=>b}}"),
        "fn main() {\n    let x = f(a, b);\n    match x {\n        1 => a,\n        \
         2 => b\n    }\n}\n"
    );
}

#[test]
fn white_space_and_comments_do_not_matter() {
    assert_eq!(
        format("fn  main ( )\n{\n// say it\n    f ( x ,y ) ;\n\n}\n"),
        "fn main() {\n    f(x, y);\n}\n"
    );
}

#[test]
fn formatted_text_is_a_fixed_point() {
    for source in [
        "fn main(){let x=f(a,b);match x{1=>a,2=>b}}",
        "struct P{x:i32,y:i32}impl P{fn new()->P{P{x:0,y:0}}}",
        "fn f(a:&A)->B{if a.x<=1&&a.y!=2{g(a,h(1,2))}else{std::mem::size_of(a)}}",
        "{ }",
        "x = y ; {",
    ] {
        let once = format(source);
        let twice = format(&once);
        assert_eq!(twice, once, "{}", source);
    }
}
