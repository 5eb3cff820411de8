use linefmt::{LineToken, Token, TokenKind};

const ALL_KINDS: [TokenKind; 27] = [
    TokenKind::Ident,
    TokenKind::Match,
    TokenKind::Not,
    TokenKind::Colon,
    TokenKind::Comma,
    TokenKind::Semi,
    TokenKind::Eq,
    TokenKind::Lt,
    TokenKind::Le,
    TokenKind::EqEq,
    TokenKind::Ne,
    TokenKind::Ge,
    TokenKind::Gt,
    TokenKind::AndAnd,
    TokenKind::OrOr,
    TokenKind::Tilde,
    TokenKind::LParen,
    TokenKind::RParen,
    TokenKind::LBrace,
    TokenKind::RBrace,
    TokenKind::Ampersand,
    TokenKind::BinOp,
    TokenKind::BinOpEq,
    TokenKind::ModSep,
    TokenKind::RArrow,
    TokenKind::FatArrow,
    TokenKind::Other,
];

const COMPARISONS: [TokenKind; 10] = [
    TokenKind::Eq,
    TokenKind::Lt,
    TokenKind::Le,
    TokenKind::EqEq,
    TokenKind::Ne,
    TokenKind::Ge,
    TokenKind::Gt,
    TokenKind::AndAnd,
    TokenKind::OrOr,
    TokenKind::Tilde,
];

fn space(left: TokenKind, right: TokenKind) -> bool {
    let left = LineToken::new(Token::new(left, "l"));
    let right = LineToken::new(Token::new(right, "r"));
    left.whitespace_needed_after(&right)
}

#[test]
fn two_names_are_kept_apart() {
    assert!(space(TokenKind::Ident, TokenKind::Ident));
    assert!(space(TokenKind::Match, TokenKind::Ident));
    assert!(space(TokenKind::Ident, TokenKind::Match));
    assert!(space(TokenKind::Match, TokenKind::Match));
}

#[test]
fn macro_marker_clings_to_the_name() {
    assert!(!space(TokenKind::Ident, TokenKind::Not));
    assert!(!space(TokenKind::Match, TokenKind::Not));
    assert!(!space(TokenKind::Not, TokenKind::LParen));
}

#[test]
fn colon_and_comma_are_followed_by_a_space() {
    for right in ALL_KINDS {
        assert!(space(TokenKind::Colon, right), "{:?}", right);
        assert!(space(TokenKind::Comma, right), "{:?}", right);
    }
    assert!(!space(TokenKind::Ident, TokenKind::Comma));
    assert!(!space(TokenKind::Ident, TokenKind::Colon));
    assert!(!space(TokenKind::Other, TokenKind::Comma));
}

#[test]
fn comparisons_are_set_off_on_both_sides() {
    for op in COMPARISONS {
        for other in ALL_KINDS {
            if other != TokenKind::Ident && other != TokenKind::Match {
                assert!(space(op, other), "{:?} {:?}", op, other);
            }
            assert!(space(other, op), "{:?} {:?}", other, op);
        }
    }
}

#[test]
fn comparison_after_a_name_is_set_off() {
    for op in COMPARISONS {
        assert!(space(op, TokenKind::Ident), "{:?}", op);
        assert!(space(op, TokenKind::Match), "{:?}", op);
    }
}

#[test]
fn open_parenthesis_is_not_followed_by_a_space() {
    for right in ALL_KINDS {
        let expected = COMPARISONS.contains(&right);
        assert_eq!(space(TokenKind::LParen, right), expected, "{:?}", right);
    }
}

#[test]
fn close_parenthesis_is_not_preceded_by_a_space() {
    for left in ALL_KINDS {
        let expected = left == TokenKind::Colon
            || left == TokenKind::Comma
            || COMPARISONS.contains(&left);
        assert_eq!(space(left, TokenKind::RParen), expected, "{:?}", left);
    }
}

#[test]
fn ampersand_clings_to_what_follows() {
    assert!(!space(TokenKind::Ampersand, TokenKind::Ident));
    assert!(!space(TokenKind::Ampersand, TokenKind::Other));
    assert!(!space(TokenKind::Ampersand, TokenKind::BinOp));
    assert!(!space(TokenKind::Ampersand, TokenKind::LBrace));
    assert!(space(TokenKind::Ident, TokenKind::Ampersand));
    assert!(space(TokenKind::Other, TokenKind::Ampersand));
    assert!(space(TokenKind::Ampersand, TokenKind::Eq));
}

#[test]
fn binary_operators_are_set_off_on_both_sides() {
    for op in [TokenKind::BinOp, TokenKind::BinOpEq] {
        assert!(space(op, TokenKind::Ident));
        assert!(space(TokenKind::Ident, op));
        assert!(space(op, TokenKind::Other));
        assert!(space(TokenKind::Other, op));
        assert!(space(op, TokenKind::ModSep));
        assert!(space(TokenKind::ModSep, op));
        assert!(space(op, TokenKind::LParen));
        assert!(!space(TokenKind::LParen, op));
        assert!(!space(op, TokenKind::RParen));
    }
}

#[test]
fn path_separator_takes_no_space() {
    assert!(!space(TokenKind::Ident, TokenKind::ModSep));
    assert!(!space(TokenKind::ModSep, TokenKind::Ident));
    assert!(!space(TokenKind::ModSep, TokenKind::LBrace));
    assert!(!space(TokenKind::RBrace, TokenKind::ModSep));
    assert!(!space(TokenKind::ModSep, TokenKind::RArrow));
    assert!(!space(TokenKind::FatArrow, TokenKind::ModSep));
}

#[test]
fn arrows_are_set_off_on_both_sides() {
    for arrow in [TokenKind::RArrow, TokenKind::FatArrow] {
        assert!(space(arrow, TokenKind::Ident));
        assert!(space(TokenKind::Ident, arrow));
        assert!(space(arrow, TokenKind::Other));
        assert!(space(TokenKind::Other, arrow));
        assert!(space(arrow, TokenKind::LBrace));
        assert!(space(TokenKind::RParen, arrow));
    }
}

#[test]
fn braces_are_set_off_on_both_sides() {
    for brace in [TokenKind::LBrace, TokenKind::RBrace] {
        assert!(space(brace, TokenKind::Ident));
        assert!(space(TokenKind::Ident, brace));
        assert!(space(brace, TokenKind::Other));
        assert!(space(TokenKind::Other, brace));
        assert!(space(TokenKind::RParen, brace));
        assert!(space(brace, TokenKind::Semi));
    }
    assert!(!space(TokenKind::LParen, TokenKind::LBrace));
    assert!(!space(TokenKind::RBrace, TokenKind::RParen));
}

#[test]
fn other_pairs_take_no_space() {
    assert!(!space(TokenKind::Other, TokenKind::Other));
    assert!(!space(TokenKind::Ident, TokenKind::Other));
    assert!(!space(TokenKind::Other, TokenKind::Ident));
    assert!(!space(TokenKind::Ident, TokenKind::Semi));
    assert!(!space(TokenKind::Semi, TokenKind::Ident));
    assert!(!space(TokenKind::Ident, TokenKind::LParen));
    assert!(!space(TokenKind::RParen, TokenKind::Semi));
    assert!(!space(TokenKind::RParen, TokenKind::Other));
    assert!(!space(TokenKind::Not, TokenKind::Ident));
    assert!(!space(TokenKind::Semi, TokenKind::Semi));
}

#[test]
fn only_the_closing_brace_starts_a_line() {
    for kind in ALL_KINDS {
        let token = LineToken::new(Token::new(kind, "t"));
        assert_eq!(token.starts_logical_line(), kind == TokenKind::RBrace, "{:?}", kind);
        let expected = if kind == TokenKind::RBrace { -4 } else { 0 };
        assert_eq!(token.preindentation(), expected, "{:?}", kind);
    }
}

#[test]
fn length_counts_characters() {
    assert_eq!(LineToken::new(Token::new(TokenKind::Ident, "")).length(), 0);
    assert_eq!(LineToken::new(Token::new(TokenKind::Ident, "abc")).length(), 3);
    assert_eq!(LineToken::new(Token::new(TokenKind::Other, "\"héllo\"")).length(), 7);
    assert_eq!(LineToken::new(Token::new(TokenKind::OrOr, "||")).length(), 2);
}

#[test]
fn new_line_token_stands_at_column_zero() {
    let token = LineToken::new(Token::new(TokenKind::Ident, "abc"));
    assert_eq!(token.x_pos, 0);
    assert_eq!(token.token, Token::new(TokenKind::Ident, "abc"));
    assert_eq!(linefmt::TAB_WIDTH, 4);
}
