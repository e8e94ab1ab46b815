use x_compiler::token::{Position, Span, Token, TokenInfo};

#[test]
fn position_starts_at_line_one() {
    let p = Position::new();
    assert_eq!((p.offset, p.line, p.line_offset), (0, 1, 0));
    assert_eq!(Position::from((7, 2, 5)), Position { offset: 7, line: 2, line_offset: 5 });
}

#[test]
fn position_moves_by_offset_only() {
    let p = Position::from((7, 2, 5));
    assert_eq!(p.forward(3), Position::from((10, 2, 5)));
    assert_eq!(p.back(3), Position::from((4, 2, 5)));
    assert_eq!(p.back(7), Position::from((0, 2, 5)));
    assert_eq!(p.back(8), Position::from((0, 2, 5)));
    assert_eq!(p.forward(usize::MAX), Position::from((usize::MAX, 2, 5)));
    assert_eq!(p.forward(usize::MAX - 7), Position::from((usize::MAX, 2, 5)));
    assert_eq!(p.forward(usize::MAX - 8), Position::from((usize::MAX - 1, 2, 5)));
}

#[test]
fn span_ends() {
    let s = Span::from((1, 2, 1), (34, 5, 34));
    assert_eq!(s.start(), Position::from((1, 2, 1)));
    assert_eq!(s.end(), Position::from((34, 5, 34)));
    assert_eq!(Span::new(), Span::from((0, 1, 0), (0, 1, 0)));
}

#[test]
fn token_info_starts_blank() {
    let info = TokenInfo::new();
    assert_eq!(info.token(), Token::EOF);
    assert_eq!(info.position(), Span::new());
    let other = TokenInfo { token: Token::Plus, position: Span::from((1, 1, 0), (1, 1, 0)) };
    assert_eq!(other.clone(), other);
}
