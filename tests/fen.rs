use fen_chess::chess::{
    board_from_placement, castling_from_field, counter_from_field, en_passant_from_field,
    player_from_field, CastlingAvail, ChessState, ParseError, Player, Position,
};
use fen_chess::fields::split_fields;
use fen_chess::text::decimal;

fn chars(s: &str) -> Vec<char> {
    s.chars().collect()
}

fn parse(s: &str) -> Result<ChessState, ParseError> {
    ChessState::new(&String::from(s))
}

#[test]
fn empty_board_decodes() {
    let st = parse("8/8/8/8/8/8/8/8 w - - 0 1").unwrap();
    let rows: Vec<&str> = st.board.split('\n').collect();
    assert_eq!(rows.len(), 8);
    for row in rows {
        assert_eq!(row, "........");
    }
    assert_eq!(st.active_player, Player::WHITE);
    assert_eq!(st.castling_avail, 0);
    assert_eq!(st.en_passant, Position { rank: 0, file: '_' });
    assert_eq!(st.halfmove_clock, 0);
    assert_eq!(st.fullmoves, 1);
}

#[test]
fn start_position_decodes() {
    let st = parse("rnbqkbnr/pppppppp/8/8/8/8/PPPPPPPP/RNBQKBNR w KQkq - 0 1").unwrap();
    assert_eq!(
        st.board,
        "rnbqkbnr\npppppppp\n........\n........\n........\n........\nPPPPPPPP\nRNBQKBNR"
    );
    assert_eq!(st.castling_avail, 15);
    assert!(st.has_right(CastlingAvail::WhiteKingside));
    assert!(st.has_right(CastlingAvail::WhiteQueenside));
    assert!(st.has_right(CastlingAvail::BlackKingside));
    assert!(st.has_right(CastlingAvail::BlackQueenside));
    assert_eq!(st.en_passant, Position { rank: 0, file: '_' });
    assert_eq!(st.active_player, Player::WHITE);
}

#[test]
fn castling_fields() {
    assert_eq!(castling_from_field(&chars("-")), 0);
    let kq = castling_from_field(&chars("Kq"));
    assert_eq!(kq, CastlingAvail::WhiteKingside.bit() | CastlingAvail::BlackQueenside.bit());
    assert_eq!(kq, 9);
    assert_eq!(castling_from_field(&chars("KQkqKQkq")), castling_from_field(&chars("KQkq")));
    assert_eq!(castling_from_field(&chars("KQkq")), 15);
    assert_eq!(castling_from_field(&chars("Kx_q")), 9);
    assert_eq!(castling_from_field(&chars("")), 0);
}

#[test]
fn castling_bits() {
    assert_eq!(CastlingAvail::WhiteKingside.bit(), 1);
    assert_eq!(CastlingAvail::WhiteQueenside.bit(), 2);
    assert_eq!(CastlingAvail::BlackKingside.bit(), 4);
    assert_eq!(CastlingAvail::BlackQueenside.bit(), 8);
}

#[test]
fn en_passant_fields() {
    assert_eq!(en_passant_from_field(&chars("e3")), Ok(Position { file: 'e', rank: 3 }));
    assert_eq!(en_passant_from_field(&chars("-")), Ok(Position { file: '_', rank: 0 }));
    let st = parse("8/8/8/8/8/8/8/8 w - - 0 1").unwrap();
    assert!(st.render().contains("En Passant Target: No en passant possible.\n"));
    let st = parse("8/8/8/8/8/8/8/8 b - e3 0 1").unwrap();
    assert_eq!(st.en_passant, Position { file: 'e', rank: 3 });
    assert!(st.render().contains("En Passant Target: e3\n"));
}

#[test]
fn en_passant_matching_rule() {
    assert_eq!(en_passant_from_field(&chars("e#")), Err(ParseError::InvalidEnPassant));
    assert_eq!(en_passant_from_field(&chars("93")), Ok(Position { file: '9', rank: 3 }));
    assert_eq!(en_passant_from_field(&chars("e")), Err(ParseError::InvalidEnPassant));
    assert_eq!(en_passant_from_field(&chars("e33")), Err(ParseError::InvalidEnPassant));
    assert_eq!(en_passant_from_field(&chars("ee")), Err(ParseError::InvalidEnPassant));
    assert_eq!(
        parse("8/8/8/8/8/8/8/8 w - ee 0 1").err(),
        Some(ParseError::InvalidEnPassant)
    );
}

#[test]
fn missing_fields() {
    assert_eq!(parse("8/8/8/8/8/8/8/8 w - -").err(), Some(ParseError::MissingField));
    assert_eq!(parse("8/8/8/8/8/8/8/8 w - - 0").err(), Some(ParseError::MissingField));
    assert_eq!(parse("").err(), Some(ParseError::MissingField));
}

#[test]
fn counter_fields() {
    assert_eq!(counter_from_field(&chars("0")), Ok(0));
    assert_eq!(counter_from_field(&chars("12")), Ok(12));
    assert_eq!(counter_from_field(&chars("007")), Ok(7));
    assert_eq!(counter_from_field(&chars("+5")), Ok(5));
    assert_eq!(counter_from_field(&chars("255")), Ok(255));
    assert_eq!(counter_from_field(&chars("256")), Err(ParseError::InvalidCounter));
    assert_eq!(counter_from_field(&chars("99999")), Err(ParseError::InvalidCounter));
    assert_eq!(counter_from_field(&chars("")), Err(ParseError::InvalidCounter));
    assert_eq!(counter_from_field(&chars("+")), Err(ParseError::InvalidCounter));
    assert_eq!(counter_from_field(&chars("1x")), Err(ParseError::InvalidCounter));
    assert_eq!(counter_from_field(&chars("-1")), Err(ParseError::InvalidCounter));
    assert_eq!(
        parse("8/8/8/8/8/8/8/8 w - - 300 1").err(),
        Some(ParseError::InvalidCounter)
    );
    assert_eq!(
        parse("8/8/8/8/8/8/8/8 w - - 0 x").err(),
        Some(ParseError::InvalidCounter)
    );
}

#[test]
fn en_passant_checked_before_counters() {
    assert_eq!(
        parse("8/8/8/8/8/8/8/8 w - e# x x").err(),
        Some(ParseError::InvalidEnPassant)
    );
}

#[test]
fn board_placement() {
    assert_eq!(board_from_placement(&chars("3p4/8")), "...p....\n........");
    assert_eq!(board_from_placement(&chars("")), "");
    assert_eq!(board_from_placement(&chars("k0K9")), "kK.........");
    assert_eq!(board_from_placement(&chars("2 pp")), "..");
}

#[test]
fn active_color() {
    assert_eq!(player_from_field(&chars("w")), Player::WHITE);
    assert_eq!(player_from_field(&chars("b")), Player::BLACK);
    assert_eq!(player_from_field(&chars("x")), Player::BLACK);
    assert_eq!(player_from_field(&chars("ww")), Player::BLACK);
    assert_eq!(Player::WHITE.to_string(), "White");
    assert_eq!(Player::BLACK.to_string(), "Black");
}

#[test]
fn splitting_fields() {
    let f = split_fields("rnbqkbnr/pppp  w\t KQkq,e3 ;;0 1 ");
    let expected: Vec<Vec<char>> = vec![
        chars("rnbqkbnr/pppp"),
        chars("w"),
        chars("KQkq"),
        chars("e3"),
        chars("0"),
        chars("1"),
    ];
    assert_eq!(f, expected);
    assert_eq!(split_fields("  "), Vec::<Vec<char>>::new());
    assert_eq!(split_fields("a_b-c/d+e"), vec![chars("a_b-c/d"), chars("e")]);
}

#[test]
fn odd_separators_are_tolerated() {
    let st = parse("8/8/8/8/8/8/8/8,,b;KQ  e6\t12 34").unwrap();
    assert_eq!(st.active_player, Player::BLACK);
    assert_eq!(st.castling_avail, 3);
    assert_eq!(st.en_passant, Position { file: 'e', rank: 6 });
    assert_eq!(st.halfmove_clock, 12);
    assert_eq!(st.fullmoves, 34);
}

#[test]
fn castling_descriptions() {
    let mut st = parse("8/8/8/8/8/8/8/8 w - - 0 1").unwrap();
    assert_eq!(st.castling_to_str(), "None");
    st.castling_avail = 15;
    assert_eq!(
        st.castling_to_str(),
        "White, Kingside; White, Queenside; Black, Kingside; Black, Queenside"
    );
    st.castling_avail = 9;
    assert_eq!(st.castling_to_str(), "White, Kingside; Black, Queenside");
    st.castling_avail = 6;
    assert_eq!(st.castling_to_str(), "White, Queenside; Black, Kingside");
    st.castling_avail = 1;
    assert_eq!(st.castling_to_str(), "White, Kingside");
    st.castling_avail = 8;
    assert_eq!(st.castling_to_str(), "Black, Queenside");
    st.castling_avail = 7;
    assert_eq!(st.castling_to_str(), "White, Kingside; White, Queenside; Black, Kingside");
    st.castling_avail = 16;
    assert_eq!(st.castling_to_str(), "");
}

#[test]
fn position_text() {
    assert_eq!(Position { file: 'e', rank: 3 }.to_string(), "e3");
    assert_eq!(Position { file: 'h', rank: 200 }.to_string(), "h200");
    assert_eq!(decimal(0), vec!['0']);
    assert_eq!(decimal(47), vec!['4', '7']);
    assert_eq!(decimal(255), vec!['2', '5', '5']);
}

#[test]
fn full_report() {
    let st = parse("8/8/8/8/8/8/8/8 w - - 0 1").unwrap();
    let expected = "\n........\n........\n........\n........\n........\n........\n........\n........\n\nActive Player: White\nCastling Availability: None\nEn Passant Target: No en passant possible.\nHalfmoves Since Last Pawnpush or Capture: 0\nNo. of Fullmoves: 1";
    assert_eq!(st.render(), expected);
    let st = parse("4k3/8/8/8/4P3/8/8/4K3 b Kq e3 17 230").unwrap();
    let expected = "\n....k...\n........\n........\n........\n....P...\n........\n........\n....K...\n\nActive Player: Black\nCastling Availability: White, Kingside; Black, Queenside\nEn Passant Target: e3\nHalfmoves Since Last Pawnpush or Capture: 17\nNo. of Fullmoves: 230";
    assert_eq!(st.render(), expected);
}

#[test]
fn report_is_repeatable() {
    let fen = "rnbqkbnr/pppppppp/8/8/4P3/8/PPPP1PPP/RNBQKBNR b KQkq e3 0 1";
    let a = parse(fen).unwrap().render();
    let b = parse(fen).unwrap().render();
    assert_eq!(a, b);
}
