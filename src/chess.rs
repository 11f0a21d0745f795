//! The decoded chess position and the rules that read each FEN field.
use vstd::prelude::*;
use crate::fields::{fields_of, split_fields};
use crate::text::{all_digits, digit_value, digits_value, is_digit, string_from_chars};

verus! {

/// A square: a file letter and a rank number. The square with rank 0 and
/// file `_` stands for "no en-passant target".
#[derive(Clone, Copy, Debug, PartialEq, Eq, Structural)]
pub struct Position {
    pub rank: u8,
    pub file: char,
}

/// The side to move.
#[derive(Clone, Copy, Debug, PartialEq, Eq, Structural)]
pub enum Player {
    WHITE,
    BLACK,
}

/// One of the four castling rights, each a bit of the castling mask.
#[derive(Clone, Copy, Debug, PartialEq, Eq, Structural)]
pub enum CastlingAvail {
    WhiteKingside,
    WhiteQueenside,
    BlackKingside,
    BlackQueenside,
}

/// Why a FEN string could not be decoded.
#[derive(Clone, Copy, Debug, PartialEq, Eq, Structural)]
pub enum ParseError {
    /// Fewer than six fields.
    MissingField,
    /// The en-passant field is neither `-` nor a file and a digit.
    InvalidEnPassant,
    /// The halfmove or fullmove field is not a number from 0 to 255.
    InvalidCounter,
}

/// A decoded FEN position.
#[derive(Debug)]
pub struct ChessState {
    pub board: String,
    pub active_player: Player,
    pub castling_avail: u8,
    pub en_passant: Position,
    pub halfmove_clock: u8,
    pub fullmoves: u8,
}

/// The "no en-passant target" square.
pub open spec fn no_target() -> Position {
    Position { rank: 0, file: '_' }
}

/// The text that one character of the placement field stands for.
pub open spec fn square_text(c: char) -> Seq<char> {
    if c == '/' {
        seq!['\n']
    } else if is_digit(c) {
        Seq::new(digit_value(c), |i: int| '.')
    } else {
        seq![c]
    }
}

/// The board text of a placement field: rows broken by line breaks, a digit
/// as that many `.`, anything else as itself; a space ends the field.
pub open spec fn board_text(s: Seq<char>) -> Seq<char>
    decreases s.len(),
{
    if s.len() == 0 || s[0] == ' ' {
        seq![]
    } else {
        square_text(s[0]) + board_text(s.drop_first())
    }
}

/// The side named by the active-color field: `w` is White, anything else Black.
pub open spec fn player_of(s: Seq<char>) -> Player {
    if s == seq!['w'] {
        Player::WHITE
    } else {
        Player::BLACK
    }
}

/// The mask bit of a castling right.
pub open spec fn right_bit(right: CastlingAvail) -> u8 {
    match right {
        CastlingAvail::WhiteKingside => 1,
        CastlingAvail::WhiteQueenside => 2,
        CastlingAvail::BlackKingside => 4,
        CastlingAvail::BlackQueenside => 8,
    }
}

/// The castling mask of a castling field: the bit of each right whose
/// letter (`K`, `Q`, `k`, `q`) occurs in it; other characters add nothing.
pub open spec fn castling_of(s: Seq<char>) -> u8 {
    ((if s.contains('K') { 1u8 } else { 0u8 }) + (if s.contains('Q') { 2u8 } else { 0u8 })
        + (if s.contains('k') { 4u8 } else { 0u8 }) + (if s.contains('q') { 8u8 } else { 0u8 })) as u8
}

/// The en-passant field is `-` or a file followed by a digit.
pub open spec fn en_passant_ok(s: Seq<char>) -> bool {
    s == seq!['-'] || (s.len() == 2 && is_digit(s[1]))
}

/// The target square of a well-formed en-passant field.
pub open spec fn en_passant_of(s: Seq<char>) -> Position {
    if s == seq!['-'] {
        no_target()
    } else {
        Position { rank: digit_value(s[1]) as u8, file: s[0] }
    }
}

/// The digits of a counter field, after an optional leading `+`.
pub open spec fn counter_digits(s: Seq<char>) -> Seq<char> {
    if s.len() > 0 && s[0] == '+' {
        s.drop_first()
    } else {
        s
    }
}

/// The value of a counter field: at least one digit after an optional `+`,
/// and a value from 0 to 255.
pub open spec fn counter_of(s: Seq<char>) -> Option<u8> {
    let d = counter_digits(s);
    if d.len() > 0 && all_digits(d) && digits_value(d) <= 255 {
        Some(digits_value(d) as u8)
    } else {
        None
    }
}

/// The error that decoding the fields `f` meets first, if any.
pub open spec fn fields_error(f: Seq<Seq<char>>) -> Option<ParseError> {
    if f.len() < 6 {
        Some(ParseError::MissingField)
    } else if !en_passant_ok(f[3]) {
        Some(ParseError::InvalidEnPassant)
    } else if counter_of(f[4]) is None || counter_of(f[5]) is None {
        Some(ParseError::InvalidCounter)
    } else {
        None
    }
}

/// `st` holds what the fields `f` say, and `f` has no error.
pub open spec fn decoded_from(st: ChessState, f: Seq<Seq<char>>) -> bool {
    &&& fields_error(f) is None
    &&& st.board@ == board_text(f[0])
    &&& st.active_player == player_of(f[1])
    &&& st.castling_avail == castling_of(f[2])
    &&& st.en_passant == en_passant_of(f[3])
    &&& Some(st.halfmove_clock) == counter_of(f[4])
    &&& Some(st.fullmoves) == counter_of(f[5])
}

/// `st` is the position that the FEN string `fen` decodes to.
pub open spec fn parsed_from(st: ChessState, fen: Seq<char>) -> bool {
    decoded_from(st, fields_of(fen))
}

/// The board text of a placement field.
pub fn board_from_placement(field: &Vec<char>) -> (r: String)
    ensures
        r@ == board_text(field@),
{
    let mut out: Vec<char> = Vec::new();
    let n = field.len();
    let mut i: usize = 0;
    assert(field@.subrange(0, n as int) =~= field@);
    assert(out@ + board_text(field@) =~= board_text(field@));
    while i < n
        invariant
            n == field@.len(),
            i <= n,
            board_text(field@) == out@ + board_text(field@.subrange(i as int, n as int)),
        ensures
            board_text(field@) == out@,
        decreases n - i,
    {
        let c = field[i];
        assert(field@.subrange(i as int, n as int).drop_first() =~= field@.subrange(
            i + 1,
            n as int,
        ));
        if c == ' ' {
            assert(out@ + board_text(field@.subrange(i as int, n as int)) =~= out@);
            break;
        }
        let ghost before = out@;
        if c == '/' {
            out.push('\n');
        } else if '0' <= c && c <= '9' {
            let d = c as u32 - '0' as u32;
            let mut k: u32 = 0;
            while k < d
                invariant
                    k <= d,
                    is_digit(c),
                    d == digit_value(c),
                    out@ == before + Seq::new(k as nat, |j: int| '.'),
                decreases d - k,
            {
                out.push('.');
                k = k + 1;
                assert(out@ =~= before + Seq::new(k as nat, |j: int| '.'));
            }
        } else {
            out.push(c);
        }
        assert(out@ =~= before + square_text(c));
        assert(before + board_text(field@.subrange(i as int, n as int)) =~= out@ + board_text(
            field@.subrange(i + 1, n as int),
        ));
        i = i + 1;
    }
    string_from_chars(&out)
}

/// The side named by an active-color field.
pub fn player_from_field(field: &Vec<char>) -> (r: Player)
    ensures
        r == player_of(field@),
{
    if field.len() == 1 && field[0] == 'w' {
        assert(field@ =~= seq!['w']);
        Player::WHITE
    } else {
        Player::BLACK
    }
}

impl CastlingAvail {
    /// The bit of this right in a castling mask.
    pub fn bit(self) -> (r: u8)
        ensures
            r == right_bit(self),
    {
        match self {
            CastlingAvail::WhiteKingside => 1,
            CastlingAvail::WhiteQueenside => 2,
            CastlingAvail::BlackKingside => 4,
            CastlingAvail::BlackQueenside => 8,
        }
    }
}

/// The castling mask of a castling field.
pub fn castling_from_field(field: &Vec<char>) -> (r: u8)
    ensures
        r == castling_of(field@),
{
    let mut wk = false;
    let mut wq = false;
    let mut bk = false;
    let mut bq = false;
    let n = field.len();
    let mut i: usize = 0;
    while i < n
        invariant
            n == field@.len(),
            i <= n,
            wk == field@.take(i as int).contains('K'),
            wq == field@.take(i as int).contains('Q'),
            bk == field@.take(i as int).contains('k'),
            bq == field@.take(i as int).contains('q'),
        decreases n - i,
    {
        let c = field[i];
        proof {
            let t = field@.take(i + 1);
            assert(t =~= field@.take(i as int).push(c));
            assert(t[i as int] == c);
            assert forall|x: char| t.contains(x) <==> (field@.take(i as int).contains(x) || x == c) by {
                if t.contains(x) && x != c {
                    let j = choose|j: int| 0 <= j < t.len() && t[j] == x;
                    assert(field@.take(i as int)[j] == x);
                }
                if field@.take(i as int).contains(x) {
                    let j = choose|j: int| 0 <= j < i && field@.take(i as int)[j] == x;
                    assert(t[j] == x);
                }
            }
        }
        match c {
            'K' => wk = true,
            'Q' => wq = true,
            'k' => bk = true,
            'q' => bq = true,
            _ => {},
        }
        i = i + 1;
    }
    assert(field@.take(n as int) =~= field@);
    // each right has a bit of its own, so adding sets the bit
    let mut mask: u8 = 0;
    if wk {
        mask = mask + CastlingAvail::WhiteKingside.bit();
    }
    if wq {
        mask = mask + CastlingAvail::WhiteQueenside.bit();
    }
    if bk {
        mask = mask + CastlingAvail::BlackKingside.bit();
    }
    if bq {
        mask = mask + CastlingAvail::BlackQueenside.bit();
    }
    mask
}

/// The target square of an en-passant field: `-` gives the "no target"
/// square; otherwise the field is a file character and a digit.
pub fn en_passant_from_field(field: &Vec<char>) -> (r: Result<Position, ParseError>)
    ensures
        r is Ok <==> en_passant_ok(field@),
        r is Ok ==> r->Ok_0 == en_passant_of(field@),
        r is Err ==> r->Err_0 == ParseError::InvalidEnPassant,
{
    if field.len() == 1 && field[0] == '-' {
        assert(field@ =~= seq!['-']);
        return Ok(Position { rank: 0, file: '_' });
    }
    if field.len() == 2 && '0' <= field[1] && field[1] <= '9' {
        Ok(Position { rank: (field[1] as u32 - '0' as u32) as u8, file: field[0] })
    } else {
        Err(ParseError::InvalidEnPassant)
    }
}

/// The value of a halfmove or fullmove field: an optional `+`, then one or
/// more digits spelling a number from 0 to 255.
pub fn counter_from_field(field: &Vec<char>) -> (r: Result<u8, ParseError>)
    ensures
        r is Ok <==> counter_of(field@) is Some,
        r is Ok ==> Some(r->Ok_0) == counter_of(field@),
        r is Err ==> r->Err_0 == ParseError::InvalidCounter,
{
    let n = field.len();
    let mut start: usize = 0;
    if n > 0 && field[0] == '+' {
        start = 1;
    }
    let ghost d = counter_digits(field@);
    assert(d =~= field@.subrange(start as int, n as int));
    if start == n {
        return Err(ParseError::InvalidCounter);
    }
    // the value so far, or 256 once it is past 255
    let mut acc: u16 = 0;
    let mut i: usize = start;
    while i < n
        invariant
            start <= i <= n,
            n == field@.len(),
            d == counter_digits(field@),
            d == field@.subrange(start as int, n as int),
            all_digits(field@.subrange(start as int, i as int)),
            acc == if digits_value(field@.subrange(start as int, i as int)) > 255 {
                256
            } else {
                digits_value(field@.subrange(start as int, i as int))
            },
        decreases n - i,
    {
        let c = field[i];
        let ghost prefix = field@.subrange(start as int, i as int);
        let ghost next = field@.subrange(start as int, i + 1);
        assert(next.drop_last() =~= prefix);
        assert(next.last() == c);
        if !('0' <= c && c <= '9') {
            assert(d[i - start] == c);
            assert(!all_digits(d));
            return Err(ParseError::InvalidCounter);
        }
        let v = acc * 10 + (c as u32 - '0' as u32) as u16;
        acc = if v > 255 { 256 } else { v };
        i = i + 1;
        assert(all_digits(next)) by {
            assert forall|j: int| 0 <= j < next.len() implies is_digit(#[trigger] next[j]) by {
                if j < prefix.len() {
                    assert(next[j] == prefix[j]);
                }
            }
        }
    }
    assert(field@.subrange(start as int, n as int) =~= d);
    if acc > 255 {
        Err(ParseError::InvalidCounter)
    } else {
        Ok(acc as u8)
    }
}

impl ChessState {
    /// Decodes a FEN string. It fails with `MissingField` when the string
    /// has fewer than six fields, then with `InvalidEnPassant` or
    /// `InvalidCounter` as the fields say.
    pub fn new(fen: &String) -> (r: Result<ChessState, ParseError>)
        ensures
            r is Ok ==> parsed_from(r->Ok_0, fen@),
            r is Err ==> fields_error(fields_of(fen@)) == Some(r->Err_0),
            fields_of(fen@).len() < 6 ==> r == Err::<ChessState, ParseError>(
                ParseError::MissingField,
            ),
    {
        let fields = split_fields(fen.as_str());
        ChessState::from_fields(&fields)
    }

    /// Decodes the fields of a FEN string.
    pub fn from_fields(fields: &Vec<Vec<char>>) -> (r: Result<ChessState, ParseError>)
        ensures
            r is Ok ==> decoded_from(r->Ok_0, fields.deep_view()),
            r is Err ==> fields_error(fields.deep_view()) == Some(r->Err_0),
    {
        let ghost f = fields.deep_view();
        assert forall|k: int| 0 <= k < fields.len() implies #[trigger] f[k] == fields@[k]@ by {
            assert(f[k] =~= fields@[k]@);
        }
        if fields.len() < 6 {
            return Err(ParseError::MissingField);
        }
        let en_passant = match en_passant_from_field(&fields[3]) {
            Ok(p) => p,
            Err(e) => return Err(e),
        };
        let halfmove_clock = match counter_from_field(&fields[4]) {
            Ok(v) => v,
            Err(e) => return Err(e),
        };
        let fullmoves = match counter_from_field(&fields[5]) {
            Ok(v) => v,
            Err(e) => return Err(e),
        };
        Ok(ChessState {
            board: board_from_placement(&fields[0]),
            active_player: player_from_field(&fields[1]),
            castling_avail: castling_from_field(&fields[2]),
            en_passant,
            halfmove_clock,
            fullmoves,
        })
    }

}

/// Repeating a castling field does not change the rights it grants.
pub proof fn lemma_castling_repeat(s: Seq<char>)
    ensures
        castling_of(s + s) == castling_of(s),
{
    assert forall|c: char| (s + s).contains(c) <==> s.contains(c) by {
        if (s + s).contains(c) {
            let j = choose|j: int| 0 <= j < (s + s).len() && (s + s)[j] == c;
            if j >= s.len() {
                assert(s[j - s.len()] == c);
            } else {
                assert(s[j] == c);
            }
        }
        if s.contains(c) {
            let j = choose|j: int| 0 <= j < s.len() && s[j] == c;
            assert((s + s)[j] == c);
        }
    }
}

} // verus!
