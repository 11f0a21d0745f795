//! The text report of a decoded position.
use vstd::prelude::*;
use crate::chess::{no_target, parsed_from, right_bit, CastlingAvail, ChessState, Player, Position};
use crate::text::{decimal, decimal_text, push_chars, push_text, string_from_chars};

verus! {

/// The display name of a side.
pub open spec fn player_name(p: Player) -> Seq<char> {
    match p {
        Player::WHITE => "White"@,
        Player::BLACK => "Black"@,
    }
}

/// The text of a square: its file, then its rank in decimal.
pub open spec fn position_text(p: Position) -> Seq<char> {
    seq![p.file] + decimal_text(p.rank as nat)
}

/// The mask `mask` holds the bit of `right`.
pub open spec fn has_bit(mask: u8, right: CastlingAvail) -> bool {
    mask & right_bit(right) != 0
}

/// The phrase for a right, if the mask holds it: one phrase or none.
pub open spec fn right_phrase(mask: u8, right: CastlingAvail, phrase: Seq<char>) -> Seq<Seq<char>> {
    if has_bit(mask, right) {
        seq![phrase]
    } else {
        seq![]
    }
}

/// The phrases `p` joined by `; `, with nothing before the first or after
/// the last.
pub open spec fn join_phrases(p: Seq<Seq<char>>) -> Seq<char>
    decreases p.len(),
{
    if p.len() == 0 {
        seq![]
    } else if p.len() == 1 {
        p[0]
    } else {
        join_phrases(p.drop_last()) + "; "@ + p.last()
    }
}

/// The phrases of the rights that a castling mask holds, in the order White
/// kingside, White queenside, Black kingside, Black queenside.
pub open spec fn castling_phrases(mask: u8) -> Seq<Seq<char>> {
    right_phrase(mask, CastlingAvail::WhiteKingside, "White, Kingside"@) + right_phrase(
        mask,
        CastlingAvail::WhiteQueenside,
        "White, Queenside"@,
    ) + right_phrase(mask, CastlingAvail::BlackKingside, "Black, Kingside"@) + right_phrase(
        mask,
        CastlingAvail::BlackQueenside,
        "Black, Queenside"@,
    )
}

/// The description of a castling mask: `None` for no bits, else the phrases
/// of the rights present, joined by `; `.
pub open spec fn castling_text(mask: u8) -> Seq<char> {
    if mask == 0 {
        "None"@
    } else {
        join_phrases(castling_phrases(mask))
    }
}

/// The description of an en-passant target.
pub open spec fn en_passant_text(p: Position) -> Seq<char> {
    if p == no_target() {
        "No en passant possible."@
    } else {
        position_text(p)
    }
}

/// The report of a position: the board, then one line for each of the side
/// to move, the castling rights, the en-passant target and the two counters.
pub open spec fn report_text(st: ChessState) -> Seq<char> {
    "\n"@ + st.board@ + "\n\nActive Player: "@ + player_name(st.active_player)
        + "\nCastling Availability: "@ + castling_text(st.castling_avail)
        + "\nEn Passant Target: "@ + en_passant_text(st.en_passant)
        + "\nHalfmoves Since Last Pawnpush or Capture: "@ + decimal_text(st.halfmove_clock as nat)
        + "\nNo. of Fullmoves: "@ + decimal_text(st.fullmoves as nat)
}

impl Position {
    /// The file followed by the rank, as in `e3`.
    pub fn to_string(&self) -> (r: String)
        ensures
            r@ == position_text(*self),
    {
        let mut out: Vec<char> = Vec::new();
        out.push(self.file);
        push_chars(&mut out, &decimal(self.rank));
        string_from_chars(&out)
    }
}

impl Player {
    /// `White` or `Black`.
    pub fn to_string(&self) -> (r: String)
        ensures
            r@ == player_name(*self),
    {
        match self {
            Player::WHITE => "White".to_owned(),
            Player::BLACK => "Black".to_owned(),
        }
    }
}

/// Appends `phrase` to `out`, which holds the phrases `shown` joined, so that
/// it then holds them and `phrase` joined. `first` tells that none is shown.
fn push_phrase(out: &mut Vec<char>, shown: Ghost<Seq<Seq<char>>>, first: bool, phrase: &str)
    requires
        old(out)@ == join_phrases(shown@),
        first == (shown@.len() == 0),
    ensures
        final(out)@ == join_phrases(shown@.push(phrase@)),
{
    let ghost p = shown@.push(phrase@);
    assert(p.drop_last() =~= shown@);
    if !first {
        push_text(out, "; ");
    }
    push_text(out, phrase);
}

impl ChessState {
    /// Whether the castling mask holds `right`.
    pub fn has_right(&self, right: CastlingAvail) -> (r: bool)
        ensures
            r == has_bit(self.castling_avail, right),
    {
        self.castling_avail & right.bit() != 0
    }

    /// The castling rights in words.
    pub fn castling_to_str(&self) -> (r: String)
        ensures
            r@ == castling_text(self.castling_avail),
    {
        let mut out: Vec<char> = Vec::new();
        if self.castling_avail != 0 {
            let ghost mask = self.castling_avail;
            let ghost mut shown: Seq<Seq<char>> = seq![];
            let mut first = true;
            if self.has_right(CastlingAvail::WhiteKingside) {
                push_phrase(&mut out, Ghost(shown), first, "White, Kingside");
                first = false;
                proof { shown = shown.push("White, Kingside"@); }
            }
            assert(shown =~= right_phrase(mask, CastlingAvail::WhiteKingside, "White, Kingside"@));
            let ghost before = shown;
            if self.has_right(CastlingAvail::WhiteQueenside) {
                push_phrase(&mut out, Ghost(shown), first, "White, Queenside");
                first = false;
                proof { shown = shown.push("White, Queenside"@); }
            }
            assert(shown =~= before + right_phrase(mask, CastlingAvail::WhiteQueenside, "White, Queenside"@));
            let ghost before = shown;
            if self.has_right(CastlingAvail::BlackKingside) {
                push_phrase(&mut out, Ghost(shown), first, "Black, Kingside");
                first = false;
                proof { shown = shown.push("Black, Kingside"@); }
            }
            assert(shown =~= before + right_phrase(mask, CastlingAvail::BlackKingside, "Black, Kingside"@));
            let ghost before = shown;
            if self.has_right(CastlingAvail::BlackQueenside) {
                push_phrase(&mut out, Ghost(shown), first, "Black, Queenside");
                proof { shown = shown.push("Black, Queenside"@); }
            }
            assert(shown =~= before + right_phrase(mask, CastlingAvail::BlackQueenside, "Black, Queenside"@));
            assert(shown =~= castling_phrases(mask));
            assert(out@ == join_phrases(shown));
        } else {
            push_text(&mut out, "None");
        }
        assert(out@ =~= castling_text(self.castling_avail));
        string_from_chars(&out)
    }

    /// The report of this position, as described by `report_text`.
    pub fn render(&self) -> (r: String)
        ensures
            r@ == report_text(*self),
    {
        let mut out: Vec<char> = Vec::new();
        push_text(&mut out, "\n");
        push_text(&mut out, self.board.as_str());
        push_text(&mut out, "\n\nActive Player: ");
        push_text(&mut out, self.active_player.to_string().as_str());
        push_text(&mut out, "\nCastling Availability: ");
        push_text(&mut out, self.castling_to_str().as_str());
        push_text(&mut out, "\nEn Passant Target: ");
        if self.en_passant.rank == 0 && self.en_passant.file == '_' {
            push_text(&mut out, "No en passant possible.");
        } else {
            push_text(&mut out, self.en_passant.to_string().as_str());
        }
        push_text(&mut out, "\nHalfmoves Since Last Pawnpush or Capture: ");
        push_chars(&mut out, &decimal(self.halfmove_clock));
        push_text(&mut out, "\nNo. of Fullmoves: ");
        push_chars(&mut out, &decimal(self.fullmoves));
        assert(out@ =~= report_text(*self));
        string_from_chars(&out)
    }
}

/// Two positions decoded from the same FEN string have the same report, so
/// decoding and rendering a string twice gives the same text.
pub proof fn lemma_report_deterministic(fen: Seq<char>, a: ChessState, b: ChessState)
    requires
        parsed_from(a, fen),
        parsed_from(b, fen),
    ensures
        report_text(a) == report_text(b),
{
}

} // verus!
