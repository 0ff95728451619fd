//! FEN text: reading a position from it and writing one out.
use vstd::prelude::*;
use vstd::string::StrSliceExecFns;
use vstd::string::StringExecFns;
use crate::borad::Borad;
use crate::history::Moved;
use crate::pregen::{from_char, on_board, role_of_char, PieceAction};
use crate::borad::placement_ok;
use crate::rules::{in_check_of, valid_piece};
use crate::util::{coord_xy, file_of, rank_of};

verus! {

/// Upper-case letter of a lower-case ASCII letter.
pub open spec fn upper_of(c: char) -> char {
    ((c as int) - 32) as char
}

pub open spec fn is_digit_1_9(c: char) -> bool {
    '1' as int <= c as int <= '9' as int
}

pub open spec fn is_upper(c: char) -> bool {
    'A' as int <= c as int <= 'Z' as int
}

pub open spec fn is_lower(c: char) -> bool {
    'a' as int <= c as int <= 'z' as int
}

/// Reads the placement field of `fen` from character `i`, with the cursor on
/// file `x` of rank `y`, onto placement `s`. Ranks run from 3 (top) to 12,
/// files from 3 to 11; `/` starts the next rank, a digit skips that many
/// files, a letter places a piece (upper case red, lower case black) when the
/// cursor is still on the board. Returns the placement and the index where
/// the field ended: at a space, at the end of the text, or at a `/` that
/// would start a rank below the board.
pub open spec fn fen_scan(fen: Seq<char>, i: int, x: int, y: int, s: Seq<isize>) -> (Seq<
    isize,
>, int)
    decreases fen.len() - i,
{
    if i < 0 || i >= fen.len() || fen[i] == ' ' {
        (s, i)
    } else {
        let c = fen[i];
        if c == '/' {
            if y + 1 > 12 {
                (s, i)
            } else {
                fen_scan(fen, i + 1, 3, y + 1, s)
            }
        } else if is_digit_1_9(c) {
            fen_scan(
                fen,
                i + 1,
                if x <= 100 {
                    x + (c as int - '0' as int)
                } else {
                    x
                },
                y,
                s,
            )
        } else if is_upper(c) {
            if x <= 11 {
                let s2 = match role_of_char(c) {
                    Some(r) => s.update(x + y * 16, (r + 8) as isize),
                    None => s,
                };
                fen_scan(fen, i + 1, x + 1, y, s2)
            } else {
                fen_scan(fen, i + 1, x, y, s)
            }
        } else if is_lower(c) && x <= 11 {
            let s2 = match role_of_char(upper_of(c)) {
                Some(r) => s.update(x + y * 16, (r + 16) as isize),
                None => s,
            };
            fen_scan(fen, i + 1, x + 1, y, s2)
        } else {
            fen_scan(fen, i + 1, x, y, s)
        }
    }
}

/// The empty placement.
pub open spec fn empty_squares() -> Seq<isize> {
    Seq::new(256, |i: int| 0isize)
}

/// Placement that `fen` describes.
pub open spec fn fen_squares(fen: Seq<char>) -> Seq<isize> {
    fen_scan(fen, 0, 3, 3, empty_squares()).0
}

/// Side to move that `fen` names: black iff the character after the
/// placement field's end is `b`.
pub open spec fn fen_side(fen: Seq<char>) -> int {
    let e = fen_scan(fen, 0, 3, 3, empty_squares()).1;
    if e + 1 < fen.len() && fen[e + 1] == 'b' {
        1
    } else {
        0
    }
}

/// Squares not yet reached by a scan at file `x` of rank `y` are empty.
pub open spec fn ahead_empty(s: Seq<isize>, x: int, y: int) -> bool {
    forall|sq: int|
        #![trigger s[sq]]
        0 <= sq < 256 && (rank_of(sq) > y || (rank_of(sq) == y && file_of(sq) >= x)) ==> s[sq]
            == 0
}

/// FEN letter of a piece code: upper case for red, lower case for black.
pub open spec fn fen_char(pc: int) -> char {
    if pc == 8 {
        'K'
    } else if pc == 9 {
        'A'
    } else if pc == 10 {
        'B'
    } else if pc == 11 {
        'N'
    } else if pc == 12 {
        'R'
    } else if pc == 13 {
        'C'
    } else if pc == 14 {
        'P'
    } else if pc == 16 {
        'k'
    } else if pc == 17 {
        'a'
    } else if pc == 18 {
        'b'
    } else if pc == 19 {
        'n'
    } else if pc == 20 {
        'r'
    } else if pc == 21 {
        'c'
    } else if pc == 22 {
        'p'
    } else {
        ' '
    }
}

/// The digit for a count of 1 to 9 empty squares; nothing for 0.
pub open spec fn run_text(k: int) -> Seq<char> {
    if k == 0 {
        seq![]
    } else {
        seq![((k + '0' as int) as char)]
    }
}

/// Text of rank `y` from file `x` on, with `k` empty squares pending.
pub open spec fn row_text(s: Seq<isize>, y: int, x: int, k: int) -> Seq<char>
    decreases 12 - x,
{
    if x > 11 {
        run_text(k)
    } else if s[x + y * 16] > 0 {
        run_text(k) + seq![fen_char(s[x + y * 16] as int)] + row_text(s, y, x + 1, 0)
    } else {
        row_text(s, y, x + 1, k + 1)
    }
}

/// Text of ranks `y` to 12, separated by `/`.
pub open spec fn rows_text(s: Seq<isize>, y: int) -> Seq<char>
    decreases 12 - y,
{
    if y >= 12 {
        row_text(s, 12, 3, 0)
    } else {
        row_text(s, y, 3, 0) + seq!['/'] + rows_text(s, y + 1)
    }
}

/// FEN text of a placement with side `sd` to move.
pub open spec fn board_fen(s: Seq<isize>, sd: int) -> Seq<char> {
    rows_text(s, 3) + if sd == 0 {
        seq![' ', 'w']
    } else {
        seq![' ', 'b']
    }
}

/// What follows rank `y` in `rows_text`.
pub open spec fn rows_after(s: Seq<isize>, y: int) -> Seq<char> {
    if y >= 12 {
        seq![]
    } else {
        seq!['/'] + rows_text(s, y + 1)
    }
}

fn digit_text(k: isize) -> (r: &'static str)
    requires
        1 <= k <= 9,
    ensures
        r@ == run_text(k as int),
{
    proof {
        reveal_strlit("1");
        reveal_strlit("2");
        reveal_strlit("3");
        reveal_strlit("4");
        reveal_strlit("5");
        reveal_strlit("6");
        reveal_strlit("7");
        reveal_strlit("8");
        reveal_strlit("9");
    }
    let r = if k == 1 {
        "1"
    } else if k == 2 {
        "2"
    } else if k == 3 {
        "3"
    } else if k == 4 {
        "4"
    } else if k == 5 {
        "5"
    } else if k == 6 {
        "6"
    } else if k == 7 {
        "7"
    } else if k == 8 {
        "8"
    } else {
        "9"
    };
    assert(r@ =~= run_text(k as int));
    r
}

fn piece_text(pc: isize) -> (r: &'static str)
    requires
        (8 <= pc <= 14) || (16 <= pc <= 22),
    ensures
        r@ == seq![fen_char(pc as int)],
{
    proof {
        reveal_strlit("K");
        reveal_strlit("A");
        reveal_strlit("B");
        reveal_strlit("N");
        reveal_strlit("R");
        reveal_strlit("C");
        reveal_strlit("P");
        reveal_strlit("k");
        reveal_strlit("a");
        reveal_strlit("b");
        reveal_strlit("n");
        reveal_strlit("r");
        reveal_strlit("c");
        reveal_strlit("p");
    }
    let r = if pc == 8 {
        "K"
    } else if pc == 9 {
        "A"
    } else if pc == 10 {
        "B"
    } else if pc == 11 {
        "N"
    } else if pc == 12 {
        "R"
    } else if pc == 13 {
        "C"
    } else if pc == 14 {
        "P"
    } else if pc == 16 {
        "k"
    } else if pc == 17 {
        "a"
    } else if pc == 18 {
        "b"
    } else if pc == 19 {
        "n"
    } else if pc == 20 {
        "r"
    } else if pc == 21 {
        "c"
    } else {
        "p"
    };
    assert(r@ =~= seq![fen_char(pc as int)]);
    r
}

/// `st` with the pieces of `s` on rank `y`, files `x` to 11, put in.
pub open spec fn fill_row(st: Seq<isize>, s: Seq<isize>, y: int, x: int) -> Seq<isize> {
    Seq::new(
        256,
        |j: int|
            if rank_of(j) == y && x <= file_of(j) <= 11 && s[j] != 0 {
                s[j]
            } else {
                st[j]
            },
    )
}

/// The pieces of `s` on the ranks above `y`.
pub open spec fn ranks_above(s: Seq<isize>, y: int) -> Seq<isize> {
    Seq::new(256, |j: int| if rank_of(j) < y { s[j] } else { 0 })
}

/// Scanning the text of rank `y` from file `x` (with `k` empty squares
/// pending) puts that rank's pieces in and ends at file 12.
#[verifier::rlimit(30)]
proof fn lemma_row_scan(t: Seq<char>, i: int, s: Seq<isize>, y: int, x: int, k: int, st: Seq<isize>)
    requires
        3 <= y <= 12,
        3 <= x <= 12,
        0 <= k <= x - 3,
        0 <= i,
        i + row_text(s, y, x, k).len() <= t.len(),
        t.subrange(i, i + row_text(s, y, x, k).len()) == row_text(s, y, x, k),
        placement_ok(s),
        st.len() == 256,
    ensures
        fen_scan(t, i, x - k, y, st) == fen_scan(
            t,
            i + row_text(s, y, x, k).len(),
            12,
            y,
            fill_row(st, s, y, x),
        ),
    decreases 12 - x,
{
    let rt = row_text(s, y, x, k);
    if x > 11 {
        assert(fill_row(st, s, y, x) =~= st);
        if k > 0 {
            assert(t[i] == rt[0]);
        }
    } else {
        let sq = x + y * 16;
        assert(file_of(sq) == x && rank_of(sq) == y);
        assert(valid_piece(s[sq] as int));
        if s[sq] > 0 {
            let pc = s[sq] as int;
            let rest = row_text(s, y, x + 1, 0);
            let lead = run_text(k);
            assert(rt == lead + seq![fen_char(pc)] + rest);
            let j = i + lead.len();
            if k > 0 {
                assert(t[i] == rt[0]);
            }
            assert(t[j] == rt[lead.len() as int]);
            assert(t[j] == fen_char(pc));
            let st2 = st.update(sq, pc as isize);
            assert(t.subrange(j + 1, j + 1 + rest.len()) =~= rest) by {
                assert forall|m: int| 0 <= m < rest.len() implies t.subrange(j + 1, j + 1 + rest.len())[m] == rest[m] by {
                    assert(t[j + 1 + m] == t.subrange(i, i + rt.len())[lead.len() + 1 + m]);
                }
            }
            lemma_row_scan(t, j + 1, s, y, x + 1, 0, st2);
            assert(fill_row(st2, s, y, x + 1) =~= fill_row(st, s, y, x));
            if k > 0 {
                assert(fen_scan(t, i, x - k, y, st) == fen_scan(t, i + 1, x, y, st));
            }
            assert(fen_scan(t, j, x, y, st) == fen_scan(t, j + 1, x + 1, y, st2));
        } else {
            assert(rt == row_text(s, y, x + 1, k + 1));
            lemma_row_scan(t, i, s, y, x + 1, k + 1, st);
            assert(fill_row(st, s, y, x + 1) =~= fill_row(st, s, y, x));
        }
    }
}

/// Scanning the text of ranks `y` to 12, with the ranks above already in,
/// gives the whole placement and stops at the space after it.
#[verifier::rlimit(30)]
proof fn lemma_rows_scan(t: Seq<char>, i: int, s: Seq<isize>, y: int)
    requires
        3 <= y <= 12,
        0 <= i,
        i + rows_text(s, y).len() < t.len(),
        t.subrange(i, i + rows_text(s, y).len()) == rows_text(s, y),
        t[i + rows_text(s, y).len()] == ' ',
        placement_ok(s),
    ensures
        fen_scan(t, i, 3, y, ranks_above(s, y)) == (s, i + rows_text(s, y).len()),
    decreases 12 - y,
{
    let rt = row_text(s, y, 3, 0);
    let all = rows_text(s, y);
    assert(t.subrange(i, i + rt.len()) =~= rt) by {
        assert forall|m: int| 0 <= m < rt.len() implies t.subrange(i, i + rt.len())[m] == rt[m] by {
            assert(t[i + m] == t.subrange(i, i + all.len())[m]);
        }
    }
    lemma_row_scan(t, i, s, y, 3, 0, ranks_above(s, y));
    let filled = fill_row(ranks_above(s, y), s, y, 3);
    if y >= 12 {
        assert(filled =~= s) by {
            assert forall|j: int| 0 <= j < 256 implies filled[j] == s[j] by {
                if !on_board(j) {
                    assert(s[j] == 0);
                }
            }
        }
    } else {
        let rest = rows_text(s, y + 1);
        assert(all == rt + seq!['/'] + rest);
        assert(t[i + rt.len()] == all[rt.len() as int]);
        assert(filled =~= ranks_above(s, y + 1)) by {
            assert forall|j: int| 0 <= j < 256 implies filled[j] == ranks_above(s, y + 1)[j] by {
                if !on_board(j) {
                    assert(s[j] == 0);
                }
            }
        }
        let k = i + rt.len() + 1;
        assert(t.subrange(k, k + rest.len()) =~= rest) by {
            assert forall|m: int| 0 <= m < rest.len() implies t.subrange(k, k + rest.len())[m] == rest[m] by {
                assert(t[k + m] == t.subrange(i, i + all.len())[rt.len() + 1 + m]);
            }
        }
        lemma_rows_scan(t, k, s, y + 1);
    }
}

/// Reading the FEN text that `to_fen` writes for a placement gives that
/// placement back, and the side to move it names.
pub proof fn lemma_fen_round_trip(s: Seq<isize>, sd: int)
    requires
        placement_ok(s),
        0 <= sd <= 1,
    ensures
        fen_squares(board_fen(s, sd)) == s,
        fen_side(board_fen(s, sd)) == sd,
{
    let t = board_fen(s, sd);
    let rows = rows_text(s, 3);
    assert(t.subrange(0, rows.len() as int) =~= rows);
    assert(t[rows.len() as int] == ' ');
    assert(ranks_above(s, 3) =~= empty_squares()) by {
        assert forall|j: int| 0 <= j < 256 implies ranks_above(s, 3)[j] == empty_squares()[j] by {
            if rank_of(j) < 3 {
                assert(!on_board(j));
            }
        }
    }
    lemma_rows_scan(t, 0, s, 3);
}

impl Borad {
    /// Loads the position of a FEN text: placement and side to move; the
    /// stack becomes the sentinel, noting whether that side is in check.
    #[verifier::rlimit(30)]
    pub fn from_fen(&mut self, fen: &str)
        requires
            old(self).wf(),
        ensures
            final(self).wf(),
            final(self).squares@ == fen_squares(fen@),
            final(self).sd_player == fen_side(fen@),
            final(self).tables == old(self).tables,
            final(self).distance == 0,
            final(self).moves@ == seq![
                Moved {
                    mv: 0,
                    zobrist_key: 0,
                    capture_piece: 0,
                    checked: in_check_of(fen_squares(fen@), fen_side(fen@)),
                },
            ],
    {
        self.clearboard();
        proof {
            assert(self.squares@ =~= empty_squares());
        }
        let len = fen.unicode_len();
        let mut x: isize = 3;
        let mut y: isize = 3;
        let mut index: usize = 0;
        let ghost target = fen_scan(fen@, 0, 3, 3, empty_squares());
        while index < len && fen.get_char(index) != ' '
            invariant
                self.wf(),
                self.sd_player == 0,
                len == fen@.len(),
                index <= len,
                3 <= x <= 109,
                3 <= y <= 12,
                ahead_empty(self.squares@, x as int, y as int),
                fen_scan(fen@, index as int, x as int, y as int, self.squares@) == target,
                target == fen_scan(fen@, 0, 3, 3, empty_squares()),
                self.distance == old(self).distance,
                self.tables == old(self).tables,
            ensures
                self.tables == old(self).tables,
                self.wf(),
                self.sd_player == 0,
                self.distance == old(self).distance,
                index <= len,
                len == fen@.len(),
                target == fen_scan(fen@, 0, 3, 3, empty_squares()),
                target.0 == self.squares@,
                target.1 == index as int,
            decreases len - index,
        {
            let c = fen.get_char(index);
            let cu = c as u32;
            if c == '/' {
                if y + 1 > 12 {
                    break;
                }
                x = 3;
                y = y + 1;
            } else if cu >= '1' as u32 && cu <= '9' as u32 {
                if x <= 100 {
                    x = x + (cu - '0' as u32) as isize;
                }
            } else if cu >= 'A' as u32 && cu <= 'Z' as u32 {
                if x <= 11 {
                    if let Some(pt) = from_char(c) {
                        let sq = coord_xy(x, y);
                        self.add_piece(sq, pt + 8, PieceAction::ADD);
                    }
                    x = x + 1;
                }
            } else if cu >= 'a' as u32 && cu <= 'z' as u32 && x <= 11 {
                let up = ((cu - 32) as u8) as char;
                if let Some(pt) = from_char(up) {
                    let sq = coord_xy(x, y);
                    self.add_piece(sq, pt + 16, PieceAction::ADD);
                }
                x = x + 1;
            }
            index = index + 1;
        }
        if len > 0 && index < len - 1 && fen.get_char(index + 1) == 'b' {
            self.change_side();
        }
        self.set_irrev();
    }

    /// FEN text of the position: the placement field and the side to move.
    #[verifier::rlimit(30)]
    pub fn to_fen(&self) -> (r: String)
        requires
            self.wf(),
        ensures
            r@ == board_fen(self.squares@, self.sd_player as int),
    {
        let ghost sq = self.squares@;
        let mut fen = String::new();
        let mut y: isize = 3;
        while y <= 12
            invariant
                self.wf(),
                sq == self.squares@,
                3 <= y <= 13,
                y <= 12 ==> fen@ + rows_text(sq, y as int) == rows_text(sq, 3),
                y == 13 ==> fen@ == rows_text(sq, 3),
            decreases 13 - y,
        {
            let ghost start = fen@;
            let mut k: isize = 0;
            let mut x: isize = 3;
            while x <= 11
                invariant
                    self.wf(),
                    sq == self.squares@,
                    3 <= y <= 12,
                    3 <= x <= 12,
                    0 <= k <= x - 3,
                    start + rows_text(sq, y as int) == rows_text(sq, 3),
                    fen@ + row_text(sq, y as int, x as int, k as int) == start + row_text(
                        sq,
                        y as int,
                        3,
                        0,
                    ),
                decreases 12 - x,
            {
                let pc = self.squares[coord_xy(x, y) as usize];
                assert(valid_piece(sq[x + y * 16] as int));
                if pc > 0 {
                    let ghost before = fen@;
                    if k > 0 {
                        fen.append(digit_text(k));
                    }
                    fen.append(piece_text(pc));
                    proof {
                        assert(fen@ =~= before + run_text(k as int) + seq![fen_char(pc as int)]);
                        assert(fen@ + row_text(sq, y as int, x + 1, 0) =~= before + row_text(
                            sq,
                            y as int,
                            x as int,
                            k as int,
                        ));
                    }
                    k = 0;
                } else {
                    k = k + 1;
                }
                x = x + 1;
            }
            let ghost before = fen@;
            if k > 0 {
                fen.append(digit_text(k));
            }
            proof {
                assert(fen@ =~= before + row_text(sq, y as int, x as int, k as int));
            }
            if y < 12 {
                proof {
                    reveal_strlit("/");
                }
                let ghost b2 = fen@;
                fen.append("/");
                proof {
                    assert(fen@ =~= b2 + seq!['/']);
                    assert(rows_text(sq, y as int) =~= row_text(sq, y as int, 3, 0) + seq!['/']
                        + rows_text(sq, y + 1));
                    assert(fen@ + rows_text(sq, y + 1) =~= start + rows_text(sq, y as int));
                }
            } else {
                proof {
                    assert(fen@ =~= start + rows_text(sq, y as int));
                }
            }
            y = y + 1;
        }
        proof {
            reveal_strlit(" w");
            reveal_strlit(" b");
        }
        if self.sd_player == 0 {
            fen.append(" w");
        } else {
            fen.append(" b");
        }
        proof {
            assert(fen@ =~= board_fen(sq, self.sd_player as int));
        }
        fen
    }
}

} // verus!
