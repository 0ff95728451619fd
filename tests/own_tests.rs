use xqengine::book::{pick_weighted, Book};
use xqengine::engine::Engine;
use xqengine::pregen::{Winner, HASH_PV, MATE_VALUE};
use xqengine::position::{cord2uint8, iccs2move, move2iccs};
use xqengine::shell::sort;
use xqengine::util::{mirror_move, unsigned_right_shift};

const START: &str = "rnbakabnr/9/1c5c1/p1p1p1p1p/9/9/P1P1P1P1P/1C5C1/9/RNBAKABNR w - - 0 1";
const PUZZLE: &str = "9/2Cca4/3k1C3/4P1p2/4N1b2/4R1r2/4c1n2/3p1n3/2rNK4/9 w";

fn engine_at(fen: &str) -> Engine {
    let mut engine = Engine::with_seed(7);
    engine.from_fen(fen);
    engine
}

#[test]
fn make_then_undo_restores_every_move() {
    for fen in [START, PUZZLE] {
        let mut engine = engine_at(fen);
        let key = engine.board.zobrist_key;
        let lock = engine.board.zobrist_lock;
        let (red, black) = (engine.board.vl_white, engine.board.vl_black);
        let (mvs, _) = engine.generate_mvs(None);
        for mv in mvs {
            if engine.make_move(mv) {
                engine.undo_make_move();
            }
            assert_eq!(engine.to_fen(), fen.split(' ').take(2).collect::<Vec<_>>().join(" "));
            assert_eq!(engine.board.zobrist_key, key);
            assert_eq!(engine.board.zobrist_lock, lock);
            assert_eq!((engine.board.vl_white, engine.board.vl_black), (red, black));
            assert_eq!(engine.board.distance, 0);
            assert_eq!(engine.board.moves.len(), 1);
        }
    }
}

#[test]
fn nested_moves_undone_in_reverse_restore() {
    let mut engine = engine_at(START);
    let before = engine.to_fen();
    let key = engine.board.zobrist_key;
    let mut made = 0;
    for _ in 0..6 {
        let (mvs, _) = engine.generate_mvs(None);
        let mv = *mvs.iter().find(|m| engine.legal_move(**m)).unwrap();
        assert!(engine.make_move(mv));
        made += 1;
    }
    assert_ne!(engine.to_fen(), before);
    for _ in 0..made {
        engine.undo_make_move();
    }
    assert_eq!(engine.to_fen(), before);
    assert_eq!(engine.board.zobrist_key, key);
}

#[test]
fn hash_after_moves_matches_fresh_load() {
    let mut engine = engine_at(START);
    for text in ["h2e2", "h9g7", "h0g2", "i9h9"] {
        assert!(engine.make_move(iccs2move(text)));
        let fresh = engine_at(&engine.to_fen());
        assert_eq!(engine.board.zobrist_key, fresh.board.zobrist_key);
        assert_eq!(engine.board.zobrist_lock, fresh.board.zobrist_lock);
        assert_eq!(engine.board.vl_white, fresh.board.vl_white);
        assert_eq!(engine.board.vl_black, fresh.board.vl_black);
    }
}

#[test]
fn evaluation_differs_from_draw_score() {
    for fen in [START, PUZZLE, "4k4/9/9/9/9/9/9/9/9/4K4 w", "4k4/9/9/9/9/9/9/9/9/4K4 b"] {
        let mut engine = engine_at(fen);
        assert_ne!(engine.evaluate(), engine.draw_value());
        engine.null_move();
        assert_ne!(engine.evaluate(), engine.draw_value());
    }
}

#[test]
fn start_position_scores() {
    let engine = engine_at(START);
    assert_eq!(engine.board.vl_white, engine.board.vl_black);
    assert_eq!(engine.evaluate(), 3);
    assert_eq!(engine.board.vl_white, 888);
}

#[test]
fn generated_moves_are_exactly_the_pseudo_legal_ones() {
    for fen in [START, PUZZLE] {
        let engine = engine_at(fen);
        let (mvs, vls) = engine.generate_mvs(None);
        assert!(vls.is_empty());
        let mut legal = Vec::new();
        for mv in 0..65536 {
            if engine.legal_move(mv) {
                legal.push(mv);
            }
        }
        let mut sorted = mvs.clone();
        sorted.sort();
        assert_eq!(sorted, legal);
    }
}

#[test]
fn capture_generation_scores() {
    let engine = engine_at(PUZZLE);
    let (mvs, vls) = engine.generate_mvs(Some(Vec::new()));
    assert_eq!(mvs.len(), vls.len());
    assert!(!mvs.is_empty());
    for (mv, vl) in mvs.iter().zip(vls.iter()) {
        assert!(engine.legal_move(*mv));
        let victim = engine.board.squares[(*mv / 256) as usize];
        assert!(victim >= 16);
    }
    // the rook on e4 takes the rook on g4: victim 40, attacker 4
    let rxr = iccs2move("e4g4");
    let i = mvs.iter().position(|m| *m == rxr).unwrap();
    assert_eq!(vls[i], 36);
}

#[test]
fn fen_round_trip() {
    for fen in [
        START,
        PUZZLE,
        "RKBAKABR1/9/1C2C1K2/P1P1P3P/6P2/9/p1p1p1p1p/1c4k1c/9/rkbakabr1 b",
        "4kab2/4a4/8b/9/9/9/9/9/9/4K1R2 w",
    ] {
        let engine = engine_at(fen);
        let canonical: Vec<&str> = fen.split(' ').take(2).collect();
        assert_eq!(engine.to_fen(), canonical.join(" "));
    }
}

#[test]
fn empty_fen_gives_empty_board() {
    let engine = engine_at("");
    assert_eq!(engine.to_fen(), "9/9/9/9/9/9/9/9/9/9 w");
    assert_eq!(engine.board.zobrist_key, 0);
    assert_eq!(engine.board.zobrist_lock, 0);
}

#[test]
fn generation_is_deterministic() {
    let a = engine_at(PUZZLE);
    let b = engine_at(PUZZLE);
    assert_eq!(a.generate_mvs(None), a.generate_mvs(None));
    assert_eq!(a.generate_mvs(None), b.generate_mvs(None));
    assert_eq!(a.generate_mvs(Some(Vec::new())), b.generate_mvs(Some(vec![1, 2, 3])));
}

#[test]
fn score_formulas() {
    let mut engine = engine_at(START);
    assert_eq!(engine.mate_value(), -10000);
    assert_eq!(engine.ban_value(), -9900);
    assert_eq!(engine.draw_value(), -20);
    engine.null_move();
    assert_eq!(engine.mate_value(), -9999);
    assert_eq!(engine.draw_value(), 20);
    assert_eq!(engine.rep_value(1), 20);
    assert_eq!(engine.rep_value(3), -9899);
    assert_eq!(engine.rep_value(5), 9899);
    assert_eq!(engine.rep_value(7), 20);
    engine.undo_null_move();
    assert_eq!(engine.rep_value(3), -9900);
}

#[test]
fn repetition_is_detected() {
    let mut engine = engine_at(START);
    assert_eq!(engine.rep_status(1), 0);
    for text in ["h0g2", "h9g7", "g2h0", "g7h9"] {
        assert!(engine.make_move(iccs2move(text)));
    }
    assert_eq!(engine.rep_status(1), 1 + 2 + 4 - 6);
    assert_eq!(engine.rep_status(1) & 1, 1);
    assert_eq!(engine.rep_status(3), 0);
    assert!(!engine.captured());
    assert!(!engine.in_check());
}

#[test]
fn null_move_round_trip() {
    let mut engine = engine_at(PUZZLE);
    let key = engine.board.zobrist_key;
    engine.null_move();
    assert_eq!(engine.board.sd_player, 1);
    assert_ne!(engine.board.zobrist_key, key);
    engine.undo_null_move();
    assert_eq!(engine.board.zobrist_key, key);
    assert_eq!(engine.board.sd_player, 0);
}

#[test]
fn winner_cases() {
    let mut start = engine_at(START);
    assert_eq!(start.winner(), None);
    assert!(!start.has_mate());
    let mut bare = engine_at("4k4/9/9/9/9/9/9/9/9/4K4 w");
    assert_eq!(bare.winner(), Some(Winner::Draw));
    let mut mated = engine_at("3k5/9/9/9/9/9/9/9/3R5/3RK4 b");
    assert!(mated.has_mate());
    assert_eq!(mated.winner(), Some(Winner::Red));
    let mut no_king = engine_at("9/9/9/9/9/9/9/9/4R4/4K4 b");
    assert_eq!(no_king.winner(), Some(Winner::Red));
}

#[test]
fn check_detection() {
    let engine = engine_at("4k4/9/9/9/9/9/9/9/9/4K4 w");
    assert!(engine.checked());
    let engine = engine_at("4k4/9/9/9/9/9/9/9/4R4/3K5 b");
    assert!(engine.checked());
    let engine = engine_at("4k4/9/4p4/9/9/9/9/9/4C4/3K5 b");
    assert!(engine.checked());
    let engine = engine_at("4k4/9/9/9/9/9/9/9/4C4/3K5 b");
    assert!(!engine.checked());
}

#[test]
fn book_search_and_pick() {
    let book = Book { data: vec![[1, 10, 1], [5, 20, 1], [5, 21, 1], [9, 30, 1]] };
    assert_eq!(book.search(9), Some(3));
    assert!(matches!(book.search(5), Some(1) | Some(2)));
    assert_eq!(book.search(4), None);
    let mvs = vec![100, 200, 300];
    let vls = vec![2, 3, 5];
    assert_eq!(pick_weighted(&mvs, &vls, 0), 100);
    assert_eq!(pick_weighted(&mvs, &vls, 1), 100);
    assert_eq!(pick_weighted(&mvs, &vls, 2), 200);
    assert_eq!(pick_weighted(&mvs, &vls, 4), 200);
    assert_eq!(pick_weighted(&mvs, &vls, 5), 300);
    assert_eq!(pick_weighted(&mvs, &vls, 9), 300);
    assert_eq!(pick_weighted(&mvs, &vls, 10), 0);
}

#[test]
fn book_move_single_entry_and_mirror() {
    let mut engine = engine_at(START);
    let lock = unsigned_right_shift(engine.board.zobrist_lock as i64, 1) as i32;
    let mv = iccs2move("b2e2");
    assert!(engine.set_book(Book { data: vec![[lock, mv as i32, 4]] }));
    for _ in 0..10 {
        assert_eq!(engine.book_move(), mv);
    }
    assert!(!engine.set_book(Book { data: vec![[3, 1, 1], [2, 1, 1]] }));
    // a position found only mirrored: the book move is mirrored back
    let mut other = engine_at("rnbakabnr/9/1c5c1/p1p1p1p1p/9/9/P1P1P1P1P/1C2C4/9/RNBAKABNR b");
    let mirrored = other.board.mirror();
    let mlock = unsigned_right_shift(mirrored.zobrist_lock as i64, 1) as i32;
    let reply = iccs2move("h7e7");
    assert!(other.set_book(Book { data: vec![[mlock, reply as i32, 1]] }));
    assert_eq!(other.book_move(), mirror_move(reply));
}

#[test]
fn seeded_engines_repeat_their_book_choices() {
    let lock;
    {
        let engine = engine_at(START);
        lock = unsigned_right_shift(engine.board.zobrist_lock as i64, 1) as i32;
    }
    let data = vec![
        [lock, iccs2move("h2e2") as i32, 5],
        [lock, iccs2move("b2e2") as i32, 2],
        [lock, iccs2move("h0g2") as i32, 3],
    ];
    let mut a = Engine::with_seed(42);
    let mut b = Engine::with_seed(42);
    a.from_fen(START);
    b.from_fen(START);
    assert!(a.set_book(Book { data: data.clone() }));
    assert!(b.set_book(Book { data }));
    let picks_a: Vec<isize> = (0..20).map(|_| a.book_move()).collect();
    let picks_b: Vec<isize> = (0..20).map(|_| b.book_move()).collect();
    assert_eq!(picks_a, picks_b);
    assert!(picks_a.iter().all(|m| *m != 0));
}

#[test]
fn transposition_table_round_trip() {
    let mut engine = engine_at(PUZZLE);
    engine.search_main(1, 0);
    let mv = iccs2move("e4g4");
    engine.record_hash(HASH_PV, 123, 5, mv);
    let mut out = 0;
    assert_eq!(engine.probe_hash(-MATE_VALUE, MATE_VALUE, 5, &mut out), 123);
    assert_eq!(out, mv);
    assert_eq!(engine.probe_hash(-MATE_VALUE, MATE_VALUE, 6, &mut out), -MATE_VALUE);
    // a mate score is stored relative to the node and comes back unchanged
    engine.board.distance = 3;
    engine.record_hash(HASH_PV, 9990, 7, mv);
    assert_eq!(engine.probe_hash(-MATE_VALUE, MATE_VALUE, 1, &mut out), 9990);
    engine.board.distance = 0;
    assert_eq!(engine.probe_hash(-MATE_VALUE, MATE_VALUE, 1, &mut out), 9993);
}

#[test]
fn best_move_updates_history_and_killers() {
    let mut engine = engine_at(PUZZLE);
    engine.search_main(1, 0);
    let mv = iccs2move("e4g4");
    let idx = engine.history_index(mv) as usize;
    let before = engine.history[idx];
    engine.set_best_move(mv, 3);
    assert_eq!(engine.history[idx], before + 9);
    assert_eq!(engine.killer_table[0][0], mv);
    let other = iccs2move("e5e6");
    engine.set_best_move(other, 2);
    assert_eq!(engine.killer_table[0], [other, mv]);
}

#[test]
fn search_returns_legal_move_quickly() {
    let mut engine = engine_at(START);
    let mv = engine.search_main(3, 100);
    assert!(engine.legal_move(mv));
    assert_eq!(engine.to_fen(), "rnbakabnr/9/1c5c1/p1p1p1p1p/9/9/P1P1P1P1P/1C5C1/9/RNBAKABNR w");
}

#[test]
fn codec_edges() {
    assert_eq!(cord2uint8("a9"), 0x33);
    assert_eq!(cord2uint8("i0"), 0xcb);
    assert_eq!(iccs2move("H2E2"), iccs2move("h2e2"));
    assert_eq!(move2iccs(iccs2move("a0i9")), "a0i9");
    assert_eq!(unsigned_right_shift(-1, 1), 0x7fff_ffff);
    assert_eq!(unsigned_right_shift(-1, 17), 0x7fff_ffff);
    assert_eq!(mirror_move(iccs2move("b0c2")), iccs2move("h0g2"));
}

#[test]
fn sort_orders_and_keeps_pairs() {
    let mut mvs = vec![1, 2, 3, 4, 5, 6];
    let mut vls = vec![5, -1, 7, 7, 0, 100];
    sort(&mut mvs, &mut vls);
    assert_eq!(vls, vec![100, 7, 7, 5, 0, -1]);
    assert_eq!(mvs[0], 6);
    assert_eq!(mvs[3], 1);
    assert_eq!(mvs[5], 2);
    let mut empty_m: Vec<isize> = vec![];
    let mut empty_v: Vec<isize> = vec![];
    sort(&mut empty_m, &mut empty_v);
    assert!(empty_m.is_empty());
}
