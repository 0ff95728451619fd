use rand::Rng;
use xqengine::position::{iccs2move, move2iccs, move2pos, pos2iccs};
use xqengine::shell::sort;
use xqengine::util::unsigned_right_shift;

#[test]
fn position_test_move2pos() {
    let ((src_row, src_col), (dst_row, dst_col)) = move2pos(34726);
    assert_eq!(src_row, 2);
    assert_eq!(src_col, 3);
    assert_eq!(dst_row, 4);
    assert_eq!(dst_col, 4);
}

#[test]
fn position_test_pos2iccs() {
    let src_row = 2;
    let src_col = 3;
    let dst_row = 4;
    let dst_col = 4;
    assert_eq!(pos2iccs(src_row, src_col, dst_row, dst_col), "d2e4")
}

#[test]
fn position_test_move2iccs() {
    let t = move2iccs(22375);
    assert_eq!(t, "e6e7");
}

#[test]
fn position_test_iccs2move() {
    let t = iccs2move("d2e4");
    assert_eq!(t, 34726)
}

#[test]
fn position_test_iccs_moves() {
    let mvs = vec!["g3g4", "g6g5", "b0c2", "h7h0", "e3e4", "d9e8", "e1e2", "c6c5"];
    for mv in mvs {
        assert_eq!(move2iccs(iccs2move(mv)), mv)
    }
}

#[test]
fn test_unsigned_right_shift() {
    let t = unsigned_right_shift(50343, 30);
    assert_eq!(t, 3);
}

#[test]
fn util_test_move2pos() {
    let ((src_row, src_col), (dst_row, dst_col)) = move2pos(34726);
    assert_eq!(src_row, 2);
    assert_eq!(src_col, 3);
    assert_eq!(dst_row, 4);
    assert_eq!(dst_col, 4);
}

#[test]
fn util_test_pos2iccs() {
    let src_row = 2;
    let src_col = 3;
    let dst_row = 4;
    let dst_col = 4;
    assert_eq!(pos2iccs(src_row, src_col, dst_row, dst_col), "d2e4")
}

#[test]
fn util_test_move2iccs() {
    let t = move2iccs(22375);
    assert_eq!(t, "e6e7");
}

#[test]
fn util_test_iccs2move() {
    let t = iccs2move("d2e4");
    assert_eq!(t, 34726)
}

#[test]
fn util_test_iccs_moves() {
    let mvs = vec!["g3g4", "g6g5", "b0c2", "h7h0", "e3e4", "d9e8", "e1e2", "c6c5"];
    for mv in mvs {
        assert_eq!(move2iccs(iccs2move(mv)), mv)
    }
}

#[test]
fn test_shell_sort() {
    let mut mvs = vec![22599, 34697, 30615, 34713, 46758, 34728, 46760, 13749, 46773];
    let mut vls = vec![29, 36, 26, 39, 28, 39, 29, 26, 26];
    sort(&mut mvs, &mut vls);
    let exp_mvs = [34728, 34713, 34697, 22599, 46760, 46758, 30615, 13749, 46773];
    let exp_vls = [39, 39, 36, 29, 29, 28, 26, 26, 26];
    for i in 0..9 {
        assert_eq!(exp_mvs[i], mvs[i]);
        assert_eq!(exp_vls[i], vls[i]);
    }
}

#[test]
fn test_shell_sort_random() {
    let mut rng = rand::rng();
    let mut mvs: Vec<isize> = (0..1000).map(|_| rng.random_range(0..1000) as isize).collect();
    let mut vls = mvs.clone();

    sort(&mut mvs, &mut vls);

    for i in 0..vls.len().saturating_sub(1) {
        assert!(
            vls[i] >= vls[i + 1],
            "Values not in descending order at positions {} and {}: {} vs {}",
            i,
            i + 1,
            vls[i],
            vls[i + 1]
        );
        assert_eq!(
            mvs[i], vls[i],
            "Mismatch between mvs and vls at position {}: {} vs {}",
            i, mvs[i], vls[i]
        );
    }
}
