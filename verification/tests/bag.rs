use sketris::bag::Bag;
use sketris::shape::{get_offset, Kind, Position};

fn shape_code(k: Kind) -> usize {
    match k {
        Kind::I => 0,
        Kind::L => 1,
        Kind::J => 2,
        Kind::S => 3,
        Kind::Z => 4,
        Kind::O => 5,
        Kind::T => 6,
    }
}

#[test]
fn each_fill_deals_every_shape_once() {
    let mut bag = Bag::new();
    for _fill in 0..5 {
        let mut seen = [false; 7];
        for _ in 0..7 {
            let piece = bag.piece_owned().expect("the bag never runs dry");
            let code = shape_code(piece.shape);
            assert!(!seen[code], "a shape came twice in one fill");
            seen[code] = true;
            assert_eq!(piece.origin, Position::new(4, -1));
            assert_eq!(piece.orientation_idx, 0);
            assert_eq!(piece.offsets, get_offset(piece.shape, 0));
        }
        assert!(seen.iter().all(|s| *s));
    }
}

#[test]
fn refilled_bag_keeps_dealing() {
    let mut bag = Bag::new();
    bag.fill();
    for _ in 0..30 {
        assert!(bag.piece_owned().is_some());
    }
}

#[test]
fn fills_are_shuffled() {
    let mut bag = Bag::new();
    let table_order = [Kind::I, Kind::L, Kind::J, Kind::S, Kind::Z, Kind::O, Kind::T];
    let mut some_fill_reordered = false;
    for _fill in 0..20 {
        let mut dealt = Vec::new();
        for _ in 0..7 {
            dealt.push(bag.piece_owned().unwrap().shape);
        }
        if dealt != table_order {
            some_fill_reordered = true;
        }
    }
    assert!(some_fill_reordered);
}

#[test]
fn bag_from_order_deals_in_that_order() {
    let order = [Kind::T, Kind::O, Kind::Z, Kind::S, Kind::J, Kind::L, Kind::I];
    let mut bag = Bag::from_order(order);
    for k in order.iter() {
        assert_eq!(bag.piece_owned().unwrap().shape, *k);
    }
    // Then a new fill: again every shape once.
    let mut seen = [false; 7];
    for _ in 0..7 {
        seen[shape_code(bag.piece_owned().unwrap().shape)] = true;
    }
    assert!(seen.iter().all(|s| *s));
}
