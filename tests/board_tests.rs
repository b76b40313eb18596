use gameboard::events::{BoardEvent, CollisionEvent};
use gameboard::gameboard::Gameboard;
use gameboard::geometry::{Area, Offset, SizeRequest, UNITS_PER_PIXEL};
use gameboard::layout::GameboardSize;
use gameboard::ratio::AspectRatio;
use gameboard::sprite::{overlaps, Sprite, SpriteAction, SpriteState};

fn px(v: i64) -> i64 {
    v * UNITS_PER_PIXEL
}

fn square(id: &str, x: i64, y: i64, side: i64) -> Sprite {
    Sprite::new(id, (side, side), (Offset::Static(x), Offset::Static(y)))
}

fn ids(board: &Gameboard) -> Vec<String> {
    board.sprite_ids()
}

#[test]
fn overlapping_boxes_collide() {
    let a = Area { offset: (0, 0), size: (10, 10) };
    let b = Area { offset: (5, 5), size: (10, 10) };
    assert!(overlaps(&a, &b));
    assert!(overlaps(&b, &a));
}

#[test]
fn touching_boxes_do_not_collide() {
    let a = Area { offset: (0, 0), size: (10, 10) };
    let b = Area { offset: (10, 0), size: (10, 10) };
    assert!(!overlaps(&a, &b));
    assert!(!overlaps(&b, &a));
}

#[test]
fn scan_gives_one_event_per_overlapping_pair() {
    let mut board = Gameboard::new(AspectRatio::OneOne);
    board.insert_sprite(square("a", 0, 0, 10));
    board.insert_sprite(square("b", 5, 5, 10));
    let events = board.collisions(GameboardSize(100, 100));
    assert_eq!(events.len(), 1);
    assert_eq!((events[0].0.as_str(), events[0].1.as_str()), ("a", "b"));

    let mut board = Gameboard::new(AspectRatio::OneOne);
    board.insert_sprite(square("a", 0, 0, 10));
    board.insert_sprite(square("b", 10, 0, 10));
    assert_eq!(board.collisions(GameboardSize(100, 100)).len(), 0);
}

#[test]
fn scan_order_and_symmetry() {
    let mut board = Gameboard::new(AspectRatio::OneOne);
    board.insert_sprite(square("a", 0, 0, 10));
    board.insert_sprite(square("far", 500, 500, 10));
    board.insert_sprite(square("b", 5, 5, 10));
    board.insert_sprite(square("c", 8, 8, 10));
    let events = board.collisions(GameboardSize(1000, 1000));
    let pairs: Vec<(String, String)> = events.iter().map(|e| (e.0.clone(), e.1.clone())).collect();
    assert_eq!(
        pairs,
        vec![
            ("a".to_string(), "b".to_string()),
            ("a".to_string(), "c".to_string()),
            ("b".to_string(), "c".to_string()),
        ]
    );
    // The reversed insertion order finds the same pairs, each once.
    let mut rev = Gameboard::new(AspectRatio::OneOne);
    rev.insert_sprite(square("c", 8, 8, 10));
    rev.insert_sprite(square("b", 5, 5, 10));
    rev.insert_sprite(square("far", 500, 500, 10));
    rev.insert_sprite(square("a", 0, 0, 10));
    let mut other: Vec<(String, String)> = rev
        .collisions(GameboardSize(1000, 1000))
        .iter()
        .map(|e| if e.0 < e.1 { (e.0.clone(), e.1.clone()) } else { (e.1.clone(), e.0.clone()) })
        .collect();
    other.sort();
    assert_eq!(other, pairs);
}

#[test]
fn removal_excludes_sprite_from_scans() {
    let mut board = Gameboard::new(AspectRatio::OneOne);
    board.insert_sprite(square("a", 0, 0, 10));
    board.insert_sprite(square("b", 5, 5, 10));
    board.insert_sprite(square("c", 6, 6, 10));
    assert!(board.contains_id("b"));
    board.remove_sprite_by_id("b");
    assert!(!board.contains_id("b"));
    let events = board.collisions(GameboardSize(100, 100));
    assert_eq!(events.len(), 1);
    assert!(events.iter().all(|e| e.0 != "b" && e.1 != "b"));
    assert_eq!(ids(&board), vec!["a".to_string(), "c".to_string()]);
    // Removing an absent identity changes nothing.
    board.remove_sprite_by_id("zzz");
    assert_eq!(board.len(), 2);
}

#[test]
fn removal_by_sprite_uses_identity() {
    let mut board = Gameboard::new(AspectRatio::OneOne);
    board.insert_sprite(square("a", 0, 0, 10));
    board.insert_sprite(square("b", 50, 50, 10));
    let twin = square("a", 999, 999, 1);
    board.remove_sprite(&twin);
    assert!(!board.contains_id("a"));
    assert_eq!(ids(&board), vec!["b".to_string()]);
}

#[test]
fn insertion_order_is_kept() {
    let mut board = Gameboard::new(AspectRatio::SixteenNine);
    let names = ["s0", "s1", "s2", "s3", "s4", "s5"];
    for (k, n) in names.iter().enumerate() {
        board.insert_sprite(square(n, k as i64 * 100, 0, 10));
    }
    let got = ids(&board);
    assert_eq!(got, names.iter().map(|s| s.to_string()).collect::<Vec<_>>());
    assert_eq!(board.len(), 6);
}

#[test]
fn end_to_end_board() {
    let mut board = Gameboard::new(AspectRatio::SixteenNine);
    let extent = (px(360), 20250);
    board.insert_sprite(square("first", px(50), px(50), px(50)));
    board.insert_sprite(square("second", px(250), px(250), px(50)));
    let areas = board.build(extent);
    assert_eq!(board.board_size(), GameboardSize(px(360), 20250));
    assert_eq!(areas.len(), 3);
    assert_eq!(areas[0], Area { offset: (0, 0), size: (px(360), 20250) });
    assert_eq!(areas[1], Area { offset: (px(50), px(50)), size: (px(50), px(50)) });
    assert_eq!(board.on_event(&BoardEvent::Tick).len(), 0);

    let sprite = board.get_sprite_by_id("second").unwrap();
    *sprite.adjustments() = (px(-190), px(-190));
    for _ in 0..3 {
        let events = board.on_event(&BoardEvent::Tick);
        assert_eq!(events.len(), 1);
        assert_eq!((events[0].0.as_str(), events[0].1.as_str()), ("first", "second"));
    }
    let notice = CollisionEvent("first".to_string(), "second".to_string());
    assert_eq!(board.on_event(&BoardEvent::Collision(notice)).len(), 0);
}

#[test]
fn position_resolves_against_board() {
    let board = GameboardSize(1000, 600);
    let mut s = Sprite::new("s", (100, 50), (Offset::End, Offset::Center));
    assert_eq!(s.position(board), (900, 275));
    *s.adjustments() = (-10, 5);
    assert_eq!(s.position(board), (890, 280));
    let t = Sprite::new("t", (100, 50), (Offset::Static(-30), Offset::Start));
    assert_eq!(t.position(board), (-30, 0));
    assert_eq!(t.area(board), Area { offset: (-30, 0), size: (100, 50) });
    // A sprite larger than the board sits before its start when centred.
    let big = Sprite::new("big", (1200, 50), (Offset::Center, Offset::End));
    assert_eq!(big.position(board), (-100, 550));
}

#[test]
fn sprite_accessors() {
    let mut s = Sprite::new("hero", (3, 4), (Offset::Start, Offset::End));
    assert_eq!(s.id(), "hero");
    assert_eq!(s.size(), (3, 4));
    assert_eq!(*s.offset(), (Offset::Start, Offset::End));
    *s.dimensions() = (7, 8);
    assert_eq!(s.size(), (7, 8));
    assert_eq!(*s.adjustments(), (0, 0));
}

#[test]
fn get_sprite_by_id_misses_absent() {
    let mut board = Gameboard::new(AspectRatio::OneOne);
    board.insert_sprite(square("a", 0, 0, 10));
    assert!(board.get_sprite_by_id("b").is_none());
    assert_eq!(board.get_sprite_by_id("a").unwrap().size(), (10, 10));
}

#[test]
fn update_positions_writes_static_offsets() {
    let mut board = Gameboard::new(AspectRatio::OneOne);
    board.insert_sprite(Sprite::new("e", (100, 100), (Offset::End, Offset::End)));
    board.build((1000, 1000));
    let layout = board.layout();
    assert_eq!(layout.0, vec![(Offset::Start, Offset::Start), (Offset::End, Offset::End)]);
    board.get_sprite_by_id("e").unwrap().adjustments().0 = 5;
    board.update_positions();
    let layout = board.layout();
    assert_eq!(layout.0, vec![(Offset::Start, Offset::Start), (Offset::Static(905), Offset::Static(900))]);
    assert_eq!(layout.1, AspectRatio::OneOne);
    let areas = board.build((1000, 1000));
    assert_eq!(areas[1], Area { offset: (905, 900), size: (100, 100) });
}

#[test]
fn board_layout_requests() {
    let mut board = Gameboard::new(AspectRatio::OneOne);
    board.insert_sprite(square("a", 1, 2, 10));
    let areas = board.build((300, 200));
    assert_eq!(board.board_size(), GameboardSize(200, 200));
    assert_eq!(areas[0].size, (200, 200));
    assert_eq!(areas[1], Area { offset: (1, 2), size: (10, 10) });
    let l = board.layout();
    assert_eq!(l.request_size(&vec![SizeRequest::fill(), SizeRequest::fixed((10, 10))]), SizeRequest::new(0, 0, gameboard::geometry::MAX_EXTENT, gameboard::geometry::MAX_EXTENT));
}

#[test]
fn collision_passes_to_every_child() {
    let e = CollisionEvent("a".to_string(), "b".to_string());
    let children = vec![Area { offset: (0, 0), size: (1, 1) }, Area { offset: (9, 9), size: (2, 2) }, Area { offset: (5, 5), size: (0, 0) }];
    let out = e.pass(&children);
    assert_eq!(out.len(), 3);
    for o in out {
        let o = o.unwrap();
        assert_eq!((o.0.as_str(), o.1.as_str()), ("a", "b"));
    }
    assert_eq!(e.pass(&vec![]).len(), 0);
}

#[test]
fn sprite_enums() {
    assert_eq!(SpriteState::default(), SpriteState::Idle);
    assert_ne!(SpriteAction::Hurt, SpriteAction::Die);
    assert_ne!(SpriteAction::Shoot, SpriteAction::Die);
}

#[test]
fn empty_and_single_boards_raise_nothing() {
    let mut board = Gameboard::new(AspectRatio::OneOne);
    assert_eq!(board.collisions(GameboardSize(10, 10)).len(), 0);
    board.insert_sprite(square("solo", 0, 0, 10));
    assert_eq!(board.on_event(&BoardEvent::Tick).len(), 0);
}

#[test]
fn identical_boxes_collide_once() {
    let mut board = Gameboard::new(AspectRatio::OneOne);
    board.insert_sprite(square("a", 3, 3, 10));
    board.insert_sprite(square("b", 3, 3, 10));
    assert_eq!(board.collisions(GameboardSize(100, 100)).len(), 1);
}

#[test]
fn validity_check_follows_changes() {
    let mut board = Gameboard::new(AspectRatio::OneOne);
    board.insert_sprite(square("a", 0, 0, 10));
    assert!(board.check_valid());
    *board.get_sprite_by_id("a").unwrap().adjustments() = (i64::MAX, 0);
    assert!(!board.check_valid());
    *board.get_sprite_by_id("a").unwrap().adjustments() = (0, 0);
    assert!(board.check_valid());
    *board.get_sprite_by_id("a").unwrap().dimensions() = (-1, 5);
    assert!(!board.check_valid());
    let s = Sprite::new("s", (1, 1), (Offset::Static(i64::MIN), Offset::Start));
    assert!(!s.is_in_bounds());
    assert!(square("t", 1, 1, 1).is_in_bounds());
}
