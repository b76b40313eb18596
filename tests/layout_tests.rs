use gameboard::geometry::{Area, Offset, Padding, SizeRequest, MAX_EXTENT, UNITS_PER_PIXEL};
use gameboard::grid::Grid;
use gameboard::layout::{GameLayout, GameboardBackground, GameboardSize};
use gameboard::ratio::AspectRatio;

const ALL_RATIOS: [AspectRatio; 5] = [
    AspectRatio::OneOne,
    AspectRatio::TwoThree,
    AspectRatio::FourFive,
    AspectRatio::FiveSeven,
    AspectRatio::SixteenNine,
];

#[test]
fn offset_resolves_each_rule() {
    assert_eq!(Offset::Start.resolve(100, 40), 0);
    assert_eq!(Offset::End.resolve(100, 40), 60);
    assert_eq!(Offset::Center.resolve(100, 40), 30);
    assert_eq!(Offset::Center.resolve(100, 41), 29);
    assert_eq!(Offset::Static(-7).resolve(100, 40), -7);
}

#[test]
fn offset_is_not_clamped() {
    assert_eq!(Offset::End.resolve(40, 100), -60);
    assert_eq!(Offset::Center.resolve(40, 100), -30);
    assert_eq!(Offset::Center.resolve(40, 101), -31);
}

#[test]
fn size_request_clamps() {
    let r = SizeRequest::new(10, 20, 50, 60);
    assert_eq!(r.get((5, 100)), (10, 60));
    assert_eq!(r.get((30, 30)), (30, 30));
    assert_eq!(SizeRequest::fixed((7, 9)).get((100, 1)), (7, 9));
    assert_eq!(SizeRequest::fill().get((123, 456)), (123, 456));
    assert_eq!(SizeRequest::fill().max_width(), MAX_EXTENT);
}

#[test]
fn padding_adjusts() {
    let p = Padding(1, 2, 3, 4);
    assert_eq!(p.adjust_size((100, 100)), (96, 94));
    assert_eq!(p.adjust_offset((10, 10)), (11, 12));
    let r = p.adjust_request(SizeRequest::new(1, 1, 5, 5));
    assert_eq!(r, SizeRequest::new(5, 7, 9, 11));
    assert_eq!(Padding::new(3), Padding(3, 3, 3, 3));
}

#[test]
fn ratio_landscape_keeps_height() {
    // 16:9 on a wide area: height kept, width derived.
    assert_eq!(AspectRatio::SixteenNine.size((1000, 90)), (160, 90));
    // Derived side rounds up: 300 * 16 / 9 = 533.3...
    assert_eq!(AspectRatio::SixteenNine.size((400, 300)), (534, 300));
}

#[test]
fn ratio_portrait_keeps_width() {
    // w <= h and w < h * r: width kept, height = w * r.
    assert_eq!(AspectRatio::SixteenNine.size((90, 1000)), (90, 160));
    assert_eq!(AspectRatio::OneOne.size((400, 400)), (400, 400));
    assert_eq!(AspectRatio::OneOne.size((300, 500)), (300, 300));
}

#[test]
fn ratio_other_branches() {
    // 2:3 on a wide area: h >= w * r, width kept, height = w * r.
    assert_eq!(AspectRatio::TwoThree.size((300, 250)), (300, 200));
    // 2:3 on a tall area with w >= h * r: height kept, width = h * r.
    assert_eq!(AspectRatio::TwoThree.size((300, 300)), (200, 300));
    // 4:5 on a very wide area.
    assert_eq!(AspectRatio::FourFive.size((1000, 100)), (80, 100));
    assert_eq!(AspectRatio::FiveSeven.size((700, 700)), (500, 700));
}

#[test]
fn ratio_size_is_idempotent() {
    let samples = [(0, 0), (1, 1), (100, 10), (10, 100), (400, 300), (300, 400), (360, 360), (1, 2), (2, 1), (999, 1000), (1000, 999), (36000, 20250)];
    for r in ALL_RATIOS {
        for s in samples {
            let once = r.size(s);
            assert_eq!(r.size(once), once, "{:?} {:?}", r, s);
        }
    }
}

#[test]
fn ratio_kept_and_fits_where_room() {
    // 16:9 on areas at least as wide as the ratio.
    for s in [(1600, 900), (2000, 900), (36000, 20250), (1000, 1)] {
        let (w, h) = AspectRatio::SixteenNine.size(s);
        assert!(w <= s.0 && h <= s.1);
        let err = w * 9 - h * 16;
        assert!(0 <= err && err < 9, "{:?}", s);
        let ratio = w as f64 / h as f64;
        assert!((ratio - 16.0 / 9.0).abs() < 1.0 / h as f64 + 1e-9);
    }
    // 2:3 on a tall area.
    let (w, h) = AspectRatio::TwoThree.size((300, 400));
    assert_eq!((w, h), (267, 400));
    assert!(w <= 300 && h <= 400);
    assert!(0 <= w * 3 - h * 2 && w * 3 - h * 2 < 3);
}

#[test]
fn ratio_default_is_sixteen_nine() {
    assert_eq!(AspectRatio::default(), AspectRatio::SixteenNine);
    assert_eq!(AspectRatio::FiveSeven.parts(), (5, 7));
}

#[test]
fn board_extent_from_ratio() {
    // 360 x 202.5 pixels, in hundredths of a pixel.
    let extent = (360 * UNITS_PER_PIXEL, 20250);
    assert_eq!(AspectRatio::SixteenNine.size(extent), (36000, 20250));
}

#[test]
fn merge_of_no_children_is_zero() {
    let l = GameLayout::new(vec![], AspectRatio::OneOne);
    assert_eq!(l.request_size(&vec![]), SizeRequest::new(0, 0, 0, 0));
}

#[test]
fn merge_takes_envelope() {
    let l = GameLayout::new(vec![], AspectRatio::OneOne);
    let children = vec![SizeRequest::new(5, 7, 50, 60), SizeRequest::new(3, 9, 40, 80), SizeRequest::new(4, 1, 90, 10)];
    assert_eq!(l.request_size(&children), SizeRequest::new(3, 1, 90, 80));
}

#[test]
fn free_layout_places_by_offsets() {
    let offsets = vec![
        (Offset::Start, Offset::Start),
        (Offset::Center, Offset::End),
        (Offset::Static(5), Offset::Static(-5)),
    ];
    let l = GameLayout::new(offsets, AspectRatio::SixteenNine);
    let children = vec![SizeRequest::fill(), SizeRequest::fixed((100, 50)), SizeRequest::fixed((10, 10))];
    let areas = l.build((1600, 900), &children);
    assert_eq!(areas.len(), 3);
    assert_eq!(areas[0], Area { offset: (0, 0), size: (1600, 900) });
    assert_eq!(areas[1], Area { offset: (750, 850), size: (100, 50) });
    assert_eq!(areas[2], Area { offset: (5, -5), size: (10, 10) });
    assert_eq!(l.size((1600, 900)), (1600, 900));
}

#[test]
fn free_layout_stops_at_shorter_list() {
    let l = GameLayout::new(vec![(Offset::Start, Offset::Start)], AspectRatio::OneOne);
    let children = vec![SizeRequest::fixed((1, 1)), SizeRequest::fixed((2, 2))];
    assert_eq!(l.build((100, 100), &children).len(), 1);
}

#[test]
fn background_publishes_extent() {
    let mut bg = GameboardBackground::new(AspectRatio::SixteenNine);
    let areas = bg.build((1600, 1600));
    assert_eq!(areas, vec![Area { offset: (0, 0), size: (1600, 1600) }]);
    assert_eq!(bg.board_size(), GameboardSize(1600, 2845));
    assert_eq!(*bg.shape(), (1600, 2845));
    assert_eq!(bg.request_size(), SizeRequest::fill());
    assert_eq!(GameboardSize::default().get(), (0, 0));
}

#[test]
fn grid_request_size_sums_columns_and_rows() {
    let g = Grid::new(2, 3, (4, 6), Offset::Center, Padding(1, 2, 3, 4));
    let children = vec![
        SizeRequest::fixed((10, 5)),
        SizeRequest::fixed((20, 8)),
        SizeRequest::fixed((30, 2)),
        SizeRequest::fixed((15, 9)),
    ];
    // columns 15, 20, 30 -> 65 + 2 * 4; rows 8, 9 -> 17 + 1 * 6.
    let r = g.request_size(&children);
    assert_eq!(r, SizeRequest::new(73 + 4, 23 + 6, 73 + 4, 23 + 6));
}

#[test]
fn grid_build_places_row_major() {
    let g = Grid::new(2, 2, (4, 6), Offset::Center, Padding(1, 2, 0, 0));
    let children = vec![
        SizeRequest::fixed((10, 5)),
        SizeRequest::fixed((20, 8)),
        SizeRequest::fixed((30, 2)),
    ];
    let areas = g.build((1000, 1000), &children);
    assert_eq!(areas.len(), 3);
    // column widths 30, 20; row heights 8, 2.
    assert_eq!(areas[0], Area { offset: (1, 2), size: (10, 5) });
    assert_eq!(areas[1], Area { offset: (1 + 30 + 4, 2), size: (20, 8) });
    assert_eq!(areas[2], Area { offset: (1, 2 + 8 + 6), size: (30, 2) });
}

#[test]
fn grid_drops_children_beyond_cells() {
    let g = Grid::square(2, 1);
    let children: Vec<SizeRequest> = (0..7).map(|_| SizeRequest::fixed((3, 3))).collect();
    let areas = g.build((0, 0), &children);
    assert_eq!(areas.len(), 4);
    for (k, a) in areas.iter().enumerate() {
        let (row, col) = (k / 2, k % 2);
        assert!(row < 2 && col < 2);
        assert_eq!(a.offset, (col as i64 * 4, row as i64 * 4));
    }
    // The request ignores the dropped children too.
    assert_eq!(g.request_size(&children), SizeRequest::fixed((7, 7)));
}

#[test]
fn grid_with_no_children() {
    let g = Grid::square(3, 2);
    assert_eq!(g.build((10, 10), &vec![]).len(), 0);
    assert_eq!(g.request_size(&vec![]), SizeRequest::fixed((4, 4)));
}

#[test]
fn ratio_at_largest_extent() {
    let m = MAX_EXTENT;
    assert_eq!(AspectRatio::OneOne.size((m, m)), (m, m));
    let (w, h) = AspectRatio::SixteenNine.size((m, m));
    assert_eq!(w, m);
    assert_eq!(h, (m * 16 + 8) / 9);
    assert_eq!(AspectRatio::SixteenNine.size((w, h)), (w, h));
}

#[test]
fn padding_default_is_zero() {
    assert_eq!(Padding::default(), Padding(0, 0, 0, 0));
}

#[test]
fn grid_without_rows_places_nothing() {
    let g = Grid::new(0, 3, (1, 1), Offset::Start, Padding::default());
    let children = vec![SizeRequest::fixed((2, 2)), SizeRequest::fixed((3, 3))];
    assert_eq!(g.build((10, 10), &children).len(), 0);
    let g = Grid::new(2, 0, (1, 1), Offset::Start, Padding::default());
    assert_eq!(g.build((10, 10), &vec![]).len(), 0);
}
