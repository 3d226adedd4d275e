use sand::dot::Dot;

fn all_kinds(temp: i16, salinity: u16) -> Vec<Dot> {
    vec![
        Dot::Empty { temp },
        Dot::Sand { temp },
        Dot::Dirt { temp },
        Dot::Water { temp, salinity },
        Dot::Salt { temp },
        Dot::Iron { temp },
    ]
}

#[test]
fn default_is_empty_at_zero() {
    assert_eq!(Dot::default(), Dot::Empty { temp: 0 });
}

#[test]
fn next_walks_the_cycle() {
    assert_eq!(Dot::Empty { temp: 5 }.next(), Dot::Sand { temp: 5 });
    assert_eq!(Dot::Sand { temp: -3 }.next(), Dot::Dirt { temp: -3 });
    assert_eq!(Dot::Dirt { temp: 7 }.next(), Dot::Water { temp: 7, salinity: 0 });
    assert_eq!(Dot::Water { temp: 9, salinity: 150 }.next(), Dot::Salt { temp: 9 });
    assert_eq!(Dot::Salt { temp: i16::MIN }.next(), Dot::Iron { temp: i16::MIN });
    assert_eq!(Dot::Iron { temp: i16::MAX }.next(), Dot::Empty { temp: i16::MAX });
}

#[test]
fn next_six_times_comes_back() {
    for start in all_kinds(12, 0) {
        let mut dot = start;
        for _ in 0..6 {
            dot = dot.next();
        }
        assert_eq!(dot, start);
    }
}

#[test]
fn next_resets_salinity_on_the_way_round() {
    let mut dot = Dot::Water { temp: 1, salinity: 77 };
    for _ in 0..6 {
        dot = dot.next();
    }
    assert_eq!(dot, Dot::Water { temp: 1, salinity: 0 });
}

#[test]
fn fallable_is_all_but_empty_and_iron() {
    let expected = [false, true, true, true, true, false];
    for (dot, want) in all_kinds(0, 3).iter().zip(expected) {
        assert_eq!(dot.is_fallable(), want, "{:?}", dot);
    }
}

#[test]
fn flowable_is_water_only() {
    let expected = [false, false, false, true, false, false];
    for (dot, want) in all_kinds(0, 3).iter().zip(expected) {
        assert_eq!(dot.is_flowable(), want, "{:?}", dot);
    }
}

#[test]
fn displaceable_is_empty_and_water() {
    let expected = [true, false, false, true, false, false];
    for (dot, want) in all_kinds(0, 3).iter().zip(expected) {
        assert_eq!(dot.is_displaceable(), want, "{:?}", dot);
    }
}

#[test]
fn is_empty_is_empty_only() {
    let expected = [true, false, false, false, false, false];
    for (dot, want) in all_kinds(-1, 3).iter().zip(expected) {
        assert_eq!(dot.is_empty(), want, "{:?}", dot);
    }
}

#[test]
fn displaceable_by_truth_table() {
    // rows: the cell in the slot; columns: the cell that pushes, in the
    // order Empty, Sand, Dirt, Water, Salt, Iron
    let table = [
        [false, true, true, true, true, true],
        [false, false, false, false, false, false],
        [false, false, false, false, false, false],
        [false, true, true, false, true, true],
        [false, false, false, false, false, false],
        [false, false, false, false, false, false],
    ];
    let slots = all_kinds(4, 20);
    let pushers = all_kinds(-4, 90);
    for (i, slot) in slots.iter().enumerate() {
        for (j, pusher) in pushers.iter().enumerate() {
            assert_eq!(slot.is_displaceable_by(pusher), table[i][j], "{:?} by {:?}", slot, pusher);
        }
    }
}

#[test]
fn water_gives_way_to_neither_water_nor_empty() {
    for salinity in [0u16, 100, 200, u16::MAX] {
        let water = Dot::Water { temp: 0, salinity };
        assert!(!water.is_displaceable_by(&Dot::Water { temp: 3, salinity: 0 }));
        assert!(!water.is_displaceable_by(&Dot::Empty { temp: 3 }));
        assert!(!Dot::Empty { temp: 0 }.is_displaceable_by(&Dot::Empty { temp: 1 }));
    }
}

#[test]
fn colors_follow_the_table() {
    assert_eq!(Dot::Empty { temp: 1 }.color(), [0x00, 0x00, 0x00, 0xFF]);
    assert_eq!(Dot::Sand { temp: 1 }.color(), [0xED, 0xC9, 0xAF, 0xFF]);
    assert_eq!(Dot::Dirt { temp: 1 }.color(), [0xBD, 0x99, 0xCF, 0xFF]);
    assert_eq!(Dot::Water { temp: 1, salinity: 0 }.color(), [0x00, 0xFF, 0xFF, 0xFF]);
    assert_eq!(Dot::Salt { temp: 1 }.color(), [0xFF, 0xFF, 0xFF, 0xFF]);
    assert_eq!(Dot::Iron { temp: 1 }.color(), [0xCC, 0xCC, 0xCC, 0xFF]);
}

#[test]
fn water_green_is_255_less_salinity() {
    assert_eq!(Dot::Water { temp: 0, salinity: 55 }.color(), [0x00, 200, 0xFF, 0xFF]);
    assert_eq!(Dot::Water { temp: 0, salinity: 100 }.color(), [0x00, 155, 0xFF, 0xFF]);
    assert_eq!(Dot::Water { temp: 0, salinity: 254 }.color(), [0x00, 1, 0xFF, 0xFF]);
    assert_eq!(Dot::Water { temp: 0, salinity: 255 }.color(), [0x00, 0, 0xFF, 0xFF]);
}

#[test]
fn water_green_saturates_above_255() {
    assert_eq!(Dot::Water { temp: 0, salinity: 256 }.color(), [0x00, 0, 0xFF, 0xFF]);
    assert_eq!(Dot::Water { temp: 0, salinity: 300 }.color(), [0x00, 0, 0xFF, 0xFF]);
    assert_eq!(Dot::Water { temp: 0, salinity: u16::MAX }.color(), [0x00, 0, 0xFF, 0xFF]);
}

#[test]
fn draw_writes_the_color() {
    for dot in all_kinds(0, 10) {
        let mut pixel = [9u8; 4];
        dot.draw(&mut pixel);
        assert_eq!(pixel, dot.color());
    }
}
