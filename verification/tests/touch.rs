use match_display::touch::{touch_point, READ_X, READ_Y};

fn bytes(raw: u16) -> [u8; 2] {
    (raw << 3).to_be_bytes()
}

#[test]
fn edges_and_middle() {
    assert_eq!(touch_point(true, bytes(3880), bytes(262)), None);
    assert_eq!(touch_point(true, bytes(340), bytes(3850)), Some((320, 240)));
    assert_eq!(touch_point(true, bytes(2110), bytes(2056)), Some((160, 120)));
    assert_eq!(touch_point(true, bytes(3880), bytes(3850)), Some((0, 240)));
}

#[test]
fn readings_beyond_an_edge_lie_on_it() {
    assert_eq!(touch_point(true, bytes(8191), bytes(8191)), Some((0, 240)));
    assert_eq!(touch_point(true, bytes(0), bytes(0)), Some((320, 0)));
    assert_eq!(touch_point(true, bytes(8191), bytes(0)), None);
}

#[test]
fn points_are_rounded_down_and_low_bits_dropped() {
    assert_eq!(touch_point(true, bytes(3869), bytes(262)), None);
    assert_eq!(touch_point(true, bytes(3868), bytes(262)), Some((1, 0)));
    assert_eq!(touch_point(true, bytes(3880), bytes(276)), None);
    assert_eq!(touch_point(true, bytes(3880), bytes(277)), Some((0, 1)));
    let [high, low] = bytes(2110);
    assert_eq!(touch_point(true, [high, low | 7], bytes(2056)), Some((160, 120)));
}

#[test]
fn points_move_with_the_finger() {
    let column = |raw| touch_point(true, bytes(raw), bytes(2056)).unwrap().0;
    let row = |raw| touch_point(true, bytes(2110), bytes(raw)).unwrap().1;
    for raw in 0..8191 {
        assert!(column(raw) >= column(raw + 1));
        assert!(row(raw) <= row(raw + 1));
    }
}

#[test]
fn the_commands_of_the_controller() {
    assert_eq!((READ_X, READ_Y), (0x90, 0xd0));
}

#[test]
fn without_a_touch_there_is_no_point() {
    for raw in [0, 340, 2056, 3880, 8191] {
        assert_eq!(touch_point(false, bytes(raw), bytes(raw)), None);
    }
}
