use kknd2_mapview::{decode_self_contained, Panning, ViewKey, VisibleArea};

#[test]
fn keys_start_and_stop_panning() {
    let mut p = Panning::new();
    assert!(!p.key_down(ViewKey::Up));
    assert!(!p.key_down(ViewKey::Right));
    assert!(p.key_down(ViewKey::Open));
    assert!(p.up && p.right && !p.down && !p.left);
    p.key_up(ViewKey::Up);
    p.key_up(ViewKey::Other);
    assert!(!p.up && p.right);
}

#[test]
fn panning_stays_inside_the_map() {
    let mut p = Panning::new();
    p.key_down(ViewKey::Down);
    p.key_down(ViewKey::Right);
    assert!(p.step(100, 100, 132, 120));
    assert_eq!((p.offset_x, p.offset_y), (16, 16));
    assert!(p.step(100, 100, 132, 120));
    assert_eq!((p.offset_x, p.offset_y), (32, 32));
    assert!(!p.step(100, 100, 132, 120));
    assert_eq!((p.offset_x, p.offset_y), (32, 32));
    p.key_up(ViewKey::Down);
    p.key_up(ViewKey::Right);
    p.key_down(ViewKey::Up);
    p.key_down(ViewKey::Left);
    assert!(p.step(100, 100, 132, 120));
    assert_eq!((p.offset_x, p.offset_y), (16, 16));
    assert!(!p.step(100, 100, 132, 120));
    assert_eq!((p.offset_x, p.offset_y), (16, 16));
}

#[test]
fn visible_area_adds_a_cut_cell() {
    let mut p = Panning::new();
    p.offset_x = 40;
    p.offset_y = 64;
    let a = p.visible_area(100, 64, 32, 32, 10, 4);
    assert_eq!(
        a,
        VisibleArea { first_col: 1, first_row: 2, shift_x: 8, shift_y: 0, cols: 4, rows: 2 }
    );
    let b = p.visible_area(100, 64, 32, 32, 4, 4);
    assert_eq!(b.cols, 3);
}

#[test]
fn grid_lookup() {
    let mut v = vec![0xde, 0xc0, 0xad, 0xde, 0, 0, 0, 0, 0, 0, 0, 0, 1, 0, 0, 0];
    v.extend_from_slice(&16u32.to_le_bytes());
    v.extend_from_slice(&0u32.to_le_bytes());
    v.extend_from_slice(&[0x4c, 0x52, 0x43, 0x53]);
    for x in [0u32, 0, 3, 2] {
        v.extend_from_slice(&x.to_le_bytes());
    }
    v.extend_from_slice(&[0u8; 12]);
    for _ in 0..6 {
        v.extend_from_slice(&0u32.to_le_bytes());
    }
    let map = decode_self_contained(&v).unwrap();
    let l = &map.layers[0];
    assert_eq!(l.key_at(2, 1), Some(0));
    assert_eq!(l.key_at(3, 0), None);
    assert_eq!(l.key_at(0, 2), None);
}
