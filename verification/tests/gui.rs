use rt::gui::{edit_objects, pixel_total, rgba_bytes};

#[test]
fn edit_objects_adds_at_the_end() {
    let mut objects = vec!['a', 'b'];
    edit_objects(&mut objects, Some('c'), None);
    assert_eq!(objects, vec!['a', 'b', 'c']);
}

#[test]
fn edit_objects_deletes_and_keeps_order() {
    let mut objects = vec!['a', 'b', 'c', 'd'];
    edit_objects(&mut objects, None, Some(1));
    assert_eq!(objects, vec!['a', 'c', 'd']);
    edit_objects(&mut objects, None, None);
    assert_eq!(objects, vec!['a', 'c', 'd']);
}

#[test]
fn edit_objects_deletes_then_adds() {
    let mut objects = vec![1, 2, 3];
    edit_objects(&mut objects, Some(9), Some(2));
    assert_eq!(objects, vec![1, 2, 9]);
}

#[test]
fn pixel_total_counts_pixels() {
    assert_eq!(pixel_total(600, 400), 240_000);
    assert_eq!(pixel_total(0, 400), 0);
    assert_eq!(pixel_total(u32::MAX, u32::MAX), (u32::MAX as u64) * (u32::MAX as u64));
}

#[test]
fn rgba_bytes_appends_opaque_alpha() {
    assert_eq!(rgba_bytes(&vec![(1, 2, 3), (255, 0, 128)]), vec![1, 2, 3, 255, 255, 0, 128, 255]);
    assert!(rgba_bytes(&vec![]).is_empty());
}
