use niri_effects::cursor_image::{
    fallback_cursor, load_xcursor, select_images, Image, LoadError, XCursor,
};

fn image(size: u32, width: u32, height: u32, delay: u32) -> Image {
    Image {
        size,
        width,
        height,
        xhot: 1,
        yhot: 2,
        delay,
        pixels_rgba: vec![0; (4 * width * height) as usize],
        pixels_argb: Vec::new(),
    }
}

fn delays(cursor: &XCursor) -> Vec<u32> {
    cursor.frames().iter().map(|i| i.delay).collect()
}

#[test]
fn images_of_the_closest_size_are_kept_in_order() {
    let images = vec![
        image(24, 24, 24, 1),
        image(32, 32, 32, 2),
        image(48, 48, 48, 3),
        image(32, 32, 32, 4),
    ];
    let cursor = select_images(images, 36);
    assert_eq!(delays(&cursor), vec![2, 4]);
    assert_eq!(cursor.animation_duration, 6);
    assert!(cursor.is_animated_cursor());
}

#[test]
fn the_first_of_two_equally_close_sizes_wins() {
    let images = vec![image(24, 24, 24, 1), image(40, 40, 40, 2)];
    let cursor = select_images(images, 32);
    assert_eq!(delays(&cursor), vec![1]);
    assert!(!cursor.is_animated_cursor());
}

#[test]
fn images_are_kept_by_their_actual_size() {
    // The nominal sizes agree, the actual ones do not.
    let images = vec![image(32, 16, 32, 1), image(32, 32, 32, 2), image(64, 16, 32, 3)];
    let cursor = select_images(images, 32);
    assert_eq!(delays(&cursor), vec![1, 3]);
}

#[test]
fn frame_follows_the_delays_and_wraps() {
    let cursor = select_images(
        vec![image(32, 2, 2, 10), image(32, 2, 2, 0), image(32, 2, 2, 30)],
        32,
    );
    assert_eq!(cursor.animation_duration, 40);
    for (millis, index) in [(0, 0), (9, 0), (10, 2), (39, 2), (40, 0), (49, 0), (50, 2)] {
        let (i, shown) = cursor.frame(millis);
        assert_eq!(i, index, "{millis}");
        assert_eq!(shown.delay, cursor.frames()[index].delay);
    }
    // Five milliseconds into the animation, and a round later.
    assert_eq!(cursor.frame(5).0, cursor.frame(45).0);
    assert_eq!(cursor.time_to_next_frame(5), Some(5));
    assert_eq!(cursor.time_to_next_frame(45), Some(5));
    assert_eq!(cursor.time_to_next_frame(10), Some(30));
}

#[test]
fn a_still_cursor_shows_its_first_image() {
    let cursor = select_images(vec![image(32, 2, 2, 0), image(32, 2, 2, 0)], 32);
    assert_eq!(cursor.animation_duration, 0);
    assert_eq!(cursor.frame(12345).0, 0);
    assert_eq!(cursor.time_to_next_frame(12345), None);
    assert!(cursor.is_animated_cursor());
}

#[test]
fn hotspot_is_that_of_the_image() {
    assert_eq!(XCursor::hotspot(&image(32, 4, 4, 0)), (1, 2));
}

#[test]
fn fallback_has_one_still_image() {
    let cursor = fallback_cursor(vec![7; 64 * 64 * 4]);
    assert_eq!(cursor.frames().len(), 1);
    let (i, shown) = cursor.frame(99);
    assert_eq!(i, 0);
    assert_eq!((shown.size, shown.width, shown.height), (32, 64, 64));
    assert_eq!((shown.xhot, shown.yhot, shown.delay), (1, 1, 0));
    assert_eq!(shown.pixels_rgba, vec![7; 64 * 64 * 4]);
    assert!(shown.pixels_argb.is_empty());
}

fn word(bytes: &mut Vec<u8>, value: u32) {
    bytes.extend_from_slice(&value.to_le_bytes());
}

/// A cursor file with images of one pixel: their sizes and delays.
fn file(images: &[(u32, u32)]) -> Vec<u8> {
    let mut bytes = b"Xcur".to_vec();
    word(&mut bytes, 16);
    word(&mut bytes, 0x1_0000);
    word(&mut bytes, images.len() as u32);
    for (i, (size, _)) in images.iter().enumerate() {
        word(&mut bytes, 0xfffd_0002);
        word(&mut bytes, *size);
        word(&mut bytes, (16 + 12 * images.len() + 40 * i) as u32);
    }
    for (size, delay) in images {
        for value in [36, 0xfffd_0002, *size, 1, 1, 1, 0, 1, *delay] {
            word(&mut bytes, value);
        }
        bytes.extend_from_slice(&[1, 2, 3, 4]);
    }
    bytes
}

#[test]
fn cursor_files_are_parsed() {
    let cursor = load_xcursor(&file(&[(24, 5), (32, 6)]), 32).unwrap();
    assert_eq!(cursor.frames().len(), 2);
    assert_eq!(cursor.animation_duration, 11);
    let shown = &cursor.frames()[1];
    assert_eq!((shown.size, shown.width, shown.height), (32, 1, 1));
    assert_eq!((shown.xhot, shown.yhot, shown.delay), (0, 1, 6));
    assert_eq!(shown.pixels_rgba, vec![1, 2, 3, 4]);
    assert_eq!(shown.pixels_argb, vec![4, 1, 2, 3]);
}

#[test]
fn malformed_files_are_refused() {
    assert_eq!(load_xcursor(b"not a cursor", 32).unwrap_err(), LoadError::Malformed);
    let mut bytes = file(&[(24, 5)]);
    bytes.pop();
    assert_eq!(load_xcursor(&bytes, 24).unwrap_err(), LoadError::Malformed);
}

#[test]
fn files_that_make_no_cursor_are_refused() {
    assert_eq!(load_xcursor(&file(&[]), 32).unwrap_err(), LoadError::Unusable);
    // The time of the animation is out of range.
    let bytes = file(&[(32, u32::MAX), (32, 1)]);
    assert_eq!(load_xcursor(&bytes, 32).unwrap_err(), LoadError::Unusable);
    let bytes = file(&[(32, u32::MAX), (32, 0)]);
    assert_eq!(load_xcursor(&bytes, 32).unwrap().animation_duration, u32::MAX);
    // So is the distance of the sizes.
    let bytes = file(&[(0x8000_0000, 0)]);
    assert_eq!(load_xcursor(&bytes, 32).unwrap_err(), LoadError::Unusable);
}
