use panorama::texture::{texel, texture_from_raw, texture_height, texture_width};

fn two_by_two() -> Vec<u8> {
    // Pixels row by row: (0,0) red, (1,0) green, (0,1) blue, (1,1) grey.
    vec![
        255, 0, 0, 255, // x=0, y=0
        0, 255, 0, 255, // x=1, y=0
        0, 0, 255, 128, // x=0, y=1
        90, 90, 90, 0, // x=1, y=1
    ]
}

#[test]
fn stored_pixels_read_back_unchanged() {
    let t = texture_from_raw(2, 2, two_by_two()).unwrap();
    assert_eq!(texture_width(&t), 2);
    assert_eq!(texture_height(&t), 2);
    assert_eq!(texel(&t, 0, 0), Some((255, 0, 0, 255)));
    assert_eq!(texel(&t, 1, 0), Some((0, 255, 0, 255)));
    assert_eq!(texel(&t, 0, 1), Some((0, 0, 255, 128)));
    assert_eq!(texel(&t, 1, 1), Some((90, 90, 90, 0)));
}

#[test]
fn out_of_bounds_texel_is_nothing() {
    let t = texture_from_raw(2, 2, two_by_two()).unwrap();
    assert_eq!(texel(&t, 2, 0), None);
    assert_eq!(texel(&t, 0, 2), None);
}

#[test]
fn too_small_a_buffer_builds_no_texture() {
    assert!(texture_from_raw(2, 2, vec![0; 15]).is_none());
    assert!(texture_from_raw(2, 2, vec![0; 16]).is_some());
}
