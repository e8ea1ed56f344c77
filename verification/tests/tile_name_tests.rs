use panorama::tile_name::coords_from_name;

#[test]
fn plain_north_east() {
    assert_eq!(coords_from_name("N50E014.tif"), Some((50, 14)));
}

#[test]
fn south_and_west_negate() {
    assert_eq!(coords_from_name("S33W070.tif"), Some((-33, -70)));
    assert_eq!(coords_from_name("N10W001.tif"), Some((10, -1)));
    assert_eq!(coords_from_name("S01E120.tif"), Some((-1, 120)));
}

#[test]
fn group_found_inside_longer_name() {
    assert_eq!(coords_from_name("srtm_N47E008_v3.tif"), Some((47, 8)));
}

#[test]
fn first_group_wins() {
    assert_eq!(coords_from_name("N01E002_N03E004"), Some((1, 2)));
}

#[test]
fn lowercase_letters_do_not_match() {
    assert_eq!(coords_from_name("n50e014.tif"), None);
}

#[test]
fn letters_without_digits_do_not_match() {
    assert_eq!(coords_from_name("NE.tif"), None);
    assert_eq!(coords_from_name("N50E.tif"), None);
    assert_eq!(coords_from_name("NEWS"), None);
}

#[test]
fn no_group_at_all() {
    assert_eq!(coords_from_name("terrain.dt2"), None);
    assert_eq!(coords_from_name(""), None);
}

#[test]
fn leading_zeros_are_accepted() {
    assert_eq!(coords_from_name("N005E0014"), Some((5, 14)));
}

#[test]
fn values_beyond_i16_make_the_name_unusable() {
    assert_eq!(coords_from_name("N99999E000"), None);
    assert_eq!(coords_from_name("S32768E000"), None);
    assert_eq!(coords_from_name("N32767E032767"), Some((32767, 32767)));
}

#[test]
fn incomplete_first_letter_skipped() {
    assert_eq!(coords_from_name("NxN50E010"), Some((50, 10)));
}

#[test]
fn non_ascii_names_are_handled() {
    assert_eq!(coords_from_name("höhen_N47E008.tif"), Some((47, 8)));
    assert_eq!(coords_from_name("höhendaten.tif"), None);
}
