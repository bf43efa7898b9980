use raytracer::ppm::{write_header, write_pixel, write_pixels, Rgb8};

fn text(bytes: &[u8]) -> String {
    String::from_utf8(bytes.to_vec()).unwrap()
}

#[test]
fn header_names_dimensions_and_depth() {
    let mut out = Vec::new();
    write_header(&mut out, 1280, 720);
    assert_eq!(text(&out), "P3\n1280 720\n255\n");
}

#[test]
fn header_of_single_pixel_image() {
    let mut out = Vec::new();
    write_header(&mut out, 1, 1);
    assert_eq!(text(&out), "P3\n1 1\n255\n");
}

#[test]
fn pixel_line_has_no_leading_zeros() {
    let mut out = Vec::new();
    write_pixel(&mut out, Rgb8 { r: 0, g: 10, b: 255 });
    assert_eq!(text(&out), "0 10 255\n");
}

#[test]
fn pixel_line_appends_after_existing_bytes() {
    let mut out = b"P3\n1 1\n255\n".to_vec();
    write_pixel(&mut out, Rgb8 { r: 7, g: 99, b: 100 });
    assert_eq!(text(&out), "P3\n1 1\n255\n7 99 100\n");
}

#[test]
fn pixels_are_written_in_the_order_given() {
    let row = vec![
        Rgb8 { r: 1, g: 2, b: 3 },
        Rgb8 { r: 40, g: 50, b: 60 },
        Rgb8 { r: 255, g: 0, b: 128 },
    ];
    let mut out = Vec::new();
    write_pixels(&mut out, &row);
    assert_eq!(text(&out), "1 2 3\n40 50 60\n255 0 128\n");
}

#[test]
fn empty_run_writes_nothing() {
    let mut out = b"x".to_vec();
    write_pixels(&mut out, &Vec::new());
    assert_eq!(out, b"x".to_vec());
}

#[test]
fn rows_streamed_one_by_one_equal_the_whole_raster() {
    let top = vec![Rgb8 { r: 9, g: 19, b: 29 }, Rgb8 { r: 0, g: 0, b: 0 }];
    let bottom = vec![Rgb8 { r: 255, g: 255, b: 255 }, Rgb8 { r: 100, g: 101, b: 102 }];
    let mut streamed = Vec::new();
    write_header(&mut streamed, 2, 2);
    write_pixels(&mut streamed, &top);
    write_pixels(&mut streamed, &bottom);
    let mut whole = Vec::new();
    write_header(&mut whole, 2, 2);
    let mut all = top.clone();
    all.extend(bottom.iter().copied());
    write_pixels(&mut whole, &all);
    assert_eq!(streamed, whole);
    assert_eq!(text(&whole), "P3\n2 2\n255\n9 19 29\n0 0 0\n255 255 255\n100 101 102\n");
}

#[test]
fn same_pixels_give_identical_bytes() {
    let row = vec![Rgb8 { r: 12, g: 34, b: 56 }, Rgb8 { r: 78, g: 90, b: 123 }];
    let mut a = Vec::new();
    let mut b = Vec::new();
    write_header(&mut a, 2, 1);
    write_pixels(&mut a, &row);
    write_header(&mut b, 2, 1);
    write_pixels(&mut b, &row.clone());
    assert_eq!(a, b);
}
