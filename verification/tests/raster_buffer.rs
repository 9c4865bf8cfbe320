use vectorize::{RasterBuffer, Rgba};

#[test]
fn a_raster_needs_four_bytes_for_each_pixel() {
    assert!(RasterBuffer::new(2, 3, vec![0; 24]).is_some());
    assert!(RasterBuffer::new(2, 3, vec![0; 23]).is_none());
    assert!(RasterBuffer::new(2, 3, vec![0; 25]).is_none());
    assert!(RasterBuffer::new(2, 3, vec![]).is_none());
    assert!(RasterBuffer::new(0, 0, vec![]).is_some());
    assert!(RasterBuffer::new(0, 7, vec![]).is_some());
    assert!(RasterBuffer::new(0, 7, vec![0; 4]).is_none());
}

#[test]
fn sizes_that_overflow_are_refused() {
    assert!(RasterBuffer::new(usize::MAX, 2, vec![0; 8]).is_none());
    assert!(RasterBuffer::new(usize::MAX / 2, 3, vec![]).is_none());
    assert!(RasterBuffer::new(usize::MAX / 4 + 1, 1, vec![]).is_none());
}

#[test]
fn pixels_are_read_row_by_row() {
    let bytes: Vec<u8> = (0..24).collect();
    let r = RasterBuffer::new(3, 2, bytes.clone()).unwrap();
    assert_eq!(r.width(), 3);
    assert_eq!(r.height(), 2);
    assert!(!r.is_empty());
    assert_eq!(r.pixel(0, 0), Rgba { r: 0, g: 1, b: 2, a: 3 });
    assert_eq!(r.pixel(2, 0), Rgba { r: 8, g: 9, b: 10, a: 11 });
    assert_eq!(r.pixel(0, 1), Rgba { r: 12, g: 13, b: 14, a: 15 });
    assert_eq!(r.pixel(2, 1), Rgba { r: 20, g: 21, b: 22, a: 23 });
    assert_eq!(r.into_bytes(), bytes);
}

#[test]
fn a_raster_without_pixels_is_empty() {
    assert!(RasterBuffer::new(0, 0, vec![]).unwrap().is_empty());
    assert!(RasterBuffer::new(5, 0, vec![]).unwrap().is_empty());
    assert!(RasterBuffer::new(0, 5, vec![]).unwrap().is_empty());
    assert!(!RasterBuffer::new(1, 1, vec![0; 4]).unwrap().is_empty());
}

#[test]
fn a_raster_is_countable_up_to_the_pixel_limit() {
    assert_eq!(vectorize::raster::PIXEL_LIMIT, 131_068);
    // 362 * 362 = 131_044
    assert!(RasterBuffer::new(362, 362, vec![0; 4 * 362 * 362]).unwrap().is_countable());
    // 363 * 362 = 131_406
    assert!(!RasterBuffer::new(363, 362, vec![0; 4 * 363 * 362]).unwrap().is_countable());
    assert!(RasterBuffer::new(131_068, 1, vec![0; 4 * 131_068]).unwrap().is_countable());
    assert!(!RasterBuffer::new(1, 131_069, vec![0; 4 * 131_069]).unwrap().is_countable());
    assert!(!RasterBuffer::new(512, 256, vec![0; 4 * 512 * 256]).unwrap().is_countable());
    assert!(RasterBuffer::new(0, 0, vec![]).unwrap().is_countable());
    assert!(RasterBuffer::new(usize::MAX, 0, vec![]).unwrap().is_countable());
}

#[test]
fn a_raster_is_reducible_up_to_the_span_limit() {
    assert_eq!(vectorize::raster::SPAN_LIMIT, 46_340);
    assert!(RasterBuffer::new(46_340, 1, vec![0; 4 * 46_340]).unwrap().is_reducible());
    assert!(!RasterBuffer::new(46_341, 1, vec![0; 4 * 46_341]).unwrap().is_reducible());
    assert!(!RasterBuffer::new(1, 46_341, vec![0; 4 * 46_341]).unwrap().is_reducible());
    assert!(RasterBuffer::new(1, 46_340, vec![0; 4 * 46_340]).unwrap().is_reducible());
    assert!(RasterBuffer::new(0, 0, vec![]).unwrap().is_reducible());
}

fn with_transparent(w: usize, h: usize, clear: &[(usize, usize)]) -> RasterBuffer {
    let mut px = Vec::new();
    for y in 0..h {
        for x in 0..w {
            px.extend_from_slice(&[7, 7, 7, if clear.contains(&(x, y)) { 0 } else { 255 }]);
        }
    }
    RasterBuffer::new(w, h, px).unwrap()
}

#[test]
fn a_raster_is_keyed_by_the_transparent_pixels_of_five_rows() {
    // ten columns: a fifth of twenty is four
    assert!(!with_transparent(10, 8, &[]).seeks_key());
    assert!(!with_transparent(10, 8, &[(0, 0), (1, 0), (2, 0)]).seeks_key());
    assert!(with_transparent(10, 8, &[(0, 0), (1, 0), (2, 0), (3, 0)]).seeks_key());
    // the rows 0, 2, 4, 6 and 7 count, the others do not
    assert!(with_transparent(10, 8, &[(0, 0), (5, 2), (9, 4), (3, 6)]).seeks_key());
    assert!(with_transparent(10, 8, &[(0, 7), (5, 7), (9, 4), (3, 6)]).seeks_key());
    assert!(!with_transparent(10, 8, &[(0, 1), (5, 3), (9, 5), (3, 5), (4, 1), (4, 3)]).seeks_key());
    assert!(!with_transparent(10, 8, &[(0, 0), (5, 2), (9, 4), (3, 5)]).seeks_key());
    // in a raster of one row every row counted is that row
    assert!(with_transparent(10, 1, &[(4, 0)]).seeks_key());
    assert!(!with_transparent(30, 1, &[(4, 0), (5, 0)]).seeks_key());
    assert!(with_transparent(30, 1, &[(4, 0), (5, 0), (6, 0)]).seeks_key());
    // fewer than three columns are always keyed
    assert!(with_transparent(2, 5, &[]).seeks_key());
    assert!(with_transparent(1, 1, &[]).seeks_key());
    assert!(!with_transparent(3, 5, &[]).seeks_key());
    assert!(!RasterBuffer::new(0, 0, vec![]).unwrap().seeks_key());
    assert!(!RasterBuffer::new(0, 4, vec![]).unwrap().seeks_key());
}

#[test]
fn the_threshold_is_the_whole_fifth_of_twice_the_width() {
    // the tracer takes the product with a fifth in single precision
    for width in 1usize..=131_068 {
        assert_eq!(((width * 2) as f32 * 0.2_f32) as usize, 2 * width / 5, "width {}", width);
    }
}
