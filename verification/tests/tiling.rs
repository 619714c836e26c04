use image::{Pixel as _, Rgba};
use img_resize::{repeat, Canvas, Pixel};

fn pattern(width: u32, height: u32, seed: u8) -> Canvas {
    let mut data = Vec::new();
    for y in 0..height {
        for x in 0..width {
            data.push((x as u8).wrapping_mul(7).wrapping_add(seed));
            data.push((y as u8).wrapping_mul(5).wrapping_add(seed));
            data.push((x as u8) ^ (y as u8));
            data.push(255);
        }
    }
    Canvas::from_raw(width, height, data).unwrap()
}

fn filled(width: u32, height: u32, pixel: [u8; 4]) -> Canvas {
    let mut data = Vec::new();
    for _ in 0..width * height {
        data.extend_from_slice(&pixel);
    }
    Canvas::from_raw(width, height, data).unwrap()
}

#[test]
fn exact_fit_places_sixteen_tiles() {
    let mut base = filled(100, 100, [1, 2, 3, 4]);
    let tile = pattern(25, 25, 11);
    repeat(&mut base, &tile);
    assert_eq!(base.width(), 100);
    assert_eq!(base.height(), 100);
    for y in 0..100 {
        for x in 0..100 {
            assert_eq!(base.get_pixel(x, y), tile.get_pixel(x % 25, y % 25));
        }
    }
    for offset_x in [0, 25, 50, 75] {
        for offset_y in [0, 25, 50, 75] {
            assert_eq!(base.get_pixel(offset_x, offset_y), tile.get_pixel(0, 0));
            assert_eq!(base.get_pixel(offset_x + 24, offset_y + 24), tile.get_pixel(24, 24));
        }
    }
}

#[test]
fn partial_remainder_stays_untouched() {
    let start = pattern(100, 100, 40);
    let mut base = pattern(100, 100, 40);
    let tile = pattern(30, 30, 3);
    repeat(&mut base, &tile);
    let mut covered = 0;
    for y in 0..100 {
        for x in 0..100 {
            if x < 90 && y < 90 {
                assert_eq!(base.get_pixel(x, y), tile.get_pixel(x % 30, y % 30));
                covered += 1;
            } else {
                assert_eq!(base.get_pixel(x, y), start.get_pixel(x, y));
            }
        }
    }
    assert_eq!(covered, 9 * 30 * 30);
}

#[test]
fn tile_larger_than_base_places_nothing() {
    let mut base = pattern(10, 40, 9);
    let tile = pattern(11, 5, 1);
    repeat(&mut base, &tile);
    assert_eq!(base.into_raw(), pattern(10, 40, 9).into_raw());
    let mut low = pattern(40, 4, 9);
    repeat(&mut low, &pattern(5, 5, 1));
    assert_eq!(low.into_raw(), pattern(40, 4, 9).into_raw());
}

#[test]
fn empty_base_stays_empty() {
    let mut base = Canvas::new(0, 0).unwrap();
    repeat(&mut base, &pattern(2, 2, 0));
    assert_eq!(base.into_raw(), Vec::<u8>::new());
}

#[test]
fn uneven_tiles_fill_columns_and_rows() {
    let start = pattern(7, 5, 100);
    let mut base = pattern(7, 5, 100);
    let tile = pattern(3, 2, 200);
    repeat(&mut base, &tile);
    for y in 0..5 {
        for x in 0..7 {
            if x < 6 && y < 4 {
                assert_eq!(base.get_pixel(x, y), tile.get_pixel(x % 3, y % 2));
            } else {
                assert_eq!(base.get_pixel(x, y), start.get_pixel(x, y));
            }
        }
    }
}

#[test]
fn transparent_tile_pixels_leave_the_base() {
    let mut base = filled(4, 4, [10, 20, 30, 40]);
    let tile = Canvas::from_raw(2, 1, vec![9, 9, 9, 0, 50, 60, 70, 255]).unwrap();
    repeat(&mut base, &tile);
    for y in 0..4 {
        for x in 0..4 {
            let expected = if x % 2 == 0 {
                Pixel { red: 10, green: 20, blue: 30, alpha: 40 }
            } else {
                Pixel { red: 50, green: 60, blue: 70, alpha: 255 }
            };
            assert_eq!(base.get_pixel(x, y), expected);
        }
    }
}

#[test]
fn translucent_tile_pixels_are_blended() {
    let mut base = filled(3, 3, [200, 100, 50, 255]);
    let tile = filled(1, 1, [0, 0, 250, 128]);
    repeat(&mut base, &tile);
    let mut expected = Rgba([200u8, 100, 50, 255]);
    expected.blend(&Rgba([0u8, 0, 250, 128]));
    assert_ne!(expected, Rgba([200u8, 100, 50, 255]));
    let [red, green, blue, alpha] = expected.0;
    for y in 0..3 {
        for x in 0..3 {
            assert_eq!(base.get_pixel(x, y), Pixel { red, green, blue, alpha });
        }
    }
}

#[test]
fn canvas_holds_its_samples() {
    let canvas = Canvas::from_raw(2, 2, (0..16).collect()).unwrap();
    assert_eq!(canvas.width(), 2);
    assert_eq!(canvas.height(), 2);
    assert_eq!(canvas.get_pixel(0, 0), Pixel { red: 0, green: 1, blue: 2, alpha: 3 });
    assert_eq!(canvas.get_pixel(1, 0), Pixel { red: 4, green: 5, blue: 6, alpha: 7 });
    assert_eq!(canvas.get_pixel(0, 1), Pixel { red: 8, green: 9, blue: 10, alpha: 11 });
    assert_eq!(canvas.get_pixel(1, 1), Pixel { red: 12, green: 13, blue: 14, alpha: 15 });
    assert_eq!(canvas.into_raw(), (0..16).collect::<Vec<u8>>());
}

#[test]
fn canvas_needs_four_samples_to_the_pixel() {
    assert!(Canvas::from_raw(2, 2, vec![0; 15]).is_none());
    assert!(Canvas::from_raw(2, 2, vec![0; 17]).is_none());
    assert!(Canvas::from_raw(0, 5, vec![0; 1]).is_none());
    assert!(Canvas::from_raw(0, 5, Vec::new()).is_some());
}

#[test]
fn new_canvas_is_transparent_black() {
    let canvas = Canvas::new(3, 2).unwrap();
    assert_eq!(canvas.width(), 3);
    assert_eq!(canvas.height(), 2);
    assert_eq!(canvas.into_raw(), vec![0; 24]);
}
