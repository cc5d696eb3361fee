use pathtracer::scalar::Scalar;
use pathtracer::texture::{CheckerTexture, ImageTexture, SolidColor};
use pathtracer::vector::Color;

fn c(x: f32, y: f32, z: f32) -> Color {
    Color::new(
        Scalar::from_bits(x.to_bits()),
        Scalar::from_bits(y.to_bits()),
        Scalar::from_bits(z.to_bits()),
    )
}

#[test]
fn a_solid_colour_is_the_same_everywhere() {
    let t = SolidColor::new(c(0.4, 0.2, 0.1));
    assert_eq!(t.value(), c(0.4, 0.2, 0.1));
    assert_eq!(t.color, c(0.4, 0.2, 0.1));
}

#[test]
fn a_checker_board_alternates_with_the_parity_of_the_cell() {
    let even = c(0.2, 0.3, 0.1);
    let odd = c(0.9, 0.9, 0.9);
    let t = CheckerTexture::with_colors(even, odd);
    assert_eq!(t.value(0), even);
    assert_eq!(t.value(1), odd);
    assert_eq!(t.value(2), even);
    assert_eq!(t.value(-1), odd);
    assert_eq!(t.value(-2), even);
    assert_eq!(t.value(-3), odd);
    assert_eq!(t.value(i32::MAX), odd);
    assert_eq!(t.value(i32::MIN), even);
    for n in -50i32..50 {
        assert_eq!(t.value(n) == even, n % 2 == 0);
    }
}

#[test]
fn a_cell_is_even_where_its_sum_is() {
    assert!(CheckerTexture::is_even(0));
    assert!(!CheckerTexture::is_even(1));
    assert!(CheckerTexture::is_even(-2));
    assert!(!CheckerTexture::is_even(-1));
    assert!(!CheckerTexture::is_even(i32::MAX));
    assert!(CheckerTexture::is_even(i32::MIN));
    // the cell of the point (0.5, -0.5, 2.5) on a board of scale 1
    let sum = (0.5f32.floor() + (-0.5f32).floor() + 2.5f32.floor()) as i32;
    assert_eq!(sum, 1);
    assert!(!CheckerTexture::is_even(sum));
}

#[test]
fn an_image_needs_three_bytes_for_each_pixel() {
    assert!(ImageTexture::from_file(2, 2, vec![0; 12]).is_some());
    assert!(ImageTexture::from_file(2, 2, vec![0; 11]).is_none());
    assert!(ImageTexture::from_file(2, 2, vec![0; 13]).is_none());
    assert!(ImageTexture::from_file(0, 5, vec![]).is_some());
    assert!(ImageTexture::from_file(0, 5, vec![1, 2, 3]).is_none());
    assert!(ImageTexture::from_file(u32::MAX, u32::MAX, vec![0; 3]).is_none());
    assert!(ImageTexture::from_file(0x8000_0000, 2, vec![]).is_none());
}

#[test]
fn an_image_gives_its_pixels_by_column_and_row() {
    let data: Vec<u8> = (0u8..18).collect();
    let image = ImageTexture::from_file(3, 2, data).unwrap();
    assert_eq!(image.width(), 3);
    assert_eq!(image.height(), 2);
    assert_eq!(image.pixel(0, 0), [0, 1, 2]);
    assert_eq!(image.pixel(1, 0), [3, 4, 5]);
    assert_eq!(image.pixel(2, 0), [6, 7, 8]);
    assert_eq!(image.pixel(0, 1), [9, 10, 11]);
    assert_eq!(image.pixel(2, 1), [15, 16, 17]);
    assert_eq!(image.pixel_checked(2, 1), Some([15, 16, 17]));
    assert_eq!(image.pixel_checked(3, 1), None);
    assert_eq!(image.pixel_checked(0, 2), None);
    assert_eq!(image.pixel_checked(u32::MAX, u32::MAX), None);
}
