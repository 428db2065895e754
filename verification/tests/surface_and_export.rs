use rasterizer::export::{bgra_to_rgba, bmp_of_surface};
use rasterizer::surface::{
    channel_of, draw_point, get_color, get_color_component, Channel, Surface,
};
use rasterizer::Point;

#[test]
fn color_components_select_the_channel_bytes() {
    let c: u32 = 0xAA112233;
    assert_eq!(get_color_component(c, 'r'), 0x11);
    assert_eq!(get_color_component(c, 'R'), 0x11);
    assert_eq!(get_color_component(c, 'g'), 0x22);
    assert_eq!(get_color_component(c, 'G'), 0x22);
    assert_eq!(get_color_component(c, 'b'), 0x33);
    assert_eq!(get_color_component(c, 'B'), 0x33);
    assert_eq!(channel_of(c, Channel::Alpha), 0xAA);
    assert_eq!(channel_of(c, Channel::Red), 0x11);
    assert_eq!(channel_of(c, Channel::Green), 0x22);
    assert_eq!(channel_of(c, Channel::Blue), 0x33);
}

#[test]
fn get_color_decodes_the_byte_buffer() {
    // Two pixels of a one-row frame, four bytes each in blue, green, red,
    // alpha order.
    let pixels: Vec<u8> = vec![0x33, 0x22, 0x11, 0xAA, 0x77, 0x66, 0x55, 0xFF];
    assert_eq!(get_color(Point::new(0, 0), 2, &pixels), 0xAA112233);
    assert_eq!(get_color(Point::new(1, 0), 2, &pixels), 0xFF556677);
}

#[test]
fn read_pixels_round_trips_through_get_color() {
    let mut s = Surface::new(4, 3, 0xFF000000);
    s.set_pixel(2, 1, 0x12345678);
    let bytes = s.read_pixels();
    assert_eq!(bytes.len(), 4 * 4 * 3);
    assert_eq!(get_color(Point::new(2, 1), 4, &bytes), 0x12345678);
    assert_eq!(get_color(Point::new(0, 0), 4, &bytes), 0xFF000000);
}

#[test]
fn draw_point_writes_the_opaque_color() {
    let mut s = Surface::new(8, 8, 0xFF000000);
    draw_point(2, 3, 0x00ABCDEF, &mut s);
    assert_eq!(s.get(2, 3), 0xFFABCDEF);
}

#[test]
fn out_of_bounds_writes_are_ignored() {
    let mut s = Surface::new(4, 4, 0xFF101010);
    s.set_pixel(-1, 0, 0xFFFFFFFF);
    s.set_pixel(0, -1, 0xFFFFFFFF);
    s.set_pixel(4, 0, 0xFFFFFFFF);
    s.set_pixel(0, 4, 0xFFFFFFFF);
    for y in 0..4 {
        for x in 0..4 {
            assert_eq!(s.get(x, y), 0xFF101010);
        }
    }
}

#[test]
fn bgra_to_rgba_swaps_blue_and_red() {
    let bgra: Vec<u8> = vec![1, 2, 3, 4, 5, 6, 7, 8];
    let rgba = bgra_to_rgba(&bgra);
    assert_eq!(rgba, vec![3, 2, 1, 4, 7, 6, 5, 8]);
}

#[test]
fn bmp_of_surface_encodes_a_bmp_file_image() {
    let s = Surface::new(2, 2, 0xFF00FF00);
    let bmp = bmp_of_surface(&s);
    // A BMP file image: the "BM" magic, a 122-byte header, four bytes per
    // pixel. The output is not the raw pixel buffer handed back.
    assert_eq!(bmp.len(), 122 + 4 * 2 * 2);
    assert_eq!(bmp[0], b'B');
    assert_eq!(bmp[1], b'M');
    assert_ne!(bmp, s.read_pixels());
}

#[test]
fn bmp_output_depends_on_the_pixels() {
    let s1 = Surface::new(2, 2, 0xFF00FF00);
    let mut s2 = Surface::new(2, 2, 0xFF00FF00);
    s2.set_pixel(0, 0, 0xFF0000FF);
    assert_ne!(bmp_of_surface(&s1), bmp_of_surface(&s2));
}
