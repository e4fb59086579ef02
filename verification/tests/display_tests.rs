use chip8::display::{PixelBuffer, Sprite};

#[test]
fn test_sprite() {
    let bytes = &[0xF0, 0x90, 0x90, 0x90, 0xF0];
    let _sprite = Sprite::new(bytes);
}

#[test]
fn sprite_decodes_bits_most_significant_first() {
    let sprite = Sprite::new(&[0xA5]);
    // 0xA5 = 1010 0101: columns 0, 2, 5 and 7 are lit.
    assert_eq!(sprite.pixels(), vec![(0, 0), (2, 0), (5, 0), (7, 0)]);

    let tall = Sprite::new(&[0x80, 0x01]);
    assert_eq!(tall.pixels(), vec![(0, 0), (7, 1)]);

    let empty = Sprite::new(&[]);
    assert_eq!(empty.pixels(), vec![]);
}

#[test]
fn drawing_sets_pixels_and_reports_no_collision_on_blank() {
    let mut pb = PixelBuffer::new(64, 32);
    let sprite = Sprite::new(&[0xF0, 0x90]);
    let collision = pb.add_sprite(10, 5, sprite);
    assert!(!collision);
    assert!(pb.pixel(10, 5));
    assert!(pb.pixel(11, 5));
    assert!(pb.pixel(12, 5));
    assert!(pb.pixel(13, 5));
    assert!(!pb.pixel(14, 5));
    assert!(pb.pixel(10, 6));
    assert!(!pb.pixel(11, 6));
    assert!(!pb.pixel(12, 6));
    assert!(pb.pixel(13, 6));
}

#[test]
fn drawing_twice_clears_and_collides() {
    let mut pb = PixelBuffer::new(64, 32);
    let bytes = [0xF0, 0x90, 0x90, 0x90, 0xF0];
    let first = pb.add_sprite(10, 5, Sprite::new(&bytes));
    assert!(!first);
    let second = pb.add_sprite(10, 5, Sprite::new(&bytes));
    assert!(second);
    for y in 0..32 {
        for x in 0..64 {
            assert!(!pb.pixel(x, y));
        }
    }
}

#[test]
fn overlap_of_a_single_pixel_collides() {
    let mut pb = PixelBuffer::new(64, 32);
    assert!(!pb.add_sprite(0, 0, Sprite::new(&[0xF0])));
    let collision = pb.add_sprite(3, 0, Sprite::new(&[0x80]));
    assert!(collision);
    assert!(!pb.pixel(3, 0));
    assert!(pb.pixel(2, 0));
}

#[test]
fn drawing_wraps_around_the_edges() {
    let mut pb = PixelBuffer::new(64, 32);
    // Two lit columns at x = 63 and x = 64 % 64 = 0.
    assert!(!pb.add_sprite(63, 0, Sprite::new(&[0xC0])));
    assert!(pb.pixel(63, 0));
    assert!(pb.pixel(0, 0));
    assert!(!pb.pixel(1, 0));

    // Two rows at y = 31 and y = 32 % 32 = 0.
    let mut tall = PixelBuffer::new(64, 32);
    assert!(!tall.add_sprite(5, 31, Sprite::new(&[0x80, 0x80])));
    assert!(tall.pixel(5, 31));
    assert!(tall.pixel(5, 0));
}

#[test]
fn clear_turns_every_pixel_off() {
    let mut pb = PixelBuffer::new(64, 32);
    pb.add_sprite(1, 2, Sprite::new(&[0xFF]));
    assert!(pb.pixel(1, 2));
    pb.clear();
    for y in 0..32 {
        for x in 0..64 {
            assert!(!pb.pixel(x, y));
        }
    }
    assert_eq!(pb.columns, 64);
    assert_eq!(pb.rows, 32);
}
