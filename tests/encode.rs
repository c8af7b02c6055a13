use sixel::encode::{encode, Image, Palette};
use sixel::Color;

fn sixel(body: &str) -> Vec<u8> {
    let mut v = vec![27u8];
    v.extend_from_slice(b"Pq");
    v.extend_from_slice(body.as_bytes());
    v.push(27);
    v.push(b'\\');
    v
}

#[test]
fn four_columns_use_a_repeat_count() {
    let pixels = vec![0u32; 24];
    let colors = [Color::from_intensity([100, 0, 0])];
    let out = encode(Image { pixels: &pixels, width: 4 }, Palette { colors: &colors });
    assert_eq!(out, sixel("#0;2;100;0;0#0!4~-"));
}

#[test]
fn three_columns_repeat_the_character() {
    let pixels = vec![0u32; 18];
    let colors = [Color::from_intensity([100, 0, 0])];
    let out = encode(Image { pixels: &pixels, width: 3 }, Palette { colors: &colors });
    assert_eq!(out, sixel("#0;2;100;0;0#0~~~-"));
}

#[test]
fn encoding_twice_gives_the_same_bytes() {
    let pixels: Vec<u64> = vec![2, 0, 1, 1, 0, 2, 2, 2, 1];
    let colors = [
        Color::from_intensity([1, 2, 3]),
        Color::from_intensity([4, 5, 6]),
        Color::from_intensity([7, 8, 9]),
    ];
    let image = Image { pixels: &pixels, width: 3 };
    let palette = Palette { colors: &colors };
    assert_eq!(encode(image, palette), encode(image, palette));
}

#[test]
fn output_is_framed_by_header_and_trailer() {
    let pixels: Vec<usize> = vec![1, 0, 0, 1, 1, 1, 0];
    let colors = [Color::from_intensity([0, 0, 0]), Color::from_intensity([100, 100, 100])];
    let out = encode(Image { pixels: &pixels, width: 2 }, Palette { colors: &colors });
    assert_eq!(&out[..3], &[27, b'P', b'q']);
    assert_eq!(&out[out.len() - 3..], &[b'-', 27, b'\\']);
}

#[test]
fn empty_image_has_palette_only() {
    let pixels: Vec<u32> = Vec::new();
    let colors = [Color::from_intensity([0, 50, 100])];
    let out = encode(Image { pixels: &pixels, width: 5 }, Palette { colors: &colors });
    assert_eq!(out, sixel("#0;2;0;50;100"));
}

#[test]
fn colors_come_in_ascending_order() {
    let pixels: Vec<u32> = vec![2, 0];
    let colors = [
        Color::from_intensity([0, 0, 0]),
        Color::from_intensity([50, 50, 50]),
        Color::from_intensity([100, 100, 100]),
    ];
    let out = encode(Image { pixels: &pixels, width: 2 }, Palette { colors: &colors });
    assert_eq!(
        out,
        sixel("#0;2;0;0;0#1;2;50;50;50#2;2;100;100;100#0?@$#2@?-")
    );
}

#[test]
fn short_last_band_sets_fewer_bits() {
    // Seven rows of one column: a full band, then a band of one row.
    let pixels = vec![0u32; 7];
    let colors = [Color::from_intensity([100, 0, 0])];
    let out = encode(Image { pixels: &pixels, width: 1 }, Palette { colors: &colors });
    assert_eq!(out, sixel("#0;2;100;0;0#0~-#0@-"));
}

#[test]
fn height_multiple_of_six_has_only_full_bands() {
    // Twelve rows of two columns: two full bands.
    let pixels = vec![0u32; 24];
    let colors = [Color::from_intensity([100, 0, 0])];
    let out = encode(Image { pixels: &pixels, width: 2 }, Palette { colors: &colors });
    assert_eq!(out, sixel("#0;2;100;0;0#0~~-#0~~-"));
}

#[test]
fn partial_last_row_leaves_columns_empty() {
    // Two full rows of three and one pixel of a third row.
    let pixels = vec![0u32; 7];
    let colors = [Color::from_intensity([100, 0, 0])];
    let out = encode(Image { pixels: &pixels, width: 3 }, Palette { colors: &colors });
    // Column 0 has rows 0, 1, 2 (7 + 63 = 'F'); columns 1 and 2 rows 0, 1 (3 + 63 = 'B').
    assert_eq!(out, sixel("#0;2;100;0;0#0FBB-"));
}

#[test]
fn long_runs_and_large_indices_use_several_digits() {
    let mut pixels = vec![10u32; 12];
    pixels.extend(vec![3u32; 12]);
    let colors: Vec<Color> = (0..11u8).map(|i| Color::from_intensity([i, 0, 100])).collect();
    let out = encode(Image { pixels: &pixels, width: 12 }, Palette { colors: &colors });
    let mut body = String::new();
    for i in 0..11 {
        body.push_str(&format!("#{i};2;{i};0;100"));
    }
    // Row 0 is color 10 (bit 1), row 1 is color 3 (bit 2).
    body.push_str("#3!12A$#10!12@-");
    assert_eq!(out, sixel(&body));
}

#[test]
fn mixed_runs_alternate_characters_and_counts() {
    let pixels: Vec<u32> = vec![0, 0, 0, 0, 0, 1, 0, 0];
    let colors = [Color::from_intensity([0, 0, 0]), Color::from_intensity([9, 9, 9])];
    let out = encode(Image { pixels: &pixels, width: 8 }, Palette { colors: &colors });
    assert_eq!(out, sixel("#0;2;0;0;0#1;2;9;9;9#0!5@?@@$#1!5?@??-"));
}
