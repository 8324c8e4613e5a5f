use base64::Engine;
use lsdblox::capture::encode_capture;

fn decode(text: &str) -> (u32, u32, Vec<u8>) {
    let bytes = base64::engine::general_purpose::STANDARD.decode(text).unwrap();
    let decoder = png::Decoder::new(std::io::Cursor::new(bytes));
    let mut reader = decoder.read_info().unwrap();
    let mut buf = vec![0; reader.output_buffer_size()];
    let info = reader.next_frame(&mut buf).unwrap();
    assert_eq!(info.color_type, png::ColorType::Rgba);
    assert_eq!(info.bit_depth, png::BitDepth::Eight);
    buf.truncate(info.buffer_size());
    (info.width, info.height, buf)
}

#[test]
fn capture_is_flipped_png_in_base64() {
    // two rows of one pixel: red on top of green in the frame buffer
    let screen = vec![255, 0, 0, 255, 0, 255, 0, 255];
    let text = encode_capture(1, 2, screen).unwrap();
    assert!(text.len() % 4 == 0);
    assert!(text.chars().all(|c| c.is_ascii_alphanumeric() || c == '+' || c == '/' || c == '='));
    let (w, h, pixels) = decode(&text);
    assert_eq!((w, h), (1, 2));
    assert_eq!(pixels, vec![0, 255, 0, 255, 255, 0, 0, 255]);
}

#[test]
fn capture_reads_only_the_frame() {
    let screen = vec![1, 2, 3, 4, 5, 6, 7, 8, 9, 10, 11, 12, 99, 99];
    let text = encode_capture(1, 3, screen).unwrap();
    let (_, _, pixels) = decode(&text);
    assert_eq!(pixels, vec![9, 10, 11, 12, 5, 6, 7, 8, 1, 2, 3, 4]);
}

#[test]
fn capture_of_short_buffer_is_refused() {
    assert!(encode_capture(2, 2, vec![0; 15]).is_none());
    assert!(encode_capture(1, 1, Vec::new()).is_none());
}
