//! Turning a captured frame into the text that the thumbnail server sends
//! back: the screen's RGBA rows are flipped top to bottom (the frame buffer
//! starts at the bottom row), encoded as an 8-bit RGBA PNG, and the PNG is
//! encoded as standard base64.
use vstd::prelude::*;

verus! {

/// The RGBA buffer of a `width` x `height` image with its rows in reverse
/// order; only the first `4 * width * height` bytes of `pixels` are read.
pub open spec fn flipped_rows(pixels: Seq<u8>, width: nat, height: nat) -> Seq<u8> {
    let row = 4 * width;
    Seq::new(row * height, |i: int| pixels[(height - 1 - i / (row as int)) * row + i % (row as int)])
}

/// The character of a six-bit value in the standard base64 alphabet.
pub open spec fn base64_char(v: int) -> char {
    if v < 26 {
        (65 + v) as char
    } else if v < 52 {
        (97 + v - 26) as char
    } else if v < 62 {
        (48 + v - 52) as char
    } else if v == 62 {
        '+'
    } else {
        '/'
    }
}

/// Standard base64 with `=` padding (RFC 4648): every three bytes become four
/// characters, and a final group of one or two bytes is padded.
pub open spec fn base64_standard(data: Seq<u8>) -> Seq<char>
    decreases data.len(),
{
    if data.len() == 0 {
        Seq::empty()
    } else if data.len() == 1 {
        let a = data[0] as int;
        seq![base64_char(a / 4), base64_char((a % 4) * 16), '=', '=']
    } else if data.len() == 2 {
        let a = data[0] as int;
        let b = data[1] as int;
        seq![base64_char(a / 4), base64_char((a % 4) * 16 + b / 16), base64_char((b % 16) * 4), '=']
    } else {
        let a = data[0] as int;
        let b = data[1] as int;
        let c = data[2] as int;
        seq![
            base64_char(a / 4),
            base64_char((a % 4) * 16 + b / 16),
            base64_char((b % 16) * 4 + c / 64),
            base64_char(c % 64),
        ] + base64_standard(data.skip(3))
    }
}

/// Flipping puts row `r` of the result where row `height - 1 - r` of the
/// input was, byte for byte, and holds exactly `width * height` pixels.
pub proof fn lemma_flipped_rows_layout(pixels: Seq<u8>, width: nat, height: nat, r: int, k: int)
    requires
        0 <= r < height,
        0 <= k < 4 * width,
    ensures
        flipped_rows(pixels, width, height).len() == 4 * width * height,
        0 <= r * (4 * width) + k < 4 * width * height,
        flipped_rows(pixels, width, height)[r * (4 * width) + k] == pixels[(height - 1 - r) * (4
            * width) + k],
{
    let row = (4 * width) as int;
    let i = r * row + k;
    vstd::arithmetic::div_mod::lemma_fundamental_div_mod_converse(i, row, r, k);
    assert(row * height == 4 * width * height) by (nonlinear_arith)
        requires
            row == 4 * width,
    ;
    assert(0 <= i < row * height) by (nonlinear_arith)
        requires
            0 <= r < height,
            0 <= k < row,
            i == r * row + k,
    ;
}

/// Flipping twice gives back the image: the first `width * height` pixels of
/// the input.
pub proof fn lemma_flip_twice(pixels: Seq<u8>, width: nat, height: nat)
    requires
        pixels.len() >= 4 * width * height,
    ensures
        flipped_rows(flipped_rows(pixels, width, height), width, height) == pixels.take(
            (4 * width * height) as int,
        ),
{
    let row = (4 * width) as int;
    let once = flipped_rows(pixels, width, height);
    let twice = flipped_rows(once, width, height);
    assert(row * height == 4 * width * height) by (nonlinear_arith)
        requires
            row == 4 * width,
    ;
    assert forall|i: int| 0 <= i < twice.len() implies #[trigger] twice[i] == pixels[i] by {
        let r = i / row;
        let k = i % row;
        assert(row > 0) by (nonlinear_arith)
            requires
                0 <= i < row * height,
        ;
        vstd::arithmetic::div_mod::lemma_fundamental_div_mod(i, row);
        assert(0 <= r < height) by (nonlinear_arith)
            requires
                0 <= i < row * height,
                row > 0,
                r == i / row,
        ;
        assert(0 <= k < row);
        lemma_flipped_rows_layout(once, width, height, r, k);
        lemma_flipped_rows_layout(pixels, width, height, height - 1 - r, k);
        assert(i == r * row + k);
    }
    assert(twice =~= pixels.take((4 * width * height) as int));
}

/// Base64 output is four characters for every three bytes or final part of
/// them.
pub proof fn lemma_base64_length(data: Seq<u8>)
    ensures
        base64_standard(data).len() == 4 * ((data.len() + 2) / 3),
    decreases data.len(),
{
    if data.len() >= 3 {
        lemma_base64_length(data.skip(3));
    }
}

/// Base64 works three bytes at a time: a whole number of three-byte groups
/// followed by more bytes encodes as the groups' text followed by the rest's.
pub proof fn lemma_base64_concat(a: Seq<u8>, b: Seq<u8>)
    requires
        a.len() % 3 == 0,
    ensures
        base64_standard(a + b) == base64_standard(a) + base64_standard(b),
    decreases a.len(),
{
    if a.len() == 0 {
        assert(a + b =~= b);
        assert(base64_standard(a) + base64_standard(b) =~= base64_standard(b));
    } else {
        lemma_base64_concat(a.skip(3), b);
        assert((a + b).skip(3) =~= a.skip(3) + b);
        assert((a + b)[0] == a[0] && (a + b)[1] == a[1] && (a + b)[2] == a[2]);
    }
}

/// The standard alphabet: values 0 to 25 are `A` to `Z`, 26 to 51 are `a`
/// to `z`, 52 to 61 are `0` to `9`, 62 is `+` and 63 is `/`.
pub proof fn lemma_base64_alphabet(v: int)
    requires
        0 <= v < 64,
    ensures
        v < 26 ==> base64_char(v) as u32 == 'A' as u32 + v,
        26 <= v < 52 ==> base64_char(v) as u32 == 'a' as u32 + (v - 26),
        52 <= v < 62 ==> base64_char(v) as u32 == '0' as u32 + (v - 52),
        v == 62 ==> base64_char(v) == '+',
        v == 63 ==> base64_char(v) == '/',
{
}

/// Three bytes become four characters whose six-bit values, read in order,
/// are the same 24 bits; one byte becomes two characters carrying its 8 bits
/// then four zero bits, and `==`; two bytes become three characters carrying
/// their 16 bits then two zero bits, and `=`.
pub proof fn lemma_base64_groups(a: u8, b: u8, c: u8)
    ensures
        exists|q0: int, q1: int, q2: int, q3: int|
            0 <= q0 < 64 && 0 <= q1 < 64 && 0 <= q2 < 64 && 0 <= q3 < 64 && q0 * 262144 + q1
                * 4096 + q2 * 64 + q3 == a * 65536 + b * 256 + c && base64_standard(seq![a, b, c])
                == seq![base64_char(q0), base64_char(q1), base64_char(q2), base64_char(q3)],
        exists|q0: int, q1: int|
            0 <= q0 < 64 && 0 <= q1 < 64 && q0 * 64 + q1 == a * 16 && base64_standard(seq![a])
                == seq![base64_char(q0), base64_char(q1), '=', '='],
        exists|q0: int, q1: int, q2: int|
            0 <= q0 < 64 && 0 <= q1 < 64 && 0 <= q2 < 64 && q0 * 4096 + q1 * 64 + q2 == (a * 256
                + b) * 4 && base64_standard(seq![a, b]) == seq![
                base64_char(q0),
                base64_char(q1),
                base64_char(q2),
                '=',
            ],
{
    let x = a as int;
    let y = b as int;
    let z = c as int;
    let three = seq![a, b, c];
    assert(three.skip(3) =~= Seq::<u8>::empty());
    assert(base64_standard(three.skip(3)) == Seq::<char>::empty());
    assert(three[0] == a && three[1] == b && three[2] == c);
    assert(base64_standard(three) =~= seq![
        base64_char(x / 4),
        base64_char((x % 4) * 16 + y / 16),
        base64_char((y % 16) * 4 + z / 64),
        base64_char(z % 64),
    ]);
    assert((x / 4) * 262144 + ((x % 4) * 16 + y / 16) * 4096 + ((y % 16) * 4 + z / 64) * 64 + z
        % 64 == x * 65536 + y * 256 + z) by (nonlinear_arith)
        requires
            0 <= x < 256,
            0 <= y < 256,
            0 <= z < 256,
    ;
    assert(0 <= (x % 4) * 16 + y / 16 < 64 && 0 <= (y % 16) * 4 + z / 64 < 64) by (
    nonlinear_arith)
        requires
            0 <= x < 256,
            0 <= y < 256,
            0 <= z < 256,
    ;
    assert((x / 4) * 64 + (x % 4) * 16 == x * 16) by (nonlinear_arith)
        requires
            0 <= x < 256,
    ;
    assert((x / 4) * 4096 + ((x % 4) * 16 + y / 16) * 64 + (y % 16) * 4 == (x * 256 + y) * 4)
        by (nonlinear_arith)
        requires
            0 <= x < 256,
            0 <= y < 256,
    ;
    assert(base64_standard(seq![a, b]) =~= seq![
        base64_char(x / 4),
        base64_char((x % 4) * 16 + y / 16),
        base64_char((y % 16) * 4),
        '=',
    ]);
    assert(base64_standard(seq![a]) =~= seq![
        base64_char(x / 4),
        base64_char((x % 4) * 16),
        '=',
        '=',
    ]);
}

/// The bytes that the `png` crate writes for an 8-bit RGBA image of the given
/// size and pixels, with its default settings.
pub uninterp spec fn png_rgba8(width: u32, height: u32, pixels: Seq<u8>) -> Seq<u8>;

/// `image::RgbaImage::from_raw` followed by `DynamicImage::flipv`: `None` when
/// the buffer is shorter than the image (`from_raw` refuses it), else the
/// image's rows in reverse order.
#[verifier::external_body]
fn flip_rgba8_rows(width: u32, height: u32, pixels: Vec<u8>) -> (res: Option<Vec<u8>>)
    ensures
        res is Some <==> 4 * width * height <= pixels.len(),
        res matches Some(out) ==> out@ == flipped_rows(pixels@, width as nat, height as nat),
{
    let image = image::RgbaImage::from_raw(width, height, pixels)?;
    Some(image::DynamicImage::ImageRgba8(image).flipv().into_rgba8().into_vec())
}

/// The `png` encoder (`Encoder::new`, RGBA colour, 8-bit depth,
/// `write_header`, `write_image_data`, then the writer is dropped, which
/// ends the stream) writing into a vector. Its output is named, not stated;
/// the contract adds only that it is a vector (so no longer than
/// `isize::MAX`). `write_header` fails for a zero width or height, and
/// `write_image_data` for a buffer of the wrong length; `requires` leaves
/// those out.
#[verifier::external_body]
fn encode_png_rgba8(width: u32, height: u32, pixels: &[u8]) -> (res: Vec<u8>)
    requires
        width > 0,
        height > 0,
        pixels.len() == 4 * width * height,
    ensures
        res@ == png_rgba8(width, height, pixels@),
        res.len() <= isize::MAX,
{
    let mut out: Vec<u8> = Vec::new();
    {
        let mut encoder = png::Encoder::new(&mut out, width, height);
        encoder.set_color(png::ColorType::Rgba);
        encoder.set_depth(png::BitDepth::Eight);
        let mut writer = encoder.write_header().unwrap();
        writer.write_image_data(pixels).unwrap();
    }
    out
}

/// `base64::Engine::encode` with `general_purpose::STANDARD` (standard
/// alphabet, padded). It panics when the output length overflows `usize`,
/// which `requires` leaves out.
#[verifier::external_body]
fn base64_encode_standard(data: &[u8]) -> (res: String)
    requires
        4 * ((data.len() + 2) / 3) <= usize::MAX,
    ensures
        res@ == base64_standard(data@),
{
    base64::Engine::encode(&base64::engine::general_purpose::STANDARD, data)
}

/// The image that the server returns for a captured frame of the given size:
/// `None` when the screen buffer is too short for the frame, else the flipped
/// frame as a PNG in base64.
pub fn encode_capture(width: u32, height: u32, screen: Vec<u8>) -> (res: Option<String>)
    requires
        width > 0,
        height > 0,
    ensures
        res is None <==> screen.len() < 4 * width * height,
        res matches Some(text) ==> text@ == base64_standard(
            png_rgba8(width, height, flipped_rows(screen@, width as nat, height as nat)),
        ),
{
    let ghost frame = screen@;
    let flipped = match flip_rgba8_rows(width, height, screen) {
        Some(f) => f,
        None => return None,
    };
    assert(flipped@.len() == 4 * width * height) by (nonlinear_arith)
        requires
            flipped@ == flipped_rows(frame, width as nat, height as nat),
    {
    }
    let png = encode_png_rgba8(width, height, flipped.as_slice());
    assert(4 * ((png.len() + 2) / 3) <= usize::MAX) by (nonlinear_arith)
        requires
            png.len() <= isize::MAX,
            usize::MAX == 2 * isize::MAX + 1,
    {
    }
    Some(base64_encode_standard(png.as_slice()))
}

} // verus!
