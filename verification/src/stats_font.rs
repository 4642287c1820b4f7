use vstd::prelude::*;

verus! {

/// `c` with the ASCII letters `a` to `z` mapped to `A` to `Z`; every other character is
/// unchanged.
pub open spec fn ascii_upper(c: char) -> char {
    if 'a' <= c && c <= 'z' {
        ((c as u32) - 32) as char
    } else {
        c
    }
}

/// Maps the ASCII letters `a` to `z` to `A` to `Z`.
pub fn to_ascii_upper(c: char) -> (u: char)
    ensures
        u == ascii_upper(c),
{
    if c >= 'a' && c <= 'z' {
        let code = c as u32 - 32;
        assert(code < 128);
        (code as u8) as char
    } else {
        c
    }
}

/// The twelve eight-pixel rows of the leaderboard font's glyph for `c`, top row first,
/// most significant bit leftmost: a blank for the space and a solid block for a
/// character the font lacks.
pub open spec fn stats_glyph_rows(c: char) -> Seq<u8> {
    match c {
        ':' => seq![0x00u8, 0x00u8, 0x30u8, 0x30u8, 0x00u8, 0x00u8, 0x30u8, 0x30u8, 0x00u8, 0x00u8, 0x00u8, 0x00u8],
        '0' => seq![0x7Eu8, 0x66u8, 0x66u8, 0x66u8, 0x66u8, 0x66u8, 0x66u8, 0x66u8, 0x66u8, 0x66u8, 0x66u8, 0x7Eu8],
        '1' => seq![0x18u8, 0x38u8, 0x78u8, 0x18u8, 0x18u8, 0x18u8, 0x18u8, 0x18u8, 0x18u8, 0x18u8, 0x18u8, 0xFFu8],
        '2' => seq![0x7Eu8, 0xC3u8, 0xC3u8, 0x03u8, 0x06u8, 0x0Cu8, 0x18u8, 0x30u8, 0x60u8, 0xC0u8, 0xC3u8, 0xFFu8],
        '3' => seq![0x7Eu8, 0xC3u8, 0x03u8, 0x03u8, 0x06u8, 0x3Cu8, 0x06u8, 0x03u8, 0x03u8, 0xC3u8, 0xC3u8, 0x7Eu8],
        '4' => seq![0x06u8, 0x0Eu8, 0x1Eu8, 0x36u8, 0x66u8, 0xC6u8, 0xC6u8, 0xFFu8, 0xFFu8, 0x06u8, 0x06u8, 0x06u8],
        '5' => seq![0xFFu8, 0xC0u8, 0xC0u8, 0xC0u8, 0xFEu8, 0xC3u8, 0x03u8, 0x03u8, 0x03u8, 0xC3u8, 0xC3u8, 0x7Eu8],
        '6' => seq![0x3Eu8, 0x63u8, 0xC0u8, 0xC0u8, 0xDEu8, 0xE3u8, 0xC3u8, 0xC3u8, 0xC3u8, 0xC3u8, 0x63u8, 0x3Eu8],
        '7' => seq![0xFFu8, 0xC3u8, 0x06u8, 0x06u8, 0x0Cu8, 0x0Cu8, 0x18u8, 0x18u8, 0x30u8, 0x30u8, 0x60u8, 0x60u8],
        '8' => seq![0x7Eu8, 0xC3u8, 0xC3u8, 0xC3u8, 0x66u8, 0x3Cu8, 0x66u8, 0xC3u8, 0xC3u8, 0xC3u8, 0xC3u8, 0x7Eu8],
        '9' => seq![0x7Eu8, 0xC6u8, 0xC3u8, 0xC3u8, 0xC3u8, 0xC3u8, 0xC7u8, 0x7Bu8, 0x03u8, 0x03u8, 0xC6u8, 0x7Cu8],
        'A' => seq![0x3Cu8, 0x66u8, 0x66u8, 0xC3u8, 0xC3u8, 0xC3u8, 0xFFu8, 0xFFu8, 0xC3u8, 0xC3u8, 0xC3u8, 0xC3u8],
        'B' => seq![0xFEu8, 0xC3u8, 0xC3u8, 0xC3u8, 0xC6u8, 0xFCu8, 0xFEu8, 0xC3u8, 0xC3u8, 0xC3u8, 0xC3u8, 0xFEu8],
        'C' => seq![0x7Eu8, 0xC3u8, 0xC0u8, 0xC0u8, 0xC0u8, 0xC0u8, 0xC0u8, 0xC0u8, 0xC0u8, 0xC0u8, 0xC3u8, 0x7Eu8],
        'D' => seq![0xFCu8, 0xC6u8, 0xC3u8, 0xC3u8, 0xC3u8, 0xC3u8, 0xC3u8, 0xC3u8, 0xC3u8, 0xC3u8, 0xC6u8, 0xFCu8],
        'E' => seq![0xFFu8, 0xC0u8, 0xC0u8, 0xC0u8, 0xC0u8, 0xFCu8, 0xFCu8, 0xC0u8, 0xC0u8, 0xC0u8, 0xC0u8, 0xFFu8],
        'F' => seq![0xFFu8, 0xC0u8, 0xC0u8, 0xC0u8, 0xFCu8, 0xC0u8, 0xC0u8, 0xC0u8, 0xC0u8, 0xC0u8, 0xC0u8, 0xC0u8],
        'G' => seq![0x7Eu8, 0xC3u8, 0xC0u8, 0xC0u8, 0xC0u8, 0xCFu8, 0xCFu8, 0xC3u8, 0xC3u8, 0xC3u8, 0xC3u8, 0x7Eu8],
        'H' => seq![0xC3u8, 0xC3u8, 0xC3u8, 0xC3u8, 0xFFu8, 0xFFu8, 0xC3u8, 0xC3u8, 0xC3u8, 0xC3u8, 0xC3u8, 0xC3u8],
        'I' => seq![0xFFu8, 0x18u8, 0x18u8, 0x18u8, 0x18u8, 0x18u8, 0x18u8, 0x18u8, 0x18u8, 0x18u8, 0x18u8, 0xFFu8],
        'J' => seq![0xFFu8, 0x0Cu8, 0x0Cu8, 0x0Cu8, 0x0Cu8, 0x0Cu8, 0x0Cu8, 0xCCu8, 0xCCu8, 0xCCu8, 0x78u8, 0x00u8],
        'K' => seq![0xC6u8, 0xCCu8, 0xD8u8, 0xF0u8, 0xF0u8, 0xD8u8, 0xCCu8, 0xC6u8, 0xC3u8, 0xC3u8, 0xC3u8, 0xC3u8],
        'L' => seq![0xC0u8, 0xC0u8, 0xC0u8, 0xC0u8, 0xC0u8, 0xC0u8, 0xC0u8, 0xC0u8, 0xC0u8, 0xC0u8, 0xFFu8, 0xFFu8],
        'M' => seq![0xC3u8, 0xE7u8, 0xFFu8, 0xFFu8, 0xDBu8, 0xDBu8, 0xC3u8, 0xC3u8, 0xC3u8, 0xC3u8, 0xC3u8, 0xC3u8],
        'N' => seq![0xC3u8, 0xE3u8, 0xF3u8, 0xFBu8, 0xDFu8, 0xCFu8, 0xC7u8, 0xC3u8, 0xC3u8, 0xC3u8, 0xC3u8, 0xC3u8],
        'O' => seq![0x7Eu8, 0xC3u8, 0xC3u8, 0xC3u8, 0xC3u8, 0xC3u8, 0xC3u8, 0xC3u8, 0xC3u8, 0xC3u8, 0xC3u8, 0x7Eu8],
        'P' => seq![0xFEu8, 0xC3u8, 0xC3u8, 0xC3u8, 0xFEu8, 0xC0u8, 0xC0u8, 0xC0u8, 0xC0u8, 0xC0u8, 0xC0u8, 0xC0u8],
        'Q' => seq![0x7Eu8, 0xC3u8, 0xC3u8, 0xC3u8, 0xC3u8, 0xC3u8, 0xC3u8, 0xC3u8, 0xCBu8, 0xC7u8, 0x7Eu8, 0x03u8],
        'R' => seq![0xFEu8, 0xC3u8, 0xC3u8, 0xC3u8, 0xFEu8, 0xF0u8, 0xD8u8, 0xCCu8, 0xC6u8, 0xC3u8, 0xC3u8, 0xC3u8],
        'S' => seq![0x7Eu8, 0xC3u8, 0xC0u8, 0xC0u8, 0x7Eu8, 0x03u8, 0x03u8, 0x03u8, 0xC3u8, 0xC3u8, 0xC3u8, 0x7Eu8],
        'T' => seq![0xFFu8, 0xFFu8, 0x18u8, 0x18u8, 0x18u8, 0x18u8, 0x18u8, 0x18u8, 0x18u8, 0x18u8, 0x18u8, 0x18u8],
        'U' => seq![0xC3u8, 0xC3u8, 0xC3u8, 0xC3u8, 0xC3u8, 0xC3u8, 0xC3u8, 0xC3u8, 0xC3u8, 0xC3u8, 0xC3u8, 0x7Eu8],
        'V' => seq![0xC3u8, 0xC3u8, 0xC3u8, 0xC3u8, 0xC3u8, 0x66u8, 0x66u8, 0x66u8, 0x3Cu8, 0x3Cu8, 0x3Cu8, 0x3Cu8],
        'W' => seq![0xC3u8, 0xC3u8, 0xC3u8, 0xDBu8, 0xE7u8, 0xFFu8, 0xE7u8, 0xDBu8, 0xDBu8, 0xC3u8, 0xC3u8, 0xC3u8],
        'X' => seq![0xC3u8, 0xC3u8, 0x66u8, 0x66u8, 0x3Cu8, 0x3Cu8, 0x3Cu8, 0x66u8, 0x66u8, 0xC3u8, 0xC3u8, 0xC3u8],
        'Y' => seq![0xC3u8, 0x66u8, 0x3Cu8, 0x3Cu8, 0x3Cu8, 0x3Cu8, 0x3Cu8, 0x3Cu8, 0x3Cu8, 0x3Cu8, 0x3Cu8, 0x3Cu8],
        'Z' => seq![0xFFu8, 0xC3u8, 0x24u8, 0x18u8, 0x24u8, 0xC3u8, 0x24u8, 0x18u8, 0x24u8, 0xC3u8, 0xC3u8, 0xFFu8],
        '(' => seq![0x0Cu8, 0x18u8, 0x30u8, 0x30u8, 0x60u8, 0x60u8, 0x60u8, 0x60u8, 0x30u8, 0x30u8, 0x18u8, 0x0Cu8],
        ')' => seq![0x30u8, 0x18u8, 0x0Cu8, 0x0Cu8, 0x06u8, 0x06u8, 0x06u8, 0x06u8, 0x0Cu8, 0x0Cu8, 0x18u8, 0x30u8],
        '-' => seq![0x00u8, 0x00u8, 0x00u8, 0x00u8, 0x00u8, 0x00u8, 0xFFu8, 0x00u8, 0x00u8, 0x00u8, 0x00u8, 0x00u8],
        ' ' => seq![0x00u8, 0x00u8, 0x00u8, 0x00u8, 0x00u8, 0x00u8, 0x00u8, 0x00u8, 0x00u8, 0x00u8, 0x00u8, 0x00u8],
        _ => seq![0xFFu8, 0xFFu8, 0xFFu8, 0xFFu8, 0xFFu8, 0xFFu8, 0xFFu8, 0xFFu8, 0xFFu8, 0xFFu8, 0xFFu8, 0xFFu8],
    }
}

/// The rows of the leaderboard font's glyph for `c`.
fn stats_glyph_row_bits(c: char) -> (rows: [u8; 12])
    ensures
        rows@ == stats_glyph_rows(c),
{
    match c {
        ':' => [0x00, 0x00, 0x30, 0x30, 0x00, 0x00, 0x30, 0x30, 0x00, 0x00, 0x00, 0x00],
        '0' => [0x7E, 0x66, 0x66, 0x66, 0x66, 0x66, 0x66, 0x66, 0x66, 0x66, 0x66, 0x7E],
        '1' => [0x18, 0x38, 0x78, 0x18, 0x18, 0x18, 0x18, 0x18, 0x18, 0x18, 0x18, 0xFF],
        '2' => [0x7E, 0xC3, 0xC3, 0x03, 0x06, 0x0C, 0x18, 0x30, 0x60, 0xC0, 0xC3, 0xFF],
        '3' => [0x7E, 0xC3, 0x03, 0x03, 0x06, 0x3C, 0x06, 0x03, 0x03, 0xC3, 0xC3, 0x7E],
        '4' => [0x06, 0x0E, 0x1E, 0x36, 0x66, 0xC6, 0xC6, 0xFF, 0xFF, 0x06, 0x06, 0x06],
        '5' => [0xFF, 0xC0, 0xC0, 0xC0, 0xFE, 0xC3, 0x03, 0x03, 0x03, 0xC3, 0xC3, 0x7E],
        '6' => [0x3E, 0x63, 0xC0, 0xC0, 0xDE, 0xE3, 0xC3, 0xC3, 0xC3, 0xC3, 0x63, 0x3E],
        '7' => [0xFF, 0xC3, 0x06, 0x06, 0x0C, 0x0C, 0x18, 0x18, 0x30, 0x30, 0x60, 0x60],
        '8' => [0x7E, 0xC3, 0xC3, 0xC3, 0x66, 0x3C, 0x66, 0xC3, 0xC3, 0xC3, 0xC3, 0x7E],
        '9' => [0x7E, 0xC6, 0xC3, 0xC3, 0xC3, 0xC3, 0xC7, 0x7B, 0x03, 0x03, 0xC6, 0x7C],
        'A' => [0x3C, 0x66, 0x66, 0xC3, 0xC3, 0xC3, 0xFF, 0xFF, 0xC3, 0xC3, 0xC3, 0xC3],
        'B' => [0xFE, 0xC3, 0xC3, 0xC3, 0xC6, 0xFC, 0xFE, 0xC3, 0xC3, 0xC3, 0xC3, 0xFE],
        'C' => [0x7E, 0xC3, 0xC0, 0xC0, 0xC0, 0xC0, 0xC0, 0xC0, 0xC0, 0xC0, 0xC3, 0x7E],
        'D' => [0xFC, 0xC6, 0xC3, 0xC3, 0xC3, 0xC3, 0xC3, 0xC3, 0xC3, 0xC3, 0xC6, 0xFC],
        'E' => [0xFF, 0xC0, 0xC0, 0xC0, 0xC0, 0xFC, 0xFC, 0xC0, 0xC0, 0xC0, 0xC0, 0xFF],
        'F' => [0xFF, 0xC0, 0xC0, 0xC0, 0xFC, 0xC0, 0xC0, 0xC0, 0xC0, 0xC0, 0xC0, 0xC0],
        'G' => [0x7E, 0xC3, 0xC0, 0xC0, 0xC0, 0xCF, 0xCF, 0xC3, 0xC3, 0xC3, 0xC3, 0x7E],
        'H' => [0xC3, 0xC3, 0xC3, 0xC3, 0xFF, 0xFF, 0xC3, 0xC3, 0xC3, 0xC3, 0xC3, 0xC3],
        'I' => [0xFF, 0x18, 0x18, 0x18, 0x18, 0x18, 0x18, 0x18, 0x18, 0x18, 0x18, 0xFF],
        'J' => [0xFF, 0x0C, 0x0C, 0x0C, 0x0C, 0x0C, 0x0C, 0xCC, 0xCC, 0xCC, 0x78, 0x00],
        'K' => [0xC6, 0xCC, 0xD8, 0xF0, 0xF0, 0xD8, 0xCC, 0xC6, 0xC3, 0xC3, 0xC3, 0xC3],
        'L' => [0xC0, 0xC0, 0xC0, 0xC0, 0xC0, 0xC0, 0xC0, 0xC0, 0xC0, 0xC0, 0xFF, 0xFF],
        'M' => [0xC3, 0xE7, 0xFF, 0xFF, 0xDB, 0xDB, 0xC3, 0xC3, 0xC3, 0xC3, 0xC3, 0xC3],
        'N' => [0xC3, 0xE3, 0xF3, 0xFB, 0xDF, 0xCF, 0xC7, 0xC3, 0xC3, 0xC3, 0xC3, 0xC3],
        'O' => [0x7E, 0xC3, 0xC3, 0xC3, 0xC3, 0xC3, 0xC3, 0xC3, 0xC3, 0xC3, 0xC3, 0x7E],
        'P' => [0xFE, 0xC3, 0xC3, 0xC3, 0xFE, 0xC0, 0xC0, 0xC0, 0xC0, 0xC0, 0xC0, 0xC0],
        'Q' => [0x7E, 0xC3, 0xC3, 0xC3, 0xC3, 0xC3, 0xC3, 0xC3, 0xCB, 0xC7, 0x7E, 0x03],
        'R' => [0xFE, 0xC3, 0xC3, 0xC3, 0xFE, 0xF0, 0xD8, 0xCC, 0xC6, 0xC3, 0xC3, 0xC3],
        'S' => [0x7E, 0xC3, 0xC0, 0xC0, 0x7E, 0x03, 0x03, 0x03, 0xC3, 0xC3, 0xC3, 0x7E],
        'T' => [0xFF, 0xFF, 0x18, 0x18, 0x18, 0x18, 0x18, 0x18, 0x18, 0x18, 0x18, 0x18],
        'U' => [0xC3, 0xC3, 0xC3, 0xC3, 0xC3, 0xC3, 0xC3, 0xC3, 0xC3, 0xC3, 0xC3, 0x7E],
        'V' => [0xC3, 0xC3, 0xC3, 0xC3, 0xC3, 0x66, 0x66, 0x66, 0x3C, 0x3C, 0x3C, 0x3C],
        'W' => [0xC3, 0xC3, 0xC3, 0xDB, 0xE7, 0xFF, 0xE7, 0xDB, 0xDB, 0xC3, 0xC3, 0xC3],
        'X' => [0xC3, 0xC3, 0x66, 0x66, 0x3C, 0x3C, 0x3C, 0x66, 0x66, 0xC3, 0xC3, 0xC3],
        'Y' => [0xC3, 0x66, 0x3C, 0x3C, 0x3C, 0x3C, 0x3C, 0x3C, 0x3C, 0x3C, 0x3C, 0x3C],
        'Z' => [0xFF, 0xC3, 0x24, 0x18, 0x24, 0xC3, 0x24, 0x18, 0x24, 0xC3, 0xC3, 0xFF],
        '(' => [0x0C, 0x18, 0x30, 0x30, 0x60, 0x60, 0x60, 0x60, 0x30, 0x30, 0x18, 0x0C],
        ')' => [0x30, 0x18, 0x0C, 0x0C, 0x06, 0x06, 0x06, 0x06, 0x0C, 0x0C, 0x18, 0x30],
        '-' => [0x00, 0x00, 0x00, 0x00, 0x00, 0x00, 0xFF, 0x00, 0x00, 0x00, 0x00, 0x00],
        ' ' => [0x00, 0x00, 0x00, 0x00, 0x00, 0x00, 0x00, 0x00, 0x00, 0x00, 0x00, 0x00],
        _ => [0xFF, 0xFF, 0xFF, 0xFF, 0xFF, 0xFF, 0xFF, 0xFF, 0xFF, 0xFF, 0xFF, 0xFF],
    }
}

/// The eight-by-twelve cell pattern of the leaderboard font for `c`, one entry per pixel
/// in row-major order, 1 where the glyph is lit.
pub open spec fn stats_pattern(c: char) -> Seq<u8> {
    let rows = stats_glyph_rows(c);
    Seq::new(96, |i: int| (rows[i / 8] >> ((7 - i % 8) as u8)) & 1u8)
}

/// The cell pattern of the leaderboard font for `ch`, upper and lower case alike.
pub fn get_char_pattern(ch: char) -> (pattern: Vec<u8>)
    ensures
        pattern@ == stats_pattern(ascii_upper(ch)),
{
    let up = to_ascii_upper(ch);
    let rows = stats_glyph_row_bits(up);
    let ghost target = stats_pattern(up);
    let mut pattern: Vec<u8> = Vec::new();
    let mut r: usize = 0;
    while r < 12
        invariant
            r <= 12,
            rows@ == stats_glyph_rows(up),
            target == stats_pattern(up),
            pattern@.len() == 8 * r,
            forall|i: int| 0 <= i < pattern@.len() ==> #[trigger] pattern@[i] == target[i],
        decreases 12 - r,
    {
        let mut c: usize = 0;
        while c < 8
            invariant
                r < 12,
                c <= 8,
                rows@ == stats_glyph_rows(up),
                target == stats_pattern(up),
                pattern@.len() == 8 * r + c,
                forall|i: int| 0 <= i < pattern@.len() ==> #[trigger] pattern@[i] == target[i],
            decreases 8 - c,
        {
            let bit = (rows[r] >> ((7 - c) as u8)) & 1u8;
            proof {
                let i = 8 * r + c;
                assert(i / 8 == r);
                assert(i % 8 == c);
            }
            pattern.push(bit);
            c = c + 1;
        }
        r = r + 1;
    }
    assert(pattern@ =~= target);
    pattern
}

} // verus!
