//! The monitors' 8-bit code page.
//!
//! ```text
//!  |0 1 2 3 4 5 6 7 8 9 A B C D E F
//! -+--------------------------------
//! 0|  ☺ ☻ ♥ ♦ ♣ ♠ ● ○     ♂ ♀   ♪ ♬
//! 1|▶ ◀ ↕ ‼ ¶ ░ ▬ ↨ ⬆ ⬇ ➡ ⬅ ∟ ⧺ ▲ ▼
//! 2..7: printable ASCII          7F: ▒
//! 8|  sextants U+1FB00 .. U+1FB0E
//! 9|sextants U+1FB0F .. U+1FB1D, with ▌ at 0x95
//! A|▓ ¡ ¢ £ ¤ ¥ ¦ █ ¨ © ª « ¬ ­ ® ¯
//! B..F: Latin-1 0xB0 .. 0xFF
//! ```
//!
//! The pilcrow appears twice in that table, at 0x14 and at 0xB6; text is
//! encoded with 0x14.
use vstd::prelude::*;

verus! {

/// The glyph that the monitor shows for byte `b`, or `None` where the code
/// page assigns no glyph (0x00, 0x09, 0x0A, 0x0D and 0x80).
pub open spec fn cctweaked_glyph(b: u8) -> Option<char> {
    if (0x20 <= b && b <= 0x7e) || (0xa1 <= b && b != 0xa7) {
        // printable ASCII and the upper half of Latin-1 map to themselves
        Some(b as char)
    } else {
        match b {
            0x01 => Some('\u{263a}'),  // ☺
            0x02 => Some('\u{263b}'),  // ☻
            0x03 => Some('\u{2665}'),  // ♥
            0x04 => Some('\u{2666}'),  // ♦
            0x05 => Some('\u{2663}'),  // ♣
            0x06 => Some('\u{2660}'),  // ♠
            0x07 => Some('\u{25cf}'),  // ●
            0x08 => Some('\u{25cb}'),  // ○
            0x0b => Some('\u{2642}'),  // ♂
            0x0c => Some('\u{2640}'),  // ♀
            0x0e => Some('\u{266a}'),  // ♪
            0x0f => Some('\u{266c}'),  // ♬
            0x10 => Some('\u{25b6}'),  // ▶
            0x11 => Some('\u{25c0}'),  // ◀
            0x12 => Some('\u{2195}'),  // ↕
            0x13 => Some('\u{203c}'),  // ‼
            0x14 => Some('\u{b6}'),  // ¶
            0x15 => Some('\u{2591}'),  // ░
            0x16 => Some('\u{25ac}'),  // ▬
            0x17 => Some('\u{21a8}'),  // ↨
            0x18 => Some('\u{2b06}'),  // ⬆
            0x19 => Some('\u{2b07}'),  // ⬇
            0x1a => Some('\u{27a1}'),  // ➡
            0x1b => Some('\u{2b05}'),  // ⬅
            0x1c => Some('\u{221f}'),  // ∟
            0x1d => Some('\u{29fa}'),  // ⧺
            0x1e => Some('\u{25b2}'),  // ▲
            0x1f => Some('\u{25bc}'),  // ▼
            0x7f => Some('\u{2592}'),  // ▒
            0x81 => Some('\u{1fb00}'),  // 🬀
            0x82 => Some('\u{1fb01}'),  // 🬁
            0x83 => Some('\u{1fb02}'),  // 🬂
            0x84 => Some('\u{1fb03}'),  // 🬃
            0x85 => Some('\u{1fb04}'),  // 🬄
            0x86 => Some('\u{1fb05}'),  // 🬅
            0x87 => Some('\u{1fb06}'),  // 🬆
            0x88 => Some('\u{1fb07}'),  // 🬇
            0x89 => Some('\u{1fb08}'),  // 🬈
            0x8a => Some('\u{1fb09}'),  // 🬉
            0x8b => Some('\u{1fb0a}'),  // 🬊
            0x8c => Some('\u{1fb0b}'),  // 🬋
            0x8d => Some('\u{1fb0c}'),  // 🬌
            0x8e => Some('\u{1fb0d}'),  // 🬍
            0x8f => Some('\u{1fb0e}'),  // 🬎
            0x90 => Some('\u{1fb0f}'),  // 🬏
            0x91 => Some('\u{1fb10}'),  // 🬐
            0x92 => Some('\u{1fb11}'),  // 🬑
            0x93 => Some('\u{1fb12}'),  // 🬒
            0x94 => Some('\u{1fb13}'),  // 🬓
            0x95 => Some('\u{258c}'),  // ▌
            0x96 => Some('\u{1fb14}'),  // 🬔
            0x97 => Some('\u{1fb15}'),  // 🬕
            0x98 => Some('\u{1fb16}'),  // 🬖
            0x99 => Some('\u{1fb17}'),  // 🬗
            0x9a => Some('\u{1fb18}'),  // 🬘
            0x9b => Some('\u{1fb19}'),  // 🬙
            0x9c => Some('\u{1fb1a}'),  // 🬚
            0x9d => Some('\u{1fb1b}'),  // 🬛
            0x9e => Some('\u{1fb1c}'),  // 🬜
            0x9f => Some('\u{1fb1d}'),  // 🬝
            0xa0 => Some('\u{2593}'),  // ▓
            0xa7 => Some('\u{2588}'),  // █
            _ => None,
        }
    }
}

/// Byte `b` is the one used to write `c`: it shows `c`, and it is not the
/// second pilcrow.
pub open spec fn encodes_to(c: char, b: u8) -> bool {
    b != 0xb6 && cctweaked_glyph(b) == Some(c)
}

/// The byte that writes `c` on a monitor, if the code page has one.
pub open spec fn cctweaked_byte(c: char) -> Option<u8> {
    if exists|b: u8| encodes_to(c, b) {
        Some(choose|b: u8| encodes_to(c, b))
    } else {
        None
    }
}

/// Apart from the second pilcrow, no two bytes show the same glyph.
pub proof fn lemma_glyph_injective(b1: u8, b2: u8)
    requires
        encodes_to(cctweaked_glyph(b1).unwrap(), b1),
        encodes_to(cctweaked_glyph(b1).unwrap(), b2),
    ensures
        b1 == b2,
{
}

/// The glyph for byte `b`.
pub fn get_unicode_equivalent(b: u8) -> (r: Option<char>)
    ensures
        r == cctweaked_glyph(b),
{
    if (0x20 <= b && b <= 0x7e) || (0xa1 <= b && b != 0xa7) {
        return Some(b as char);
    }
    match b {
        0x01 => Some('\u{263a}'),  // ☺
        0x02 => Some('\u{263b}'),  // ☻
        0x03 => Some('\u{2665}'),  // ♥
        0x04 => Some('\u{2666}'),  // ♦
        0x05 => Some('\u{2663}'),  // ♣
        0x06 => Some('\u{2660}'),  // ♠
        0x07 => Some('\u{25cf}'),  // ●
        0x08 => Some('\u{25cb}'),  // ○
        0x0b => Some('\u{2642}'),  // ♂
        0x0c => Some('\u{2640}'),  // ♀
        0x0e => Some('\u{266a}'),  // ♪
        0x0f => Some('\u{266c}'),  // ♬
        0x10 => Some('\u{25b6}'),  // ▶
        0x11 => Some('\u{25c0}'),  // ◀
        0x12 => Some('\u{2195}'),  // ↕
        0x13 => Some('\u{203c}'),  // ‼
        0x14 => Some('\u{b6}'),  // ¶
        0x15 => Some('\u{2591}'),  // ░
        0x16 => Some('\u{25ac}'),  // ▬
        0x17 => Some('\u{21a8}'),  // ↨
        0x18 => Some('\u{2b06}'),  // ⬆
        0x19 => Some('\u{2b07}'),  // ⬇
        0x1a => Some('\u{27a1}'),  // ➡
        0x1b => Some('\u{2b05}'),  // ⬅
        0x1c => Some('\u{221f}'),  // ∟
        0x1d => Some('\u{29fa}'),  // ⧺
        0x1e => Some('\u{25b2}'),  // ▲
        0x1f => Some('\u{25bc}'),  // ▼
        0x7f => Some('\u{2592}'),  // ▒
        0x81 => Some('\u{1fb00}'),  // 🬀
        0x82 => Some('\u{1fb01}'),  // 🬁
        0x83 => Some('\u{1fb02}'),  // 🬂
        0x84 => Some('\u{1fb03}'),  // 🬃
        0x85 => Some('\u{1fb04}'),  // 🬄
        0x86 => Some('\u{1fb05}'),  // 🬅
        0x87 => Some('\u{1fb06}'),  // 🬆
        0x88 => Some('\u{1fb07}'),  // 🬇
        0x89 => Some('\u{1fb08}'),  // 🬈
        0x8a => Some('\u{1fb09}'),  // 🬉
        0x8b => Some('\u{1fb0a}'),  // 🬊
        0x8c => Some('\u{1fb0b}'),  // 🬋
        0x8d => Some('\u{1fb0c}'),  // 🬌
        0x8e => Some('\u{1fb0d}'),  // 🬍
        0x8f => Some('\u{1fb0e}'),  // 🬎
        0x90 => Some('\u{1fb0f}'),  // 🬏
        0x91 => Some('\u{1fb10}'),  // 🬐
        0x92 => Some('\u{1fb11}'),  // 🬑
        0x93 => Some('\u{1fb12}'),  // 🬒
        0x94 => Some('\u{1fb13}'),  // 🬓
        0x95 => Some('\u{258c}'),  // ▌
        0x96 => Some('\u{1fb14}'),  // 🬔
        0x97 => Some('\u{1fb15}'),  // 🬕
        0x98 => Some('\u{1fb16}'),  // 🬖
        0x99 => Some('\u{1fb17}'),  // 🬗
        0x9a => Some('\u{1fb18}'),  // 🬘
        0x9b => Some('\u{1fb19}'),  // 🬙
        0x9c => Some('\u{1fb1a}'),  // 🬚
        0x9d => Some('\u{1fb1b}'),  // 🬛
        0x9e => Some('\u{1fb1c}'),  // 🬜
        0x9f => Some('\u{1fb1d}'),  // 🬝
        0xa0 => Some('\u{2593}'),  // ▓
        0xa7 => Some('\u{2588}'),  // █
        _ => None,
    }
}

/// The code-page byte for `c`, or `None` if the monitor cannot show `c`.
pub fn get_cctweaked_equivalent(c: char) -> (r: Option<u8>)
    ensures
        r == cctweaked_byte(c),
{
    let u = c as u32;
    let r = if (0x20 <= u && u <= 0x7e) || (0xa1 <= u && u <= 0xff && u != 0xa7 && u != 0xb6) {
        Some(u as u8)
    } else {
        match c {
            '\u{263a}' => Some(0x01),  // ☺
            '\u{263b}' => Some(0x02),  // ☻
            '\u{2665}' => Some(0x03),  // ♥
            '\u{2666}' => Some(0x04),  // ♦
            '\u{2663}' => Some(0x05),  // ♣
            '\u{2660}' => Some(0x06),  // ♠
            '\u{25cf}' => Some(0x07),  // ●
            '\u{25cb}' => Some(0x08),  // ○
            '\u{2642}' => Some(0x0b),  // ♂
            '\u{2640}' => Some(0x0c),  // ♀
            '\u{266a}' => Some(0x0e),  // ♪
            '\u{266c}' => Some(0x0f),  // ♬
            '\u{25b6}' => Some(0x10),  // ▶
            '\u{25c0}' => Some(0x11),  // ◀
            '\u{2195}' => Some(0x12),  // ↕
            '\u{203c}' => Some(0x13),  // ‼
            '\u{b6}' => Some(0x14),  // ¶
            '\u{2591}' => Some(0x15),  // ░
            '\u{25ac}' => Some(0x16),  // ▬
            '\u{21a8}' => Some(0x17),  // ↨
            '\u{2b06}' => Some(0x18),  // ⬆
            '\u{2b07}' => Some(0x19),  // ⬇
            '\u{27a1}' => Some(0x1a),  // ➡
            '\u{2b05}' => Some(0x1b),  // ⬅
            '\u{221f}' => Some(0x1c),  // ∟
            '\u{29fa}' => Some(0x1d),  // ⧺
            '\u{25b2}' => Some(0x1e),  // ▲
            '\u{25bc}' => Some(0x1f),  // ▼
            '\u{2592}' => Some(0x7f),  // ▒
            '\u{1fb00}' => Some(0x81),  // 🬀
            '\u{1fb01}' => Some(0x82),  // 🬁
            '\u{1fb02}' => Some(0x83),  // 🬂
            '\u{1fb03}' => Some(0x84),  // 🬃
            '\u{1fb04}' => Some(0x85),  // 🬄
            '\u{1fb05}' => Some(0x86),  // 🬅
            '\u{1fb06}' => Some(0x87),  // 🬆
            '\u{1fb07}' => Some(0x88),  // 🬇
            '\u{1fb08}' => Some(0x89),  // 🬈
            '\u{1fb09}' => Some(0x8a),  // 🬉
            '\u{1fb0a}' => Some(0x8b),  // 🬊
            '\u{1fb0b}' => Some(0x8c),  // 🬋
            '\u{1fb0c}' => Some(0x8d),  // 🬌
            '\u{1fb0d}' => Some(0x8e),  // 🬍
            '\u{1fb0e}' => Some(0x8f),  // 🬎
            '\u{1fb0f}' => Some(0x90),  // 🬏
            '\u{1fb10}' => Some(0x91),  // 🬐
            '\u{1fb11}' => Some(0x92),  // 🬑
            '\u{1fb12}' => Some(0x93),  // 🬒
            '\u{1fb13}' => Some(0x94),  // 🬓
            '\u{258c}' => Some(0x95),  // ▌
            '\u{1fb14}' => Some(0x96),  // 🬔
            '\u{1fb15}' => Some(0x97),  // 🬕
            '\u{1fb16}' => Some(0x98),  // 🬖
            '\u{1fb17}' => Some(0x99),  // 🬗
            '\u{1fb18}' => Some(0x9a),  // 🬘
            '\u{1fb19}' => Some(0x9b),  // 🬙
            '\u{1fb1a}' => Some(0x9c),  // 🬚
            '\u{1fb1b}' => Some(0x9d),  // 🬛
            '\u{1fb1c}' => Some(0x9e),  // 🬜
            '\u{1fb1d}' => Some(0x9f),  // 🬝
            '\u{2593}' => Some(0xa0),  // ▓
            '\u{2588}' => Some(0xa7),  // █
            _ => None,
        }
    };
    proof {
        match r {
            Some(b) => {
                assert(encodes_to(c, b));
                assert forall|b2: u8| encodes_to(c, b2) implies b2 == b by {
                    lemma_glyph_injective(b, b2);
                }
            },
            None => {
                assert forall|b2: u8| !encodes_to(c, b2) by {}
            },
        }
    }
    r
}

/// Every character of `s` has a code-page byte.
pub open spec fn translatable(s: Seq<char>) -> bool {
    forall|i: int| 0 <= i < s.len() ==> (#[trigger] cctweaked_byte(s[i])) is Some
}

/// The code-page bytes of a translatable `s`, one for each character.
pub open spec fn cctweaked_bytes(s: Seq<char>) -> Seq<u8> {
    Seq::new(s.len(), |i: int| cctweaked_byte(s[i]).unwrap())
}

/// `s[i]` is the first character of `s` without a code-page byte.
pub open spec fn first_untranslatable(s: Seq<char>, i: int) -> bool {
    &&& 0 <= i < s.len()
    &&& cctweaked_byte(s[i]) is None
    &&& translatable(s.take(i))
}

/// A failure to put text into the code page.
#[derive(Debug, Clone, Copy, PartialEq, Eq, Structural)]
pub enum CCTweakedError {
    /// The character has no byte in the code page.
    InvalidCharacter(char),
}

/// Encodes `text` in the code page, one byte for each character; fails on
/// the first character that the code page cannot show.
pub fn convert_to_cctweaked(text: &str) -> (r: Result<Vec<u8>, CCTweakedError>)
    ensures
        match r {
            Ok(v) => translatable(text@) && v@ == cctweaked_bytes(text@),
            Err(CCTweakedError::InvalidCharacter(c)) => exists|i: int|
                first_untranslatable(text@, i) && c == text@[i],
        },
{
    let mut result: Vec<u8> = Vec::new();
    for c in it: text.chars()
        invariant
            it.seq() == text@,
            translatable(text@.take(it.index())),
            result@ == cctweaked_bytes(text@.take(it.index())),
    {
        match get_cctweaked_equivalent(c) {
            Some(b) => {
                result.push(b);
            },
            None => {
                return Err(CCTweakedError::InvalidCharacter(c));
            },
        }
    }
    assert(text@.take(text@.len() as int) =~= text@);
    Ok(result)
}

/// Decoding a byte and encoding its glyph again gives the byte back, for the
/// printable ASCII bytes and the bytes from 0xA1 up, except the second
/// pilcrow at 0xB6, which is written as 0x14.
pub proof fn lemma_byte_round_trip(b: u8)
    requires
        (0x20 <= b && b <= 0x7e) || (0xa1 <= b && b != 0xb6),
    ensures
        cctweaked_glyph(b) is Some,
        cctweaked_byte(cctweaked_glyph(b).unwrap()) == Some(b),
{
    let c = cctweaked_glyph(b).unwrap();
    assert(encodes_to(c, b));
    assert forall|b2: u8| encodes_to(c, b2) implies b2 == b by {
        lemma_glyph_injective(b, b2);
    }
}

/// Decoding the encoding of a translatable text gives the text back.
pub proof fn lemma_text_round_trip(s: Seq<char>)
    requires
        translatable(s),
    ensures
        cctweaked_bytes(s).len() == s.len(),
        forall|i: int| 0 <= i < s.len() ==> cctweaked_glyph(#[trigger] cctweaked_bytes(s)[i]) == Some(s[i]),
{
    assert forall|i: int| 0 <= i < s.len() implies cctweaked_glyph(#[trigger] cctweaked_bytes(s)[i]) == Some(s[i]) by {
        assert(cctweaked_byte(s[i]) is Some);
        let b = choose|b: u8| encodes_to(s[i], b);
        assert(encodes_to(s[i], b));
    }
}

} // verus!
