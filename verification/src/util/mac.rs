//! Text in the Mac OS Roman encoding.

use vstd::prelude::*;

verus! {

/// The character that a byte of the upper half of Mac OS Roman stands for. Bytes of the lower half
/// have none here.
#[verifier::allow_in_spec]
pub fn upper_char(byte: u8) -> char
    returns
        match byte {
            0x80 => '\u{C4}',
            0x81 => '\u{C5}',
            0x82 => '\u{C7}',
            0x83 => '\u{C9}',
            0x84 => '\u{D1}',
            0x85 => '\u{D6}',
            0x86 => '\u{DC}',
            0x87 => '\u{E1}',
            0x88 => '\u{E0}',
            0x89 => '\u{E2}',
            0x8A => '\u{E4}',
            0x8B => '\u{E3}',
            0x8C => '\u{E5}',
            0x8D => '\u{E7}',
            0x8E => '\u{E9}',
            0x8F => '\u{E8}',
            0x90 => '\u{EA}',
            0x91 => '\u{EB}',
            0x92 => '\u{ED}',
            0x93 => '\u{EC}',
            0x94 => '\u{EE}',
            0x95 => '\u{EF}',
            0x96 => '\u{F1}',
            0x97 => '\u{F3}',
            0x98 => '\u{F2}',
            0x99 => '\u{F4}',
            0x9A => '\u{F6}',
            0x9B => '\u{F5}',
            0x9C => '\u{FA}',
            0x9D => '\u{F9}',
            0x9E => '\u{FB}',
            0x9F => '\u{FC}',
            0xA0 => '\u{2020}',
            0xA1 => '\u{B0}',
            0xA2 => '\u{A2}',
            0xA3 => '\u{A3}',
            0xA4 => '\u{A7}',
            0xA5 => '\u{2022}',
            0xA6 => '\u{B6}',
            0xA7 => '\u{DF}',
            0xA8 => '\u{AE}',
            0xA9 => '\u{A9}',
            0xAA => '\u{2122}',
            0xAB => '\u{B4}',
            0xAC => '\u{A8}',
            0xAD => '\u{2260}',
            0xAE => '\u{C6}',
            0xAF => '\u{D8}',
            0xB0 => '\u{221E}',
            0xB1 => '\u{B1}',
            0xB2 => '\u{2264}',
            0xB3 => '\u{2265}',
            0xB4 => '\u{A5}',
            0xB5 => '\u{B5}',
            0xB6 => '\u{2202}',
            0xB7 => '\u{2211}',
            0xB8 => '\u{220F}',
            0xB9 => '\u{3C0}',
            0xBA => '\u{222B}',
            0xBB => '\u{AA}',
            0xBC => '\u{BA}',
            0xBD => '\u{3A9}',
            0xBE => '\u{E6}',
            0xBF => '\u{F8}',
            0xC0 => '\u{BF}',
            0xC1 => '\u{A1}',
            0xC2 => '\u{AC}',
            0xC3 => '\u{221A}',
            0xC4 => '\u{192}',
            0xC5 => '\u{2248}',
            0xC6 => '\u{2206}',
            0xC7 => '\u{AB}',
            0xC8 => '\u{BB}',
            0xC9 => '\u{2026}',
            0xCA => '\u{A0}',
            0xCB => '\u{C0}',
            0xCC => '\u{C3}',
            0xCD => '\u{D5}',
            0xCE => '\u{152}',
            0xCF => '\u{153}',
            0xD0 => '\u{2013}',
            0xD1 => '\u{2014}',
            0xD2 => '\u{201C}',
            0xD3 => '\u{201D}',
            0xD4 => '\u{2018}',
            0xD5 => '\u{2019}',
            0xD6 => '\u{F7}',
            0xD7 => '\u{25CA}',
            0xD8 => '\u{FF}',
            0xD9 => '\u{178}',
            0xDA => '\u{2044}',
            0xDB => '\u{20AC}',
            0xDC => '\u{2039}',
            0xDD => '\u{203A}',
            0xDE => '\u{FB01}',
            0xDF => '\u{FB02}',
            0xE0 => '\u{2021}',
            0xE1 => '\u{B7}',
            0xE2 => '\u{201A}',
            0xE3 => '\u{201E}',
            0xE4 => '\u{2030}',
            0xE5 => '\u{C2}',
            0xE6 => '\u{CA}',
            0xE7 => '\u{C1}',
            0xE8 => '\u{CB}',
            0xE9 => '\u{C8}',
            0xEA => '\u{CD}',
            0xEB => '\u{CE}',
            0xEC => '\u{CF}',
            0xED => '\u{CC}',
            0xEE => '\u{D3}',
            0xEF => '\u{D4}',
            0xF0 => '\u{F8FF}',
            0xF1 => '\u{D2}',
            0xF2 => '\u{DA}',
            0xF3 => '\u{DB}',
            0xF4 => '\u{D9}',
            0xF5 => '\u{131}',
            0xF6 => '\u{2C6}',
            0xF7 => '\u{2DC}',
            0xF8 => '\u{AF}',
            0xF9 => '\u{2D8}',
            0xFA => '\u{2D9}',
            0xFB => '\u{2DA}',
            0xFC => '\u{B8}',
            0xFD => '\u{2DD}',
            0xFE => '\u{2DB}',
            0xFF => '\u{2C7}',
            _ => ' ',
        },
{
    match byte {
        0x80 => '\u{C4}',
        0x81 => '\u{C5}',
        0x82 => '\u{C7}',
        0x83 => '\u{C9}',
        0x84 => '\u{D1}',
        0x85 => '\u{D6}',
        0x86 => '\u{DC}',
        0x87 => '\u{E1}',
        0x88 => '\u{E0}',
        0x89 => '\u{E2}',
        0x8A => '\u{E4}',
        0x8B => '\u{E3}',
        0x8C => '\u{E5}',
        0x8D => '\u{E7}',
        0x8E => '\u{E9}',
        0x8F => '\u{E8}',
        0x90 => '\u{EA}',
        0x91 => '\u{EB}',
        0x92 => '\u{ED}',
        0x93 => '\u{EC}',
        0x94 => '\u{EE}',
        0x95 => '\u{EF}',
        0x96 => '\u{F1}',
        0x97 => '\u{F3}',
        0x98 => '\u{F2}',
        0x99 => '\u{F4}',
        0x9A => '\u{F6}',
        0x9B => '\u{F5}',
        0x9C => '\u{FA}',
        0x9D => '\u{F9}',
        0x9E => '\u{FB}',
        0x9F => '\u{FC}',
        0xA0 => '\u{2020}',
        0xA1 => '\u{B0}',
        0xA2 => '\u{A2}',
        0xA3 => '\u{A3}',
        0xA4 => '\u{A7}',
        0xA5 => '\u{2022}',
        0xA6 => '\u{B6}',
        0xA7 => '\u{DF}',
        0xA8 => '\u{AE}',
        0xA9 => '\u{A9}',
        0xAA => '\u{2122}',
        0xAB => '\u{B4}',
        0xAC => '\u{A8}',
        0xAD => '\u{2260}',
        0xAE => '\u{C6}',
        0xAF => '\u{D8}',
        0xB0 => '\u{221E}',
        0xB1 => '\u{B1}',
        0xB2 => '\u{2264}',
        0xB3 => '\u{2265}',
        0xB4 => '\u{A5}',
        0xB5 => '\u{B5}',
        0xB6 => '\u{2202}',
        0xB7 => '\u{2211}',
        0xB8 => '\u{220F}',
        0xB9 => '\u{3C0}',
        0xBA => '\u{222B}',
        0xBB => '\u{AA}',
        0xBC => '\u{BA}',
        0xBD => '\u{3A9}',
        0xBE => '\u{E6}',
        0xBF => '\u{F8}',
        0xC0 => '\u{BF}',
        0xC1 => '\u{A1}',
        0xC2 => '\u{AC}',
        0xC3 => '\u{221A}',
        0xC4 => '\u{192}',
        0xC5 => '\u{2248}',
        0xC6 => '\u{2206}',
        0xC7 => '\u{AB}',
        0xC8 => '\u{BB}',
        0xC9 => '\u{2026}',
        0xCA => '\u{A0}',
        0xCB => '\u{C0}',
        0xCC => '\u{C3}',
        0xCD => '\u{D5}',
        0xCE => '\u{152}',
        0xCF => '\u{153}',
        0xD0 => '\u{2013}',
        0xD1 => '\u{2014}',
        0xD2 => '\u{201C}',
        0xD3 => '\u{201D}',
        0xD4 => '\u{2018}',
        0xD5 => '\u{2019}',
        0xD6 => '\u{F7}',
        0xD7 => '\u{25CA}',
        0xD8 => '\u{FF}',
        0xD9 => '\u{178}',
        0xDA => '\u{2044}',
        0xDB => '\u{20AC}',
        0xDC => '\u{2039}',
        0xDD => '\u{203A}',
        0xDE => '\u{FB01}',
        0xDF => '\u{FB02}',
        0xE0 => '\u{2021}',
        0xE1 => '\u{B7}',
        0xE2 => '\u{201A}',
        0xE3 => '\u{201E}',
        0xE4 => '\u{2030}',
        0xE5 => '\u{C2}',
        0xE6 => '\u{CA}',
        0xE7 => '\u{C1}',
        0xE8 => '\u{CB}',
        0xE9 => '\u{C8}',
        0xEA => '\u{CD}',
        0xEB => '\u{CE}',
        0xEC => '\u{CF}',
        0xED => '\u{CC}',
        0xEE => '\u{D3}',
        0xEF => '\u{D4}',
        0xF0 => '\u{F8FF}',
        0xF1 => '\u{D2}',
        0xF2 => '\u{DA}',
        0xF3 => '\u{DB}',
        0xF4 => '\u{D9}',
        0xF5 => '\u{131}',
        0xF6 => '\u{2C6}',
        0xF7 => '\u{2DC}',
        0xF8 => '\u{AF}',
        0xF9 => '\u{2D8}',
        0xFA => '\u{2D9}',
        0xFB => '\u{2DA}',
        0xFC => '\u{B8}',
        0xFD => '\u{2DD}',
        0xFE => '\u{2DB}',
        0xFF => '\u{2C7}',
        _ => ' ',
    }
}

/// The character that a byte of Mac OS text stands for on the host. A carriage return ends a
/// line there, and the host's own line end takes its place.
#[verifier::allow_in_spec]
pub fn host_char(byte: u8) -> char
    returns
        if byte == 0x0D {
            '\n'
        } else if byte < 0x80 {
            byte as char
        } else {
            upper_char(byte)
        },
{
    if byte == 0x0D {
        '\n'
    } else if byte < 0x80 {
        byte as char
    } else {
        upper_char(byte)
    }
}

/// Mac OS text as host text.
pub open spec fn host_text(bytes: Seq<u8>) -> Seq<char> {
    bytes.map_values(|byte: u8| host_char(byte))
}

/// Convert Mac OS Roman text to host text, with host line ends.
pub fn macroman_to_utf8(bytes: &[u8]) -> (text: String)
    ensures
        text@ == host_text(bytes@),
{
    let mut text = String::new();
    let mut i: usize = 0;
    while i < bytes.len()
        invariant
            i <= bytes@.len(),
            text@ == host_text(bytes@.take(i as int)),
        decreases bytes@.len() - i,
    {
        text.push(host_char(bytes[i]));
        i += 1;
        assert(bytes@.take(i as int) =~= bytes@.take(i - 1).push(bytes@[i - 1]));
        assert(text@ =~= host_text(bytes@.take(i as int)));
    }
    assert(bytes@.take(i as int) =~= bytes@);
    text
}

/// The byte of Mac OS Roman that stands for a character outside ASCII, if there is one.
pub open spec fn roman_byte(c: char) -> Option<u8> {
    match c {
        '\u{A0}' => Some(0xCA),
        '\u{A1}' => Some(0xC1),
        '\u{A2}' => Some(0xA2),
        '\u{A3}' => Some(0xA3),
        '\u{A5}' => Some(0xB4),
        '\u{A7}' => Some(0xA4),
        '\u{A8}' => Some(0xAC),
        '\u{A9}' => Some(0xA9),
        '\u{AA}' => Some(0xBB),
        '\u{AB}' => Some(0xC7),
        '\u{AC}' => Some(0xC2),
        '\u{AE}' => Some(0xA8),
        '\u{AF}' => Some(0xF8),
        '\u{B0}' => Some(0xA1),
        '\u{B1}' => Some(0xB1),
        '\u{B4}' => Some(0xAB),
        '\u{B5}' => Some(0xB5),
        '\u{B6}' => Some(0xA6),
        '\u{B7}' => Some(0xE1),
        '\u{B8}' => Some(0xFC),
        '\u{BA}' => Some(0xBC),
        '\u{BB}' => Some(0xC8),
        '\u{BF}' => Some(0xC0),
        '\u{C0}' => Some(0xCB),
        '\u{C1}' => Some(0xE7),
        '\u{C2}' => Some(0xE5),
        '\u{C3}' => Some(0xCC),
        '\u{C4}' => Some(0x80),
        '\u{C5}' => Some(0x81),
        '\u{C6}' => Some(0xAE),
        '\u{C7}' => Some(0x82),
        '\u{C8}' => Some(0xE9),
        '\u{C9}' => Some(0x83),
        '\u{CA}' => Some(0xE6),
        '\u{CB}' => Some(0xE8),
        '\u{CC}' => Some(0xED),
        '\u{CD}' => Some(0xEA),
        '\u{CE}' => Some(0xEB),
        '\u{CF}' => Some(0xEC),
        '\u{D1}' => Some(0x84),
        '\u{D2}' => Some(0xF1),
        '\u{D3}' => Some(0xEE),
        '\u{D4}' => Some(0xEF),
        '\u{D5}' => Some(0xCD),
        '\u{D6}' => Some(0x85),
        '\u{D8}' => Some(0xAF),
        '\u{D9}' => Some(0xF4),
        '\u{DA}' => Some(0xF2),
        '\u{DB}' => Some(0xF3),
        '\u{DC}' => Some(0x86),
        '\u{DF}' => Some(0xA7),
        '\u{E0}' => Some(0x88),
        '\u{E1}' => Some(0x87),
        '\u{E2}' => Some(0x89),
        '\u{E3}' => Some(0x8B),
        '\u{E4}' => Some(0x8A),
        '\u{E5}' => Some(0x8C),
        '\u{E6}' => Some(0xBE),
        '\u{E7}' => Some(0x8D),
        '\u{E8}' => Some(0x8F),
        '\u{E9}' => Some(0x8E),
        '\u{EA}' => Some(0x90),
        '\u{EB}' => Some(0x91),
        '\u{EC}' => Some(0x93),
        '\u{ED}' => Some(0x92),
        '\u{EE}' => Some(0x94),
        '\u{EF}' => Some(0x95),
        '\u{F1}' => Some(0x96),
        '\u{F2}' => Some(0x98),
        '\u{F3}' => Some(0x97),
        '\u{F4}' => Some(0x99),
        '\u{F5}' => Some(0x9B),
        '\u{F6}' => Some(0x9A),
        '\u{F7}' => Some(0xD6),
        '\u{F8}' => Some(0xBF),
        '\u{F9}' => Some(0x9D),
        '\u{FA}' => Some(0x9C),
        '\u{FB}' => Some(0x9E),
        '\u{FC}' => Some(0x9F),
        '\u{FF}' => Some(0xD8),
        '\u{131}' => Some(0xF5),
        '\u{152}' => Some(0xCE),
        '\u{153}' => Some(0xCF),
        '\u{178}' => Some(0xD9),
        '\u{192}' => Some(0xC4),
        '\u{2C6}' => Some(0xF6),
        '\u{2C7}' => Some(0xFF),
        '\u{2D8}' => Some(0xF9),
        '\u{2D9}' => Some(0xFA),
        '\u{2DA}' => Some(0xFB),
        '\u{2DB}' => Some(0xFE),
        '\u{2DC}' => Some(0xF7),
        '\u{2DD}' => Some(0xFD),
        '\u{3A9}' => Some(0xBD),
        '\u{3C0}' => Some(0xB9),
        '\u{2013}' => Some(0xD0),
        '\u{2014}' => Some(0xD1),
        '\u{2018}' => Some(0xD4),
        '\u{2019}' => Some(0xD5),
        '\u{201A}' => Some(0xE2),
        '\u{201C}' => Some(0xD2),
        '\u{201D}' => Some(0xD3),
        '\u{201E}' => Some(0xE3),
        '\u{2020}' => Some(0xA0),
        '\u{2021}' => Some(0xE0),
        '\u{2022}' => Some(0xA5),
        '\u{2026}' => Some(0xC9),
        '\u{2030}' => Some(0xE4),
        '\u{2039}' => Some(0xDC),
        '\u{203A}' => Some(0xDD),
        '\u{2044}' => Some(0xDA),
        '\u{20AC}' => Some(0xDB),
        '\u{2122}' => Some(0xAA),
        '\u{2202}' => Some(0xB6),
        '\u{2206}' => Some(0xC6),
        '\u{220F}' => Some(0xB8),
        '\u{2211}' => Some(0xB7),
        '\u{221A}' => Some(0xC3),
        '\u{221E}' => Some(0xB0),
        '\u{222B}' => Some(0xBA),
        '\u{2248}' => Some(0xC5),
        '\u{2260}' => Some(0xAD),
        '\u{2264}' => Some(0xB2),
        '\u{2265}' => Some(0xB3),
        '\u{25CA}' => Some(0xD7),
        '\u{F8FF}' => Some(0xF0),
        '\u{FB01}' => Some(0xDE),
        '\u{FB02}' => Some(0xDF),
        _ => None,
    }
}

/// Every byte of the upper half stands for a character outside ASCII that stands for that byte and
/// no other.
pub proof fn law_upper_half_reads_back(byte: u8)
    requires
        byte >= 0x80,
    ensures
        roman_byte(upper_char(byte)) == Some(byte),
{
}

/// Host text has a character for every byte. Carriage returns end lines, the other bytes of the
/// lower half stand for themselves, and those of the upper half for their characters.
pub proof fn law_host_text_means(bytes: Seq<u8>, at: int)
    requires
        0 <= at < bytes.len(),
    ensures
        host_text(bytes).len() == bytes.len(),
        ({
            let c = host_text(bytes)[at];
            if bytes[at] == 13 {
                c as int == 10
            } else if bytes[at] < 128 {
                c as int == bytes[at]
            } else {
                roman_byte(c) == Some(bytes[at])
            }
        }),
{
    if bytes[at] >= 128 {
        law_upper_half_reads_back(bytes[at]);
    }
}

} // verus!
