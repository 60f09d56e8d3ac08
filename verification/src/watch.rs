//! Watchpoint data types and their notation.

use vstd::prelude::*;

use crate::util::text::{
    characters, decimal, digits_only, digits_value, lemma_decimal, push_decimal, same_text,
    starts_with,
};

verus! {

/// The longest string that a watchpoint shows.
pub const MAX_STRING: usize = 1024;

/// The data type of a watchpoint.
#[derive(Debug, Clone, Copy, PartialEq, Eq, Structural)]
pub enum WatchpointType {
    U8,
    U16,
    U32,
    /// String with length
    String(usize),
}

/// Whether a character has the Unicode property White_Space.
pub open spec fn white_space(c: char) -> bool {
    ||| '\u{9}' <= c <= '\u{D}'
    ||| c == ' '
    ||| c == '\u{85}'
    ||| c == '\u{A0}'
    ||| c == '\u{1680}'
    ||| '\u{2000}' <= c <= '\u{200A}'
    ||| c == '\u{2028}'
    ||| c == '\u{2029}'
    ||| c == '\u{202F}'
    ||| c == '\u{205F}'
    ||| c == '\u{3000}'
}

/// Text without the white space at its start.
pub open spec fn trimmed_start(text: Seq<char>) -> Seq<char>
    decreases text.len(),
{
    if text.len() > 0 && white_space(text[0]) {
        trimmed_start(text.skip(1))
    } else {
        text
    }
}

/// Text without the white space at its start and end.
pub open spec fn trimmed(text: Seq<char>) -> Seq<char>
    decreases text.len(),
{
    if text.len() > 0 && white_space(text.last()) {
        trimmed(text.drop_last())
    } else {
        trimmed_start(text)
    }
}

/// What `str::to_lowercase` makes of a text.
pub uninterp spec fn lowercased(text: Seq<char>) -> Seq<char>;

/// Whether every character is an ASCII character.
pub open spec fn ascii_only(text: Seq<char>) -> bool {
    forall|i: int| 0 <= i < text.len() ==> #[trigger] text[i] < '\u{80}'
}

/// A character with an ASCII capital made small.
pub open spec fn ascii_small(c: char) -> char {
    if 'A' <= c <= 'Z' {
        (c as u32 + 32) as char
    } else {
        c
    }
}

/// Text with its ASCII capitals made small.
pub open spec fn ascii_lowercased(text: Seq<char>) -> Seq<char> {
    text.map_values(|c: char| ascii_small(c))
}

/// `str::trim` removes the characters with the Unicode property White_Space at both ends.
pub assume_specification[ str::trim ](text: &str) -> (result: &str)
    ensures
        result@ == trimmed(text@),
;

/// `str::to_lowercase` applies the Unicode lower case mapping, which for ASCII text makes the
/// capitals A to Z small and keeps everything else.
pub assume_specification[ str::to_lowercase ](text: &str) -> (result: std::string::String)
    ensures
        result@ == lowercased(text@),
        ascii_only(text@) ==> result@ == ascii_lowercased(text@),
;

/// The value of an unsigned numeral: decimal digits, with or without a plus sign before them.
pub open spec fn numeral_value(text: Seq<char>) -> Option<nat> {
    let digits = if text.len() > 0 && text[0] == '+' {
        text.skip(1)
    } else {
        text
    };
    if digits.len() > 0 && digits_only(digits) {
        Some(digits_value(digits))
    } else {
        None
    }
}

/// The data type that a trimmed text in small letters stands for.
pub open spec fn parsed_type(text: Seq<char>) -> Option<WatchpointType> {
    if text == "u8"@ {
        Some(WatchpointType::U8)
    } else if text == "u16"@ {
        Some(WatchpointType::U16)
    } else if text == "u32"@ {
        Some(WatchpointType::U32)
    } else if text.len() >= 7 && text.take(7) == "string("@ && text.last() == ')' {
        match numeral_value(text.subrange(7, text.len() - 1)) {
            Some(length) => if 1 <= length <= MAX_STRING {
                Some(WatchpointType::String(length as usize))
            } else {
                None
            },
            None => None,
        }
    } else {
        None
    }
}

/// What parsing a text gives: the data type that the trimmed text in small letters stands for.
pub open spec fn parses_to(text: Seq<char>, result: Option<WatchpointType>) -> bool {
    let content = trimmed(text);
    &&& result == parsed_type(lowercased(content))
    &&& ascii_only(content) ==> result == parsed_type(ascii_lowercased(content))
}

/// The notation of a data type.
pub open spec fn notation(kind: WatchpointType) -> Seq<char> {
    match kind {
        WatchpointType::U8 => "u8"@,
        WatchpointType::U16 => "u16"@,
        WatchpointType::U32 => "u32"@,
        WatchpointType::String(length) => "string("@ + decimal(length as nat) + ")"@,
    }
}

/// The numeral in a range of characters, if it is one. Values above the longest string are
/// not told apart.
fn parse_numeral(chars: &Vec<char>, from: usize, to: usize) -> (value: Option<usize>)
    requires
        from <= to <= chars@.len(),
    ensures
        match numeral_value(chars@.subrange(from as int, to as int)) {
            Some(exact) => value == Some(
                if exact <= MAX_STRING {
                    exact as usize
                } else {
                    (MAX_STRING + 1) as usize
                },
            ),
            None => value is None,
        },
{
    let ghost text = chars@.subrange(from as int, to as int);
    let start: usize = if from < to && chars[from] == '+' {
        from + 1
    } else {
        from
    };
    let ghost digits = chars@.subrange(start as int, to as int);
    proof {
        assert(text.len() > 0 && text[0] == '+' ==> digits =~= text.skip(1));
        assert(!(text.len() > 0 && text[0] == '+') ==> digits =~= text);
    }
    if start == to {
        return None;
    }
    let mut value: usize = 0;
    let mut i: usize = start;
    while i < to
        invariant
            start <= i <= to <= chars@.len(),
            digits == chars@.subrange(start as int, to as int),
            numeral_value(chars@.subrange(from as int, to as int)) == if digits_only(digits) {
                Some(digits_value(digits))
            } else {
                None
            },
            forall|k: int| 0 <= k < i - start ==> '0' <= #[trigger] digits[k] <= '9',
            value <= MAX_STRING + 1,
            digits_value(digits.take(i - start)) <= MAX_STRING ==> value == digits_value(
                digits.take(i - start),
            ),
            digits_value(digits.take(i - start)) > MAX_STRING ==> value == MAX_STRING + 1,
        decreases to - i,
    {
        let c = chars[i];
        assert(c == digits[i - start]);
        if !('0' <= c && c <= '9') {
            return None;
        }
        let digit: usize = c as usize - 48;
        let grown: usize = 10 * value + digit;
        value = if grown <= MAX_STRING {
            grown
        } else {
            MAX_STRING + 1
        };
        i += 1;
        assert(digits.take(i - start).drop_last() =~= digits.take(i - start - 1));
    }
    assert(digits.take(i - start) =~= digits);
    Some(value)
}

impl WatchpointType {
    /// The name of the data type, without a length.
    pub fn as_str(&self) -> (name: &'static str)
        ensures
            name@ == match *self {
                WatchpointType::U8 => "u8"@,
                WatchpointType::U16 => "u16"@,
                WatchpointType::U32 => "u32"@,
                WatchpointType::String(_) => "string"@,
            },
    {
        match self {
            WatchpointType::U8 => "u8",
            WatchpointType::U16 => "u16",
            WatchpointType::U32 => "u32",
            WatchpointType::String(_) => "string",
        }
    }

    /// How many bytes of memory a watchpoint of the data type shows.
    pub fn size_bytes(&self) -> (size: usize)
        ensures
            size == match *self {
                WatchpointType::U8 => 1,
                WatchpointType::U16 => 2,
                WatchpointType::U32 => 4,
                WatchpointType::String(length) => length,
            },
    {
        match self {
            WatchpointType::U8 => 1,
            WatchpointType::U16 => 2,
            WatchpointType::U32 => 4,
            WatchpointType::String(length) => *length,
        }
    }

    /// The data type that a trimmed text in small letters stands for.
    pub fn parse_normalized(text: &str) -> (kind: Option<Self>)
        ensures
            kind == parsed_type(text@),
    {
        let chars = characters(text);
        if same_text(&chars, "u8") {
            return Some(WatchpointType::U8);
        }
        if same_text(&chars, "u16") {
            return Some(WatchpointType::U16);
        }
        if same_text(&chars, "u32") {
            return Some(WatchpointType::U32);
        }
        proof {
            reveal_strlit("string(");
        }
        if starts_with(&chars, "string(") && chars[chars.len() - 1] == ')' {
            let end: usize = chars.len() - 1;
            if end < 7 {
                assert(chars@.take(7)[6] == '(');
                return None;
            }
            match parse_numeral(&chars, 7, end) {
                Some(length) => if length > 0 && length <= MAX_STRING {
                    Some(WatchpointType::String(length))
                } else {
                    None
                },
                None => None,
            }
        } else {
            None
        }
    }

    /// Try to parse a watchpoint type from a string
    pub fn parse(s: &str) -> (kind: Option<Self>)
        ensures
            parses_to(s@, kind),
    {
        let lower = s.trim().to_lowercase();
        Self::parse_normalized(lower.as_str())
    }

    /// The notation of the data type, which `parse` understands.
    pub fn to_string(&self) -> (text: String)
        ensures
            text@ == notation(*self),
    {
        match self {
            WatchpointType::String(length) => {
                let mut text = "string(".to_owned();
                push_decimal(&mut text, *length as u64);
                text.push(')');
                proof {
                    reveal_strlit(")");
                    assert(text@ =~= notation(*self));
                }
                text
            },
            _ => self.as_str().to_owned(),
        }
    }
}

/// The notation of a data type parses as itself when it is trimmed and in small letters.
proof fn lemma_notation(kind: WatchpointType)
    ensures
        parsed_type(notation(kind)) == match kind {
            WatchpointType::String(length) => if 1 <= length <= MAX_STRING {
                Some(kind)
            } else {
                None
            },
            _ => Some(kind),
        },
        notation(kind).len() > 0,
        forall|i: int|
            0 <= i < notation(kind).len() ==> {
                let c = #[trigger] notation(kind)[i];
                c < '\u{80}' && !white_space(c) && ascii_small(c) == c
            },
{
    reveal_strlit("u8");
    reveal_strlit("u16");
    reveal_strlit("u32");
    reveal_strlit("string(");
    reveal_strlit(")");
    if let WatchpointType::String(length) = kind {
        let text = notation(kind);
        let number = decimal(length as nat);
        lemma_decimal(length as nat);
        assert(text.take(7) =~= "string("@);
        assert(text.subrange(7, text.len() - 1) =~= number);
        assert(number[0] != '+');
        assert(text[0] == 's');
        assert(text != "u8"@ && text != "u16"@ && text != "u32"@);
        assert forall|i: int| 0 <= i < text.len() implies {
            let c = #[trigger] text[i];
            c < '\u{80}' && !white_space(c) && ascii_small(c) == c
        } by {
            if 7 <= i < text.len() - 1 {
                assert(text[i] == number[i - 7]);
            } else if i < 7 {
                assert(text[i] == "string("@[i]);
            }
        }
    } else {
        assert("u8"@[1] != "u16"@[1]);
        assert("u8"@ != "u32"@ && "u16"@[1] != "u32"@[1]);
        assert(notation(kind).len() < 7);
    }
}

/// Parsing the notation of a data type gives the data type back. A string type outside the
/// lengths that can be watched has a notation that is not understood.
pub proof fn law_notation_parses_back(kind: WatchpointType, result: Option<WatchpointType>)
    requires
        parses_to(notation(kind), result),
    ensures
        result == match kind {
            WatchpointType::String(length) => if 1 <= length <= MAX_STRING {
                Some(kind)
            } else {
                None
            },
            _ => Some(kind),
        },
{
    let text = notation(kind);
    lemma_notation(kind);
    assert(!white_space(text[0]) && !white_space(text[text.len() - 1]));
    assert(trimmed(text) == text);
    assert(ascii_only(text));
    assert(ascii_lowercased(text) =~= text);
}

/// White space around a text does not change what it parses to.
pub proof fn law_surrounding_space_is_ignored(before: Seq<char>, text: Seq<char>, after: Seq<char>)
    requires
        forall|i: int| 0 <= i < before.len() ==> white_space(#[trigger] before[i]),
        forall|i: int| 0 <= i < after.len() ==> white_space(#[trigger] after[i]),
    ensures
        trimmed(before + text + after) == trimmed(text),
        forall|result: Option<WatchpointType>| #[trigger]
            parses_to(before + text + after, result) == parses_to(text, result),
    decreases before.len() + text.len() + after.len(),
{
    let whole = before + text + after;
    if after.len() > 0 {
        assert(after.last() == after[after.len() - 1]);
        law_surrounding_space_is_ignored(before, text, after.drop_last());
        assert(whole.drop_last() =~= before + text + after.drop_last());
    } else if text.len() > 0 && white_space(text.last()) {
        law_surrounding_space_is_ignored(before, text.drop_last(), after);
        assert(whole.drop_last() =~= before + text.drop_last() + after);
    } else if text.len() > 0 {
        assert(whole =~= before + text);
        lemma_leading_space(before, text);
        assert(whole.last() == text.last());
    } else if before.len() > 0 {
        assert(before.last() == before[before.len() - 1]);
        law_surrounding_space_is_ignored(before.drop_last(), text, after);
        assert(whole.drop_last() =~= before.drop_last() + text + after);
    } else {
        assert(whole =~= text);
    }
}

/// White space at the start is removed with the rest of it.
proof fn lemma_leading_space(before: Seq<char>, text: Seq<char>)
    requires
        forall|i: int| 0 <= i < before.len() ==> white_space(#[trigger] before[i]),
    ensures
        trimmed_start(before + text) == trimmed_start(text),
    decreases before.len(),
{
    if before.len() > 0 {
        lemma_leading_space(before.skip(1), text);
        assert((before + text).skip(1) =~= before.skip(1) + text);
        assert((before + text)[0] == before[0]);
    } else {
        assert(before + text =~= text);
    }
}

/// The case of ASCII letters does not change what an ASCII text parses to.
pub proof fn law_ascii_case_is_ignored(
    first: Seq<char>,
    second: Seq<char>,
    result: Option<WatchpointType>,
    other: Option<WatchpointType>,
)
    requires
        ascii_only(trimmed(first)),
        ascii_only(trimmed(second)),
        ascii_lowercased(trimmed(first)) == ascii_lowercased(trimmed(second)),
        parses_to(first, result),
        parses_to(second, other),
    ensures
        result == other,
{
}

/// Whether a text is the notation of a string of a length: between brackets a decimal number, with or
/// without a plus sign, of at least one digit.
pub open spec fn spells_string(text: Seq<char>, length: nat) -> bool {
    exists|digits: Seq<char>|
        #![trigger digits_value(digits)]
        {
            &&& digits.len() > 0
            &&& forall|i: int| 0 <= i < digits.len() ==> 48 <= #[trigger] digits[i] as int <= 57
            &&& digits_value(digits) == length
            &&& text == "string("@ + digits + ")"@ || text == "string(+"@ + digits + ")"@
        }
}

/// A text stands for a data type exactly if it is its notation, and a string has 1 to 1024 bytes.
pub proof fn law_notations_are_exact(text: Seq<char>, length: usize)
    ensures
        parsed_type(text) == Some(WatchpointType::U8) <==> text == seq!['u', '8'],
        parsed_type(text) == Some(WatchpointType::U16) <==> text == seq!['u', '1', '6'],
        parsed_type(text) == Some(WatchpointType::U32) <==> text == seq!['u', '3', '2'],
        parsed_type(text) == Some(WatchpointType::String(length)) <==> 1 <= length <= 1024
            && spells_string(text, length as nat),
{
    reveal_strlit("u8");
    reveal_strlit("u16");
    reveal_strlit("u32");
    reveal_strlit("string(");
    reveal_strlit("string(+");
    reveal_strlit(")");
    assert("u8"@ =~= seq!['u', '8']);
    assert("u16"@ =~= seq!['u', '1', '6']);
    assert("u32"@ =~= seq!['u', '3', '2']);
    assert("u8"@[1] != "u16"@[1] && "u8"@[1] != "u32"@[1] && "u16"@[1] != "u32"@[1]);
    if parsed_type(text) == Some(WatchpointType::String(length)) {
        let inner = text.subrange(7, text.len() - 1);
        let digits = if inner.len() > 0 && inner[0] == '+' {
            inner.skip(1)
        } else {
            inner
        };
        assert(text.take(7)[6] == '(');
        assert(text.len() > 7);
        assert(text =~= text.take(7) + inner + ")"@);
        if inner.len() > 0 && inner[0] == '+' {
            assert(text =~= "string(+"@ + digits + ")"@);
        }
        assert(digits_value(digits) == length);
        assert(spells_string(text, length as nat));
    }
    if spells_string(text, length as nat) {
        let digits = choose|digits: Seq<char>|
            #![trigger digits_value(digits)]
            {
                &&& digits.len() > 0
                &&& forall|i: int| 0 <= i < digits.len() ==> 48 <= #[trigger] digits[i] as int <= 57
                &&& digits_value(digits) == length
                &&& text == "string("@ + digits + ")"@ || text == "string(+"@ + digits + ")"@
            };
        assert(text[0] == 's');
        assert(text.take(7) =~= "string("@);
        assert(text.last() == ')');
        let inner = text.subrange(7, text.len() - 1);
        if text == "string("@ + digits + ")"@ {
            assert(inner =~= digits);
            assert(digits[0] != '+');
        } else {
            assert(inner =~= seq!['+'] + digits);
            assert(inner.skip(1) =~= digits);
        }
    }
}

/// Whether a character is white space, by its number.
pub open spec fn is_space(c: int) -> bool {
    9 <= c <= 13 || c == 32 || c == 0x85 || c == 0xA0 || c == 0x1680 || 0x2000 <= c <= 0x200A || c
        == 0x2028 || c == 0x2029 || c == 0x202F || c == 0x205F || c == 0x3000
}

/// Trimming cuts white space off both ends, all of it and nothing else.
pub proof fn law_trimming_means(text: Seq<char>)
    ensures
        exists|from: int, to: int|
            #![trigger text.subrange(from, to)]
            {
                &&& 0 <= from <= to <= text.len()
                &&& trimmed(text) == text.subrange(from, to)
                &&& forall|i: int| 0 <= i < from ==> is_space(#[trigger] text[i] as int)
                &&& forall|i: int| to <= i < text.len() ==> is_space(#[trigger] text[i] as int)
                &&& from < to ==> !is_space(text[from] as int) && !is_space(text[to - 1] as int)
            },
    decreases text.len(),
{
    if text.len() > 0 && white_space(text.last()) {
        let shorter = text.drop_last();
        law_trimming_means(shorter);
        let (from, to) = choose|from: int, to: int|
            #![trigger shorter.subrange(from, to)]
            {
                &&& 0 <= from <= to <= shorter.len()
                &&& trimmed(shorter) == shorter.subrange(from, to)
                &&& forall|i: int| 0 <= i < from ==> is_space(#[trigger] shorter[i] as int)
                &&& forall|i: int| to <= i < shorter.len() ==> is_space(#[trigger] shorter[i] as int)
                &&& from < to ==> !is_space(shorter[from] as int) && !is_space(
                    shorter[to - 1] as int,
                )
            };
        assert(text.subrange(from, to) =~= shorter.subrange(from, to));
        assert forall|i: int| 0 <= i < from implies is_space(#[trigger] text[i] as int) by {
            assert(shorter[i] == text[i]);
        }
        assert forall|i: int| to <= i < text.len() implies is_space(#[trigger] text[i] as int) by {
            if i < shorter.len() {
                assert(shorter[i] == text[i]);
            }
        }
    } else {
        lemma_trimmed_start(text);
        let from = choose|from: int| #[trigger]
            text.skip(from) == trimmed_start(text) && 0 <= from <= text.len() && (forall|i: int|
                0 <= i < from ==> is_space(#[trigger] text[i] as int)) && (from < text.len()
                ==> !is_space(text[from] as int));
        assert(text.subrange(from, text.len() as int) =~= text.skip(from));
    }
}

/// What is cut off at the start.
proof fn lemma_trimmed_start(text: Seq<char>)
    ensures
        exists|from: int| #[trigger]
            text.skip(from) == trimmed_start(text) && 0 <= from <= text.len() && (forall|i: int|
                0 <= i < from ==> is_space(#[trigger] text[i] as int)) && (from < text.len()
                ==> !is_space(text[from] as int)),
    decreases text.len(),
{
    if text.len() > 0 && white_space(text[0]) {
        let rest = text.skip(1);
        lemma_trimmed_start(rest);
        let from = choose|from: int| #[trigger]
            rest.skip(from) == trimmed_start(rest) && 0 <= from <= rest.len() && (forall|i: int|
                0 <= i < from ==> is_space(#[trigger] rest[i] as int)) && (from < rest.len()
                ==> !is_space(rest[from] as int));
        assert(text.skip(from + 1) =~= rest.skip(from));
        assert forall|i: int| 0 <= i < from + 1 implies is_space(#[trigger] text[i] as int) by {
            if i > 0 {
                assert(rest[i - 1] == text[i]);
            }
        }
        if from < rest.len() {
            assert(rest[from] == text[from + 1]);
        }
    } else {
        assert(text.skip(0) =~= text);
    }
}

/// Making letters small moves A to Z by 32, and leaves every other character alone.
pub proof fn law_small_letters_means(text: Seq<char>, at: int)
    requires
        0 <= at < text.len(),
    ensures
        ascii_lowercased(text).len() == text.len(),
        ascii_lowercased(text)[at] as int == if 65 <= text[at] as int <= 90 {
            text[at] as int + 32
        } else {
            text[at] as int
        },
{
}

} // verus!
