//! Building strings character by character.

use vstd::arithmetic::power::pow;
use vstd::prelude::*;

verus! {

/// `String::push` appends one character to the end of the string.
pub assume_specification[ std::string::String::push ](string: &mut std::string::String, ch: char)
    ensures
        final(string)@ == old(string)@.push(ch),
;

/// The digit that stands for a number below ten.
#[verifier::allow_in_spec]
pub fn digit(value: u64) -> char
    requires
        value < 10,
    returns
        (48 + value) as char,
{
    (48u8 + value as u8) as char
}

/// A number in decimal notation, without leading zeros.
pub open spec fn decimal(value: nat) -> Seq<char>
    decreases value,
{
    if value < 10 {
        seq![(48 + value) as char]
    } else {
        decimal(value / 10).push((48 + value % 10) as char)
    }
}

/// Write a number in decimal notation at the end of a string.
pub fn push_decimal(string: &mut String, value: u64)
    ensures
        final(string)@ == old(string)@ + decimal(value as nat),
    decreases value,
{
    if value >= 10 {
        push_decimal(string, value / 10);
        string.push(digit(value % 10));
    } else {
        string.push(digit(value));
    }
}

/// The value of a row of decimal digits.
pub open spec fn digits_value(digits: Seq<char>) -> nat
    decreases digits.len(),
{
    if digits.len() == 0 {
        0
    } else {
        10 * digits_value(digits.drop_last()) + (digits.last() as nat - 48) as nat
    }
}

/// Whether every character is a decimal digit.
pub open spec fn digits_only(text: Seq<char>) -> bool {
    forall|i: int| 0 <= i < text.len() ==> '0' <= #[trigger] text[i] <= '9'
}

/// Decimal notation is made of digits, and its value is the number.
pub proof fn lemma_decimal(value: nat)
    ensures
        decimal(value).len() > 0,
        digits_only(decimal(value)),
        digits_value(decimal(value)) == value,
    decreases value,
{
    let text = decimal(value);
    if value >= 10 {
        let shorter = decimal(value / 10);
        lemma_decimal(value / 10);
        assert(text.drop_last() =~= shorter);
        assert forall|i: int| 0 <= i < text.len() implies '0' <= #[trigger] text[i] <= '9' by {
            if i < shorter.len() {
                assert(text[i] == shorter[i]);
            }
        }
    } else {
        assert(text.drop_last() =~= Seq::empty());
        assert(digits_value(text.drop_last()) == 0);
    }
}

/// The characters of a text.
pub fn characters(text: &str) -> (chars: Vec<char>)
    ensures
        chars@ == text@,
{
    let mut chars: Vec<char> = Vec::new();
    for c in it: text.chars()
        invariant
            it.seq() == text@,
            chars@ == text@.take(it.index() as int),
    {
        chars.push(c);
        assert(chars@ =~= text@.take(it.index() + 1));
    }
    assert(chars@ =~= text@);
    chars
}

/// Compare characters with a text.
pub fn same_text(chars: &Vec<char>, text: &str) -> (same: bool)
    ensures
        same == (chars@ == text@),
{
    assert(chars@.take(chars@.len() as int) =~= chars@);
    starts_with(chars, text) && chars.len() == characters(text).len()
}

/// Whether characters start with a text.
pub fn starts_with(chars: &Vec<char>, text: &str) -> (starts: bool)
    ensures
        starts == (text@.len() <= chars@.len() && chars@.take(text@.len() as int) == text@),
{
    let prefix = characters(text);
    if chars.len() < prefix.len() {
        return false;
    }
    let mut i: usize = 0;
    while i < prefix.len()
        invariant
            i <= prefix@.len() <= chars@.len(),
            prefix@ == text@,
            chars@.take(i as int) == prefix@.take(i as int),
        decreases prefix@.len() - i,
    {
        if chars[i] != prefix[i] {
            assert(chars@.take(prefix@.len() as int)[i as int] == chars@[i as int]);
            return false;
        }
        i += 1;
        assert(chars@.take(i as int) =~= chars@.take(i - 1).push(chars@[i - 1]));
        assert(prefix@.take(i as int) =~= prefix@.take(i - 1).push(prefix@[i - 1]));
    }
    assert(prefix@.take(i as int) =~= prefix@);
    true
}

/// Whether a text comes before another in the order of their characters.
pub open spec fn text_before(a: Seq<char>, b: Seq<char>) -> bool
    decreases a.len(),
{
    if b.len() == 0 {
        false
    } else if a.len() == 0 {
        true
    } else if a[0] != b[0] {
        a[0] < b[0]
    } else {
        text_before(a.skip(1), b.skip(1))
    }
}

/// Compare two texts by the order of their characters.
pub fn text_less(a: &str, b: &str) -> (less: bool)
    ensures
        less == text_before(a@, b@),
{
    let left = characters(a);
    let right = characters(b);
    let mut i: usize = 0;
    assert(left@.skip(0) =~= left@ && right@.skip(0) =~= right@);
    while i < left.len() && i < right.len()
        invariant
            i <= left@.len(),
            i <= right@.len(),
            left@ == a@,
            right@ == b@,
            text_before(a@, b@) == text_before(left@.skip(i as int), right@.skip(i as int)),
        decreases left@.len() - i,
    {
        if left[i] != right[i] {
            return left[i] < right[i];
        }
        assert(left@.skip(i as int).skip(1) =~= left@.skip(i + 1));
        assert(right@.skip(i as int).skip(1) =~= right@.skip(i + 1));
        i += 1;
    }
    i < right.len()
}

/// Of two texts that differ, one comes before the other, and not the other way round.
pub proof fn lemma_text_total(a: Seq<char>, b: Seq<char>)
    ensures
        a == b || text_before(a, b) || text_before(b, a),
        !(text_before(a, b) && text_before(b, a)),
    decreases a.len(),
{
    if a.len() > 0 && b.len() > 0 {
        lemma_text_total(a.skip(1), b.skip(1));
        if a[0] == b[0] && a.skip(1) == b.skip(1) {
            assert(a =~= seq![a[0]] + a.skip(1));
            assert(b =~= seq![b[0]] + b.skip(1));
        }
    } else if a.len() == 0 && b.len() == 0 {
        assert(a =~= b);
    }
}

/// The order of texts is transitive.
pub proof fn lemma_text_transitive(a: Seq<char>, b: Seq<char>, c: Seq<char>)
    requires
        text_before(a, b),
        text_before(b, c),
    ensures
        text_before(a, c),
    decreases a.len(),
{
    if a.len() > 0 && b.len() > 0 && c.len() > 0 && a[0] == b[0] && b[0] == c[0] {
        lemma_text_transitive(a.skip(1), b.skip(1), c.skip(1));
    }
}

/// Digits count ones, tens, hundreds and so on: what stands before other digits counts for ten times
/// as much with each of them.
pub proof fn law_digits_are_decimal(first: Seq<char>, rest: Seq<char>, digit: char)
    requires
        digits_only(first),
        digits_only(rest),
        '0' <= digit <= '9',
    ensures
        digits_value(seq![digit]) == digit as int - '0' as int,
        digits_value(first + rest) == digits_value(first) * pow(10, rest.len()) + digits_value(rest),
    decreases rest.len(),
{
    assert(seq![digit].drop_last() =~= Seq::empty());
    assert(digits_value(seq![digit].drop_last()) == 0);
    vstd::arithmetic::power::lemma_pow0(10);
    if rest.len() == 0 {
        assert(first + rest =~= first);
        assert(digits_value(first) * 1 == digits_value(first));
    } else {
        let shorter = rest.drop_last();
        assert forall|i: int| 0 <= i < shorter.len() implies '0' <= #[trigger] shorter[i] <= '9' by {
            assert(shorter[i] == rest[i]);
        }
        law_digits_are_decimal(first, shorter, digit);
        assert((first + rest).drop_last() =~= first + shorter);
        assert((first + rest).last() == rest.last() == rest[rest.len() - 1]);
        let (v, p) = (digits_value(first) as int, pow(10, shorter.len()));
        assert(pow(10, rest.len()) == 10 * p) by {
            reveal(pow);
        }
        assert(10 * (v * p) == v * (10 * p)) by (nonlinear_arith);
    }
}

/// A text comes before another exactly if, at the first place where they differ, it has the lesser
/// character or ends.
pub proof fn law_text_order_means(a: Seq<char>, b: Seq<char>)
    ensures
        text_before(a, b) <==> exists|k: int|
            #![trigger a.take(k)]
            0 <= k <= a.len() && k < b.len() && a.take(k) == b.take(k) && (k == a.len() || a[k]
                < b[k]),
    decreases a.len(),
{
    if a.len() > 0 && b.len() > 0 && a[0] == b[0] {
        let (c, d) = (a.skip(1), b.skip(1));
        law_text_order_means(c, d);
        if text_before(a, b) {
            let k = choose|k: int|
                #![trigger c.take(k)]
                0 <= k <= c.len() && k < d.len() && c.take(k) == d.take(k) && (k == c.len() || c[k]
                    < d[k]);
            assert forall|i: int| 0 <= i < k + 1 implies #[trigger] a.take(k + 1)[i] == b.take(
                k + 1,
            )[i] by {
                if i > 0 {
                    assert(c.take(k)[i - 1] == d.take(k)[i - 1]);
                    assert(c[i - 1] == a[i] && d[i - 1] == b[i]);
                }
            }
            assert(a.take(k + 1) =~= b.take(k + 1));
            if k < c.len() {
                assert(c[k] == a[k + 1] && d[k] == b[k + 1]);
            }
        }
        if exists|k: int|
            #![trigger a.take(k)]
            0 <= k <= a.len() && k < b.len() && a.take(k) == b.take(k) && (k == a.len() || a[k]
                < b[k]) {
            let k = choose|k: int|
                #![trigger a.take(k)]
                0 <= k <= a.len() && k < b.len() && a.take(k) == b.take(k) && (k == a.len() || a[k]
                    < b[k]);
            assert(k > 0);
            assert forall|i: int| 0 <= i < k - 1 implies #[trigger] c.take(k - 1)[i] == d.take(
                k - 1,
            )[i] by {
                assert(a.take(k)[i + 1] == b.take(k)[i + 1]);
            }
            assert(c.take(k - 1) =~= d.take(k - 1));
            if k < a.len() {
                assert(c[k - 1] == a[k] && d[k - 1] == b[k]);
            }
        }
    } else if a.len() == 0 && b.len() > 0 {
        assert(a.take(0) =~= b.take(0));
    } else if a.len() > 0 && b.len() > 0 {
        assert(a.take(0) =~= b.take(0));
        assert forall|k: int|
            #![trigger a.take(k)]
            0 <= k <= a.len() && k < b.len() && a.take(k) == b.take(k) && (k == a.len() || a[k]
                < b[k]) implies k == 0 by {
            if k > 0 {
                assert(a.take(k)[0] == b.take(k)[0]);
            }
        }
    }
}

} // verus!
