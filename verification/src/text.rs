//! Text built from plain values: decimal numerals, fixed-width numerals, and comparison.

use vstd::prelude::*;
use vstd::string::*;

verus! {

/// What a refused request is answered, if it is refused.
pub open spec fn refusal<T>(result: Result<T, String>) -> Option<Seq<char>> {
    match result {
        Ok(_) => None,
        Err(message) => Some(message@),
    }
}

/// The view of an optional text.
pub open spec fn text_of(value: Option<String>) -> Option<Seq<char>> {
    match value {
        Some(text) => Some(text@),
        None => None,
    }
}

/// The character of a decimal digit.
pub open spec fn digit(value: int) -> char {
    if value == 0 {
        '0'
    } else if value == 1 {
        '1'
    } else if value == 2 {
        '2'
    } else if value == 3 {
        '3'
    } else if value == 4 {
        '4'
    } else if value == 5 {
        '5'
    } else if value == 6 {
        '6'
    } else if value == 7 {
        '7'
    } else if value == 8 {
        '8'
    } else {
        '9'
    }
}

/// The decimal numeral of a natural number, without leading zeros.
pub open spec fn decimal(value: nat) -> Seq<char>
    decreases value,
{
    if value < 10 {
        seq![digit(value as int)]
    } else {
        decimal(value / 10).push(digit((value % 10) as int))
    }
}

/// The decimal numeral of an integer.
pub open spec fn signed_decimal(value: int) -> Seq<char> {
    if value < 0 {
        "-"@ + decimal((-value) as nat)
    } else {
        decimal(value as nat)
    }
}

/// The last `width` decimal digits of a natural number, zeros included.
pub open spec fn fixed_width(value: nat, width: nat) -> Seq<char>
    decreases width,
{
    if width == 0 {
        Seq::empty()
    } else {
        fixed_width(value / 10, (width - 1) as nat).push(digit((value % 10) as int))
    }
}

/// Ten to the given power.
pub open spec fn ten_to(power: nat) -> nat
    decreases power,
{
    if power == 0 {
        1
    } else {
        10 * ten_to((power - 1) as nat)
    }
}

/// Ten to a power is that power of ten.
pub proof fn ten_to_is_a_power(power: nat)
    ensures
        ten_to(power) == vstd::arithmetic::power::pow(10, power),
    decreases power,
{
    if power == 0 {
        vstd::arithmetic::power::lemma_pow0(10);
    } else {
        ten_to_is_a_power((power - 1) as nat);
        reveal(vstd::arithmetic::power::pow);
    }
}

fn digit_text(value: u64) -> (text: &'static str)
    requires
        value < 10,
    ensures
        text@ == seq![digit(value as int)],
{
    proof {
        reveal_strlit("0");
        reveal_strlit("1");
        reveal_strlit("2");
        reveal_strlit("3");
        reveal_strlit("4");
        reveal_strlit("5");
        reveal_strlit("6");
        reveal_strlit("7");
        reveal_strlit("8");
        reveal_strlit("9");
    }
    if value == 0 {
        "0"
    } else if value == 1 {
        "1"
    } else if value == 2 {
        "2"
    } else if value == 3 {
        "3"
    } else if value == 4 {
        "4"
    } else if value == 5 {
        "5"
    } else if value == 6 {
        "6"
    } else if value == 7 {
        "7"
    } else if value == 8 {
        "8"
    } else {
        "9"
    }
}

/// Appends the decimal numeral of `value`.
pub fn append_decimal(out: &mut String, value: u64)
    ensures
        final(out)@ == old(out)@ + decimal(value as nat),
    decreases value,
{
    if value >= 10 {
        append_decimal(out, value / 10);
    }
    out.append(digit_text(value % 10));
}

/// Appends the last `width` digits of `value`, padded with zeros.
pub fn append_fixed_width(out: &mut String, value: u64, width: u32)
    ensures
        final(out)@ == old(out)@ + fixed_width(value as nat, width as nat),
    decreases width,
{
    if width > 0 {
        append_fixed_width(out, value / 10, width - 1);
        out.append(digit_text(value % 10));
    }
}

/// The decimal numeral of `value`.
pub fn decimal_text(value: u64) -> (text: String)
    ensures
        text@ == decimal(value as nat),
{
    let mut out = String::new();
    append_decimal(&mut out, value);
    out
}

/// Appends the decimal numeral of an integer.
pub fn append_signed(out: &mut String, value: i64)
    ensures
        final(out)@ == old(out)@ + signed_decimal(value as int),
{
    if value < 0 {
        out.append("-");
        let magnitude: u64 = (-(value as i128)) as u64;
        append_decimal(out, magnitude);
    } else {
        append_decimal(out, value as u64);
    }
}

/// Two texts, one after the other.
pub fn join(a: &str, b: &str) -> (text: String)
    ensures
        text@ == a@ + b@,
{
    let mut text = a.to_owned();
    text.append(b);
    text
}

/// Three texts, one after the other.
pub fn join3(a: &str, b: &str, c: &str) -> (text: String)
    ensures
        text@ == a@ + b@ + c@,
{
    let mut text = a.to_owned();
    text.append(b);
    text.append(c);
    text
}

/// Four texts, one after the other.
pub fn join4(a: &str, b: &str, c: &str, d: &str) -> (text: String)
    ensures
        text@ == a@ + b@ + c@ + d@,
{
    let mut text = a.to_owned();
    text.append(b);
    text.append(c);
    text.append(d);
    text
}

/// Whether two texts hold the same characters.
pub fn same_text(left: &str, right: &str) -> (same: bool)
    ensures
        same == (left@ == right@),
{
    left.to_owned() == right.to_owned()
}

/// Whether two optional texts are both absent or hold the same characters.
pub fn same_optional(left: &Option<String>, right: &Option<String>) -> (same: bool)
    ensures
        same == (text_of(*left) == text_of(*right)),
{
    match (left, right) {
        (Some(left), Some(right)) => same_text(left.as_str(), right.as_str()),
        (None, None) => true,
        _ => false,
    }
}

/// A copy of an optional text.
pub fn copy_optional(value: &Option<String>) -> (copy: Option<String>)
    ensures
        copy == *value,
{
    match value {
        Some(text) => Some(text.clone()),
        None => None,
    }
}

/// Whether `text` begins with `prefix`.
pub open spec fn begins_with(text: Seq<char>, prefix: Seq<char>) -> bool {
    prefix.len() <= text.len() && text.subrange(0, prefix.len() as int) == prefix
}

/// Whether `text` begins with `prefix`.
pub fn starts_with(text: &str, prefix: &str) -> (found: bool)
    ensures
        found == begins_with(text@, prefix@),
{
    let length: usize = prefix.unicode_len();
    if text.unicode_len() < length {
        return false;
    }
    same_text(text.substring_char(0, length), prefix)
}

/// The order of byte sequences: the first difference decides, a proper prefix comes first.
pub open spec fn bytes_before(left: Seq<u8>, right: Seq<u8>) -> bool
    decreases left.len(),
{
    if right.len() == 0 {
        false
    } else if left.len() == 0 {
        true
    } else if left[0] != right[0] {
        left[0] < right[0]
    } else {
        bytes_before(left.subrange(1, left.len() as int), right.subrange(1, right.len() as int))
    }
}

/// The order of texts: that of their UTF-8 bytes.
pub open spec fn text_before(left: Seq<char>, right: Seq<char>) -> bool {
    bytes_before(vstd::utf8::encode_utf8(left), vstd::utf8::encode_utf8(right))
}

proof fn bytes_before_at(left: Seq<u8>, right: Seq<u8>, at: int)
    requires
        0 <= at <= left.len(),
        at <= right.len(),
        forall|i: int| 0 <= i < at ==> left[i] == right[i],
    ensures
        bytes_before(left, right) == bytes_before(
            left.subrange(at, left.len() as int),
            right.subrange(at, right.len() as int),
        ),
    decreases at,
{
    if at == 0 {
        assert(left.subrange(0, left.len() as int) =~= left);
        assert(right.subrange(0, right.len() as int) =~= right);
    } else {
        let rest_left = left.subrange(1, left.len() as int);
        let rest_right = right.subrange(1, right.len() as int);
        bytes_before_at(rest_left, rest_right, at - 1);
        assert(rest_left.subrange(at - 1, rest_left.len() as int) =~= left.subrange(at, left.len() as int));
        assert(rest_right.subrange(at - 1, rest_right.len() as int) =~= right.subrange(at, right.len() as int));
    }
}

/// Whether `left` comes before `right` in byte order.
pub fn precedes(left: &str, right: &str) -> (before: bool)
    ensures
        before == text_before(left@, right@),
{
    let a: &[u8] = left.as_bytes();
    let b: &[u8] = right.as_bytes();
    let mut i: usize = 0;
    while i < a.len() && i < b.len()
        invariant
            i <= a@.len(),
            i <= b@.len(),
            a@ == left.spec_bytes(),
            b@ == right.spec_bytes(),
            forall|j: int| 0 <= j < i ==> a@[j] == b@[j],
        decreases a@.len() - i,
    {
        if a[i] != b[i] {
            proof {
                bytes_before_at(a@, b@, i as int);
            }
            return a[i] < b[i];
        }
        i = i + 1;
    }
    proof {
        bytes_before_at(a@, b@, i as int);
    }
    i == a.len() && i < b.len()
}

/// Byte order is irreflexive.
pub proof fn bytes_before_irreflexive(text: Seq<u8>)
    ensures
        !bytes_before(text, text),
    decreases text.len(),
{
    if text.len() > 0 {
        bytes_before_irreflexive(text.subrange(1, text.len() as int));
    }
}

/// Byte order is transitive.
pub proof fn bytes_before_transitive(a: Seq<u8>, b: Seq<u8>, c: Seq<u8>)
    requires
        bytes_before(a, b),
        bytes_before(b, c),
    ensures
        bytes_before(a, c),
    decreases a.len(),
{
    if a.len() > 0 && a[0] == b[0] && b[0] == c[0] {
        bytes_before_transitive(
            a.subrange(1, a.len() as int),
            b.subrange(1, b.len() as int),
            c.subrange(1, c.len() as int),
        );
    }
}

/// Two different byte sequences are ordered one way or the other.
pub proof fn bytes_before_total(a: Seq<u8>, b: Seq<u8>)
    ensures
        a == b || bytes_before(a, b) || bytes_before(b, a),
    decreases a.len(),
{
    if a.len() > 0 && b.len() > 0 {
        if a[0] == b[0] {
            let rest_a = a.subrange(1, a.len() as int);
            let rest_b = b.subrange(1, b.len() as int);
            bytes_before_total(rest_a, rest_b);
            if rest_a == rest_b {
                assert(a =~= seq![a[0]] + rest_a);
                assert(b =~= seq![b[0]] + rest_b);
            }
        }
    } else if a.len() == 0 && b.len() == 0 {
        assert(a =~= b);
    }
}

/// The order of texts is strict, and any two different texts are ordered.
pub proof fn text_order(a: Seq<char>, b: Seq<char>, c: Seq<char>)
    ensures
        !text_before(a, a),
        text_before(a, b) && text_before(b, c) ==> text_before(a, c),
        text_before(a, b) ==> !text_before(b, a),
        a == b || text_before(a, b) || text_before(b, a),
{
    let x = vstd::utf8::encode_utf8(a);
    let y = vstd::utf8::encode_utf8(b);
    let z = vstd::utf8::encode_utf8(c);
    bytes_before_irreflexive(x);
    if bytes_before(x, y) && bytes_before(y, z) {
        bytes_before_transitive(x, y, z);
    }
    if bytes_before(x, y) && bytes_before(y, x) {
        bytes_before_transitive(x, y, x);
    }
    bytes_before_total(x, y);
    vstd::utf8::encode_utf8_decode_utf8(a);
    vstd::utf8::encode_utf8_decode_utf8(b);
}

/// The numeral of fixed width has that width.
pub proof fn fixed_width_length(value: nat, width: nat)
    ensures
        fixed_width(value, width).len() == width,
    decreases width,
{
    if width > 0 {
        fixed_width_length(value / 10, (width - 1) as nat);
    }
}

/// Numbers below ten to the width are told apart by their fixed-width numerals.
pub proof fn fixed_width_injective(left: nat, right: nat, width: nat)
    requires
        left < ten_to(width),
        right < ten_to(width),
        fixed_width(left, width) == fixed_width(right, width),
    ensures
        left == right,
    decreases width,
{
    if width > 0 {
        let a = fixed_width(left / 10, (width - 1) as nat);
        let b = fixed_width(right / 10, (width - 1) as nat);
        let p = digit((left % 10) as int);
        let q = digit((right % 10) as int);
        assert(a.push(p) == b.push(q));
        assert(a.push(p).drop_last() =~= a);
        assert(b.push(q).drop_last() =~= b);
        assert(a.push(p).last() == p);
        assert(b.push(q).last() == q);
        fixed_width_injective(left / 10, right / 10, (width - 1) as nat);
    }
}

/// Whether a character is a decimal digit.
pub open spec fn is_digit(c: char) -> bool {
    '0' <= c <= '9'
}

/// Whether a text is made of decimal digits.
pub open spec fn is_numeral(text: Seq<char>) -> bool {
    forall|i: int| 0 <= i < text.len() ==> is_digit(#[trigger] text[i])
}

/// The number that a digit stands for.
pub open spec fn digit_value(c: char) -> nat {
    (c as int - '0' as int) as nat
}

/// The number that a numeral stands for.
pub open spec fn numeral_value(text: Seq<char>) -> nat
    decreases text.len(),
{
    if text.len() == 0 {
        0
    } else {
        numeral_value(text.drop_last()) * 10 + digit_value(text.last())
    }
}

/// A fixed-width numeral stands for its number.
pub proof fn fixed_width_value(value: nat, width: nat)
    requires
        value < ten_to(width),
    ensures
        is_numeral(fixed_width(value, width)),
        numeral_value(fixed_width(value, width)) == value,
        fixed_width(value, width).len() == width,
    decreases width,
{
    if width > 0 {
        let shorter = fixed_width(value / 10, (width - 1) as nat);
        fixed_width_value(value / 10, (width - 1) as nat);
        let whole = fixed_width(value, width);
        assert(whole.drop_last() =~= shorter);
        assert(whole.last() == digit((value % 10) as int));
        assert forall|i: int| 0 <= i < whole.len() implies is_digit(#[trigger] whole[i]) by {
            if i < shorter.len() {
                assert(whole[i] == shorter[i]);
            }
        }
    }
}

/// Digits are the fixed-width numeral of the number that they stand for.
pub proof fn numeral_is_fixed_width(text: Seq<char>)
    requires
        is_numeral(text),
    ensures
        fixed_width(numeral_value(text), text.len()) == text,
        numeral_value(text) < ten_to(text.len()),
    decreases text.len(),
{
    if text.len() > 0 {
        let shorter = text.drop_last();
        assert forall|i: int| 0 <= i < shorter.len() implies is_digit(#[trigger] shorter[i]) by {
            assert(shorter[i] == text[i]);
        }
        numeral_is_fixed_width(shorter);
        assert(is_digit(text[text.len() - 1]));
        let value = numeral_value(text);
        assert(value / 10 == numeral_value(shorter));
        assert(value % 10 == digit_value(text.last()));
        assert(digit((value % 10) as int) == text.last());
        assert(fixed_width(value, text.len()) =~= shorter.push(text.last()));
        assert(text =~= shorter.push(text.last()));
    } else {
        assert(fixed_width(0, 0) =~= text);
    }
}

/// Every 64-bit number fits twenty digits.
pub proof fn twenty_digits(value: u64)
    ensures
        value < ten_to(20),
{
    assert(ten_to(20) == 100_000_000_000_000_000_000) by {
        reveal_with_fuel(ten_to, 21);
    }
}

/// Of two texts of ASCII characters the one with the smaller character at the first place where
/// they differ comes first.
pub proof fn ascii_order(left: Seq<char>, right: Seq<char>, at: int)
    requires
        vstd::utf8::is_ascii_chars(left),
        vstd::utf8::is_ascii_chars(right),
        0 <= at < left.len(),
        at < right.len(),
        left.take(at) == right.take(at),
        left[at] < right[at],
    ensures
        text_before(left, right),
{
    let a = vstd::utf8::encode_utf8(left);
    let b = vstd::utf8::encode_utf8(right);
    vstd::utf8::is_ascii_chars_encode_utf8(left);
    vstd::utf8::is_ascii_chars_encode_utf8(right);
    assert forall|i: int| 0 <= i < at implies a[i] == b[i] by {
        assert(left[i] == left.take(at)[i] && right[i] == right.take(at)[i]);
        assert(left[i] as u8 == a[i]);
        assert(right[i] as u8 == b[i]);
    }
    assert(left[at] as u8 == a[at]);
    assert(right[at] as u8 == b[at]);
    bytes_before_at(a, b, at);
}

/// Where the fixed-width numeral of a smaller number is smaller: at the first place where the two
/// differ.
pub proof fn fixed_width_order(left: nat, right: nat, width: nat) -> (at: int)
    requires
        left < right < ten_to(width),
    ensures
        0 <= at < width,
        fixed_width(left, width).len() == width,
        fixed_width(right, width).len() == width,
        fixed_width(left, width).take(at) == fixed_width(right, width).take(at),
        fixed_width(left, width)[at] < fixed_width(right, width)[at],
    decreases width,
{
    let shorter = (width - 1) as nat;
    let a = fixed_width(left / 10, shorter);
    let b = fixed_width(right / 10, shorter);
    fixed_width_length(left / 10, shorter);
    fixed_width_length(right / 10, shorter);
    if left / 10 == right / 10 {
        assert(fixed_width(left, width).take(width - 1) =~= a);
        assert(fixed_width(right, width).take(width - 1) =~= b);
        width - 1
    } else {
        let at = fixed_width_order(left / 10, right / 10, shorter);
        assert(fixed_width(left, width).take(at) =~= a.take(at));
        assert(fixed_width(right, width).take(at) =~= b.take(at));
        at
    }
}

/// The first digits of a numeral stand for no more than the whole.
pub proof fn numeral_grows(digits: Seq<char>, n: int)
    requires
        0 <= n <= digits.len(),
    ensures
        numeral_value(digits.take(n)) <= numeral_value(digits),
    decreases digits.len(),
{
    if n == digits.len() {
        assert(digits.take(n) =~= digits);
    } else {
        numeral_grows(digits.drop_last(), n);
        assert(digits.drop_last().take(n) =~= digits.take(n));
    }
}

/// The number that a run of digits of a text stands for, if it is one that fits.
pub fn parse_digits(text: &str, from: usize, to: usize) -> (value: Option<u64>)
    requires
        from <= to <= text@.len(),
        to - from <= 20,
    ensures
        value == ({
            let digits = text@.subrange(from as int, to as int);
            if is_numeral(digits) && numeral_value(digits) <= u64::MAX {
                Some(numeral_value(digits) as u64)
            } else {
                None
            }
        }),
{
    let ghost digits = text@.subrange(from as int, to as int);
    let mut value: u128 = 0;
    let mut i: usize = from;
    assert(digits.take(0) =~= Seq::empty());
    proof {
        assert(ten_to(20) == 100_000_000_000_000_000_000) by {
            reveal_with_fuel(ten_to, 21);
        }
    }
    while i < to
        invariant
            from <= i <= to,
            to <= text@.len(),
            to - from <= 20,
            digits == text@.subrange(from as int, to as int),
            is_numeral(digits.take(i - from)),
            value == numeral_value(digits.take(i - from)),
            value < ten_to((i - from) as nat),
            ten_to(20) == 100_000_000_000_000_000_000,
        decreases to - i,
    {
        let c: char = text.get_char(i);
        assert(c == digits[i - from]);
        if c < '0' || c > '9' {
            return None;
        }
        let ghost before = digits.take(i - from);
        let ghost after = digits.take(i + 1 - from);
        assert(after.drop_last() =~= before);
        assert(after.last() == c);
        proof {
            ten_to_grows((i - from) as nat, 20);
            assert(ten_to((i + 1 - from) as nat) == 10 * ten_to((i - from) as nat));
            assert forall|j: int| 0 <= j < after.len() implies is_digit(#[trigger] after[j]) by {
                if j < before.len() {
                    assert(after[j] == before[j]);
                }
            }
        }
        let step: u128 = (c as u32 - '0' as u32) as u128;
        value = value * 10 + step;
        i = i + 1;
    }
    assert(digits.take(i - from) =~= digits);
    if value > u64::MAX as u128 {
        None
    } else {
        Some(value as u64)
    }
}

proof fn ten_to_grows(low: nat, high: nat)
    requires
        low <= high,
    ensures
        ten_to(low) <= ten_to(high),
    decreases high,
{
    if low < high {
        ten_to_grows(low, (high - 1) as nat);
    }
}

/// Whether `text` ends with `suffix`.
pub open spec fn finishes_with(text: Seq<char>, suffix: Seq<char>) -> bool {
    suffix.len() <= text.len() && text.subrange(
        text.len() - suffix.len(),
        text.len() as int,
    ) == suffix
}

/// What stands before a suffix.
pub fn strip_suffix<'a>(text: &'a str, suffix: &str) -> (rest: Option<&'a str>)
    ensures
        rest is Some <==> finishes_with(text@, suffix@),
        rest matches Some(rest) ==> rest@ == text@.subrange(0, text@.len() - suffix@.len()),
{
    let length: usize = text.unicode_len();
    let tail: usize = suffix.unicode_len();
    if length < tail {
        return None;
    }
    if same_text(text.substring_char(length - tail, length), suffix) {
        Some(text.substring_char(0, length - tail))
    } else {
        None
    }
}

/// The views of a list of texts.
pub open spec fn views(texts: Seq<String>) -> Seq<Seq<char>> {
    texts.map_values(|text: String| text@)
}

/// A copy of a list of texts.
pub fn copy_texts(texts: &Vec<String>) -> (copy: Vec<String>)
    ensures
        copy@ == texts@,
{
    let mut copy: Vec<String> = Vec::new();
    let mut i: usize = 0;
    while i < texts.len()
        invariant
            i <= texts@.len(),
            copy@ == texts@.take(i as int),
        decreases texts@.len() - i,
    {
        copy.push(texts[i].clone());
        i = i + 1;
        assert(texts@.take(i as int) =~= texts@.take(i - 1).push(texts@[i - 1]));
    }
    assert(texts@.take(i as int) =~= texts@);
    copy
}

/// Appends copies of texts.
pub fn append_texts(list: &mut Vec<String>, texts: &Vec<String>)
    ensures
        views(final(list)@) == views(old(list)@) + views(texts@),
{
    let ghost before = list@;
    let mut i: usize = 0;
    assert(views(list@) =~= views(before) + views(texts@).take(0));
    while i < texts.len()
        invariant
            i <= texts@.len(),
            views(list@) == views(before) + views(texts@).take(i as int),
        decreases texts@.len() - i,
    {
        let ghost had = list@;
        list.push(texts[i].clone());
        i = i + 1;
        assert(views(list@) =~= views(had).push(texts@[i - 1]@));
        assert(views(list@) =~= views(before) + views(texts@).take(i as int));
    }
    assert(views(texts@).take(i as int) =~= views(texts@));
}

} // verus!
