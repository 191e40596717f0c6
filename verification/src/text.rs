//! Text as sequences of characters: ordering, decimal notation and joining.

use vstd::prelude::*;
use vstd::utf8::{decode_utf8, encode_utf8, valid_utf8};

use crate::error::NumberFault;

verus! {

broadcast use vstd::string::group_string_axioms;

/// `String::push` appends one character.
pub assume_specification[ String::push ](text: &mut String, character: char)
    ensures
        final(text)@ == old(text)@.push(character),
;

/// The words with which `String::from_utf8` refuses some bytes.
pub uninterp spec fn utf8_error_words(bytes: Seq<u8>) -> Seq<char>;

/// `String::from_utf8`: the text that the bytes encode exactly if they are valid UTF-8; its error
/// as words.
#[verifier::external_body]
pub(crate) fn text_from_utf8(bytes: Vec<u8>) -> (r: Result<String, String>)
    ensures
        match r {
            Ok(text) => valid_utf8(bytes@) && text@ == decode_utf8(bytes@),
            Err(words) => !valid_utf8(bytes@) && words@ == utf8_error_words(bytes@),
        },
{
    String::from_utf8(bytes).map_err(|error| error.to_string())
}

/// The texts that a sequence of owned strings holds.
pub open spec fn texts(strings: Seq<String>) -> Seq<Seq<char>> {
    Seq::new(strings.len(), |i: int| strings[i]@)
}

/// The texts of `parts`, each two neighbours parted by `separator`.
pub open spec fn joined(parts: Seq<Seq<char>>, separator: Seq<char>) -> Seq<char>
    decreases parts.len(),
{
    if parts.len() == 0 {
        Seq::empty()
    } else if parts.len() == 1 {
        parts[0]
    } else {
        joined(parts.drop_last(), separator) + separator + parts.last()
    }
}

/// A control character of Unicode: category Cc.
pub open spec fn control(character: char) -> bool {
    character <= '\u{1f}' || '\u{7f}' <= character <= '\u{9f}'
}

pub open spec fn ascii_digit(character: char) -> bool {
    '0' <= character <= '9'
}

pub open spec fn ascii_lower(character: char) -> bool {
    'a' <= character <= 'z'
}

pub open spec fn ascii_upper(character: char) -> bool {
    'A' <= character <= 'Z'
}

pub open spec fn ascii_alphanumeric(character: char) -> bool {
    ascii_digit(character) || ascii_lower(character) || ascii_upper(character)
}

/// The upper-case form of an ASCII letter; any other character itself.
pub open spec fn uppercased(character: char) -> char {
    if ascii_lower(character) {
        ((character as u32) - 32) as char
    } else {
        character
    }
}

/// The decimal digit that stands for `value`.
pub open spec fn digit(value: int) -> char
    recommends
        0 <= value < 10,
{
    (48 + value) as char
}

/// The number that a decimal digit stands for.
pub open spec fn digit_value(character: char) -> int {
    character as int - 48
}

/// `value` in decimal notation, without leading zeros.
pub open spec fn decimal(value: nat) -> Seq<char>
    decreases value,
{
    if value < 10 {
        seq![digit(value as int)]
    } else {
        decimal(value / 10).push(digit((value % 10) as int))
    }
}

/// `value` in decimal notation, with a minus sign where it is negative.
pub open spec fn signed_decimal(value: int) -> Seq<char> {
    if value < 0 {
        seq!['-'] + decimal((-value) as nat)
    } else {
        decimal(value as nat)
    }
}

/// Bytes in lexicographic order.
pub open spec fn bytes_before(left: Seq<u8>, right: Seq<u8>) -> bool
    decreases left.len(),
{
    if right.len() == 0 {
        false
    } else if left.len() == 0 {
        true
    } else if left[0] != right[0] {
        left[0] < right[0]
    } else {
        bytes_before(left.drop_first(), right.drop_first())
    }
}

/// Texts in the order of their UTF-8 encodings.
pub open spec fn text_before(left: Seq<char>, right: Seq<char>) -> bool {
    bytes_before(encode_utf8(left), encode_utf8(right))
}

/// Two texts with one encoding are one text.
pub proof fn lemma_encoding_injective(left: Seq<char>, right: Seq<char>)
    requires
        encode_utf8(left) == encode_utf8(right),
    ensures
        left == right,
{
    vstd::utf8::encode_utf8_decode_utf8(left);
    vstd::utf8::encode_utf8_decode_utf8(right);
}

proof fn lemma_bytes_before_transitive(a: Seq<u8>, b: Seq<u8>, c: Seq<u8>)
    requires
        bytes_before(a, b),
        bytes_before(b, c),
    ensures
        bytes_before(a, c),
    decreases a.len(),
{
    if a.len() > 0 && a[0] == b[0] && b[0] == c[0] {
        lemma_bytes_before_transitive(a.drop_first(), b.drop_first(), c.drop_first());
    }
}

proof fn lemma_bytes_before_irreflexive(a: Seq<u8>)
    ensures
        !bytes_before(a, a),
    decreases a.len(),
{
    if a.len() > 0 {
        lemma_bytes_before_irreflexive(a.drop_first());
    }
}

/// The order of texts is transitive.
pub proof fn lemma_text_before_transitive(a: Seq<char>, b: Seq<char>, c: Seq<char>)
    requires
        text_before(a, b),
        text_before(b, c),
    ensures
        text_before(a, c),
{
    lemma_bytes_before_transitive(encode_utf8(a), encode_utf8(b), encode_utf8(c));
}

/// No text comes before itself.
pub proof fn lemma_text_before_irreflexive(a: Seq<char>)
    ensures
        !text_before(a, a),
{
    lemma_bytes_before_irreflexive(encode_utf8(a));
}

/// Of two byte sequences, whether they are equal and which comes first depends on what follows a
/// common prefix.
proof fn lemma_bytes_before_skip(left: Seq<u8>, right: Seq<u8>, count: int)
    requires
        0 <= count <= left.len(),
        count <= right.len(),
        left.take(count) == right.take(count),
    ensures
        bytes_before(left, right) == bytes_before(left.skip(count), right.skip(count)),
    decreases count,
{
    if count == 0 {
        assert(left.skip(0) == left);
        assert(right.skip(0) == right);
    } else {
        assert(left[0] == left.take(count)[0]);
        assert(right[0] == right.take(count)[0]);
        let l = left.drop_first();
        let r = right.drop_first();
        assert(l.take(count - 1) == left.take(count).drop_first());
        assert(r.take(count - 1) == right.take(count).drop_first());
        lemma_bytes_before_skip(l, r, count - 1);
        assert(l.skip(count - 1) == left.skip(count));
        assert(r.skip(count - 1) == right.skip(count));
    }
}

/// How two texts stand in the order of their UTF-8 encodings.
#[derive(Debug, Clone, Copy, PartialEq, Eq, Structural)]
pub enum Placement {
    Before,
    Same,
    After,
}

/// Where `left` stands with respect to `right`.
pub fn place(left: &str, right: &str) -> (r: Placement)
    ensures
        r == Placement::Same <==> left@ == right@,
        r == Placement::Before <==> text_before(left@, right@),
        r == Placement::After <==> text_before(right@, left@),
{
    let l: &[u8] = left.as_bytes();
    let r: &[u8] = right.as_bytes();
    let ghost lb = l@;
    let ghost rb = r@;
    let mut i: usize = 0;
    while i < l.len() && i < r.len() && l[i] == r[i]
        invariant
            l@ == lb,
            r@ == rb,
            i <= lb.len(),
            i <= rb.len(),
            lb.take(i as int) == rb.take(i as int),
        decreases lb.len() - i,
    {
        assert(lb.take(i + 1) == lb.take(i as int).push(lb[i as int]));
        assert(rb.take(i + 1) == rb.take(i as int).push(rb[i as int]));
        i += 1;
    }
    proof {
        lemma_bytes_before_skip(lb, rb, i as int);
        lemma_bytes_before_skip(rb, lb, i as int);
        if left@ == right@ {
            lemma_text_before_irreflexive(left@);
        }
        if lb == rb {
            lemma_encoding_injective(left@, right@);
            lemma_text_before_irreflexive(left@);
        }
    }
    if i == l.len() && i == r.len() {
        assert(lb.take(i as int) == lb);
        assert(rb.take(i as int) == rb);
        Placement::Same
    } else if i == l.len() {
        Placement::Before
    } else if i == r.len() {
        Placement::After
    } else if l[i] < r[i] {
        Placement::Before
    } else {
        Placement::After
    }
}

/// Whether two texts are the same.
pub fn same_text(left: &str, right: &str) -> (r: bool)
    ensures
        r == (left@ == right@),
{
    match place(left, right) {
        Placement::Same => true,
        _ => false,
    }
}

/// The characters of a text.
pub fn characters(text: &str) -> (r: Vec<char>)
    ensures
        r@ == text@,
{
    let mut out: Vec<char> = Vec::new();
    for character in it: text.chars()
        invariant
            out@ == it.seq().take(it.index()),
            it.seq() == text@,
    {
        out.push(character);
    }
    out
}

/// Appends `value` in decimal notation.
pub fn push_decimal(out: &mut String, value: u64)
    ensures
        final(out)@ == old(out)@ + decimal(value as nat),
    decreases value,
{
    if value >= 10 {
        push_decimal(out, value / 10);
    }
    let last: u64 = value % 10;
    let character: char = if last == 0 {
        '0'
    } else if last == 1 {
        '1'
    } else if last == 2 {
        '2'
    } else if last == 3 {
        '3'
    } else if last == 4 {
        '4'
    } else if last == 5 {
        '5'
    } else if last == 6 {
        '6'
    } else if last == 7 {
        '7'
    } else if last == 8 {
        '8'
    } else {
        '9'
    };
    out.push(character);
}

/// Appends `value` in decimal notation, with a minus sign where it is negative.
pub fn push_signed(out: &mut String, value: i64)
    ensures
        final(out)@ == old(out)@ + signed_decimal(value as int),
{
    if value < 0 {
        out.push('-');
        let magnitude: u64 = if value == i64::MIN {
            0x8000_0000_0000_0000u64
        } else {
            (-value) as u64
        };
        push_decimal(out, magnitude);
    } else {
        push_decimal(out, value as u64);
    }
}

/// The texts of `parts`, each two neighbours parted by `separator`.
pub fn join(parts: &Vec<String>, separator: &str) -> (r: String)
    ensures
        r@ == joined(texts(parts@), separator@),
{
    let mut out: String = String::new();
    let mut i: usize = 0;
    while i < parts.len()
        invariant
            i <= parts.len(),
            out@ == joined(texts(parts@).take(i as int), separator@),
        decreases parts.len() - i,
    {
        if i > 0 {
            out.append(separator);
        }
        out.append(parts[i].as_str());
        assert(texts(parts@).take(i + 1).drop_last() == texts(parts@).take(i as int));
        i += 1;
    }
    assert(texts(parts@).take(i as int) == texts(parts@));
    out
}

/// A copy of a list of texts.
pub fn copy_texts(parts: &Vec<String>) -> (r: Vec<String>)
    ensures
        texts(r@) == texts(parts@),
{
    let mut out: Vec<String> = Vec::new();
    let mut i: usize = 0;
    while i < parts.len()
        invariant
            i <= parts.len(),
            out.len() == i,
            forall|j: int| 0 <= j < i ==> (#[trigger] out@[j])@ == parts@[j]@,
        decreases parts.len() - i,
    {
        out.push(parts[i].clone());
        i += 1;
    }
    assert(texts(out@) =~= texts(parts@));
    out
}

/// How many digits a text begins with.
pub open spec fn digit_run(text: Seq<char>) -> nat
    decreases text.len(),
{
    if text.len() == 0 || !ascii_digit(text[0]) {
        0
    } else {
        1 + digit_run(text.drop_first())
    }
}

/// The number that a row of decimal digits stands for.
pub open spec fn digits_value(digits: Seq<char>) -> int
    decreases digits.len(),
{
    if digits.len() == 0 {
        0
    } else {
        digits_value(digits.drop_last()) * 10 + digit_value(digits.last())
    }
}

/// Whether a text begins with a sign.
pub open spec fn signed(text: Seq<char>) -> bool {
    text.len() > 0 && (text[0] == '-' || text[0] == '+')
}

/// The number that a text spells: an optional sign, then digits up to the end.
///
/// The digits that the text begins with count as a number that is out of range even if something
/// else follows them.
pub open spec fn spelled_number(text: Seq<char>) -> Result<i64, NumberFault> {
    let negative = text.len() > 0 && text[0] == '-';
    let body = if signed(text) {
        text.drop_first()
    } else {
        text
    };
    let run = digit_run(body);
    let magnitude = digits_value(body.take(run as int));
    let value = if negative {
        -magnitude
    } else {
        magnitude
    };
    if text.len() == 0 {
        Err(NumberFault::Empty)
    } else if value > i64::MAX {
        Err(NumberFault::TooLarge)
    } else if value < i64::MIN {
        Err(NumberFault::TooSmall)
    } else if run == 0 || run < body.len() {
        Err(NumberFault::InvalidDigit)
    } else {
        Ok(value as i64)
    }
}

proof fn lemma_digit_run(text: Seq<char>, count: int)
    requires
        0 <= count <= text.len(),
        forall|i: int| 0 <= i < count ==> ascii_digit(#[trigger] text[i]),
    ensures
        count <= digit_run(text) <= text.len(),
        count < text.len() && !ascii_digit(text[count]) ==> digit_run(text) == count,
        forall|i: int| 0 <= i < digit_run(text) ==> ascii_digit(#[trigger] text[i]),
    decreases text.len(),
{
    if text.len() > 0 && ascii_digit(text[0]) {
        let rest = text.drop_first();
        let less = if count > 0 {
            count - 1
        } else {
            0
        };
        assert forall|i: int| 0 <= i < less implies ascii_digit(#[trigger] rest[i]) by {
            assert(rest[i] == text[i + 1]);
        }
        lemma_digit_run(rest, less);
        assert forall|i: int| 0 <= i < digit_run(text) implies ascii_digit(#[trigger] text[i]) by {
            if i > 0 {
                assert(text[i] == rest[i - 1]);
            }
        }
    } else if count > 0 {
        assert(ascii_digit(text[0]));
    }
}

proof fn lemma_digits_value_grows(digits: Seq<char>, short: int, long: int)
    requires
        0 <= short <= long <= digits.len(),
        forall|i: int| 0 <= i < long ==> ascii_digit(#[trigger] digits[i]),
    ensures
        0 <= digits_value(digits.take(short)) <= digits_value(digits.take(long)),
    decreases long,
{
    if long > 0 {
        assert(digits.take(long).drop_last() == digits.take(long - 1));
        assert(ascii_digit(digits[long - 1]));
        if short < long {
            lemma_digits_value_grows(digits, short, long - 1);
        } else {
            lemma_digits_value_grows(digits, short - 1, long - 1);
        }
    }
}

/// Reads the number that a text spells.
pub fn parse_number(text: &str) -> (r: Result<i64, NumberFault>)
    ensures
        r == spelled_number(text@),
{
    let characters = characters(text);
    if characters.len() == 0 {
        return Err(NumberFault::Empty);
    }
    let negative: bool = characters[0] == '-';
    let start: usize = if negative || characters[0] == '+' {
        1
    } else {
        0
    };
    let limit: u128 = if negative {
        0x8000_0000_0000_0000u128
    } else {
        0x7fff_ffff_ffff_ffffu128
    };
    let ghost body = if signed(text@) {
        text@.drop_first()
    } else {
        text@
    };
    assert(body == text@.skip(start as int));
    let mut magnitude: u128 = 0;
    let mut index: usize = start;
    while index < characters.len()
        invariant
            characters@ == text@,
            text@.len() > 0,
            start <= index <= text@.len(),
            start <= 1,
            start == 1 <==> signed(text@),
            negative == (text@[0] == '-'),
            limit == if negative {
                0x8000_0000_0000_0000u128
            } else {
                0x7fff_ffff_ffff_ffffu128
            },
            body == text@.skip(start as int),
            body == if signed(text@) {
                text@.drop_first()
            } else {
                text@
            },
            forall|i: int| 0 <= i < index - start ==> ascii_digit(#[trigger] body[i]),
            magnitude == digits_value(body.take(index - start)),
            magnitude <= limit,
        decreases characters.len() - index,
    {
        let character: char = characters[index];
        let ghost done = index - start;
        assert(body[done] == text@[index as int]);
        if !('0' <= character && character <= '9') {
            proof {
                lemma_digit_run(body, done);
            }
            return Err(NumberFault::InvalidDigit);
        }
        assert(body.take(done + 1).drop_last() == body.take(done));
        let value: u128 = (character as u32 - 48) as u128;
        magnitude = magnitude * 10 + value;
        if magnitude > limit {
            proof {
                lemma_digit_run(body, done + 1);
                lemma_digits_value_grows(body, done + 1, digit_run(body) as int);
            }
            return if negative {
                Err(NumberFault::TooSmall)
            } else {
                Err(NumberFault::TooLarge)
            };
        }
        index += 1;
    }
    proof {
        lemma_digit_run(body, body.len() as int);
    }
    assert(body.take(body.len() as int) == body);
    if characters.len() == start {
        Err(NumberFault::InvalidDigit)
    } else if negative {
        if magnitude == 0x8000_0000_0000_0000u128 {
            Ok(i64::MIN)
        } else {
            Ok(-(magnitude as i64))
        }
    } else {
        Ok(magnitude as i64)
    }
}

/// A text parted at the first place where `separator` stands.
pub open spec fn parted(text: Seq<char>, separator: char) -> Option<(Seq<char>, Seq<char>)> {
    match text.index_of_first(separator) {
        Some(place) => Some((text.take(place), text.skip(place + 1))),
        None => None,
    }
}

/// A text that is put together of two parts and a separator is parted there again, if the separator
/// does not stand in the first part.
pub proof fn lemma_parted_at(before: Seq<char>, separator: char, after: Seq<char>)
    requires
        !before.contains(separator),
    ensures
        parted(before + seq![separator] + after, separator) == Some((before, after)),
{
    let whole = before + seq![separator] + after;
    whole.index_of_first_ensures(separator);
    assert(whole[before.len() as int] == separator);
    assert(whole.contains(separator));
    let place = whole.index_of_first(separator)->Some_0;
    if place < before.len() {
        assert(before[place] == separator);
    }
    assert(place == before.len());
    assert(whole.take(place) =~= before);
    assert(whole.skip(place + 1) =~= after);
}

/// The parts of a text and the separator between them make up its length.
pub proof fn lemma_parted_length(text: Seq<char>, separator: char)
    ensures
        parted(text, separator) matches Some((before, after)) ==> before.len() + 1 + after.len()
            == text.len(),
{
    text.index_of_first_ensures(separator);
}

/// Parts a text at the first place where `separator` stands.
pub fn split_once(text: &str, separator: char) -> (r: Option<(&str, &str)>)
    ensures
        r is Some <==> parted(text@, separator) is Some,
        r matches Some(parts) ==> parted(text@, separator) == Some((parts.0@, parts.1@)),
        r is Some <==> text@.contains(separator),
        r matches Some(parts) ==> {
            &&& text@ == parts.0@ + seq![separator] + parts.1@
            &&& !parts.0@.contains(separator)
        },
{
    let characters = characters(text);
    let mut index: usize = 0;
    while index < characters.len()
        invariant
            characters@ == text@,
            index <= text@.len(),
            forall|i: int| 0 <= i < index ==> text@[i] != separator,
        decreases characters.len() - index,
    {
        if characters[index] == separator {
            proof {
                text@.index_of_first_ensures(separator);
                assert(text@.contains(separator)) by {
                    assert(text@[index as int] == separator);
                }
            }
            let before = text.substring_char(0, index);
            let after = text.substring_char(index + 1, characters.len());
            assert(before@ == text@.take(index as int));
            assert(after@ == text@.skip(index + 1));
            assert(text@ =~= before@ + seq![separator] + after@);
            return Some((before, after));
        }
        index += 1;
    }
    proof {
        text@.index_of_first_ensures(separator);
    }
    None
}

/// Whether a character is a control character.
pub fn is_control(character: char) -> (r: bool)
    ensures
        r == control(character),
{
    character <= '\u{1f}' || ('\u{7f}' <= character && character <= '\u{9f}')
}

/// A text is parted exactly if the separator stands in it; the parts with the separator between
/// them make up the text, and the separator does not stand in the first of them.
pub proof fn law_parts_make_up_the_text(text: Seq<char>, separator: char)
    ensures
        parted(text, separator) is Some <==> text.contains(separator),
        parted(text, separator) matches Some((before, after)) ==> {
            &&& text == before + seq![separator] + after
            &&& !before.contains(separator)
        },
{
    text.index_of_first_ensures(separator);
    if let Some((before, after)) = parted(text, separator) {
        assert(text =~= before + seq![separator] + after);
    }
}

/// One text comes before another exactly if its UTF-8 bytes do: where the two differ first, its
/// byte is the lower one, or it ends there and the other goes on.
pub proof fn law_texts_are_ordered_by_their_bytes(left: Seq<char>, right: Seq<char>)
    ensures
        ({
            let l = encode_utf8(left);
            let r = encode_utf8(right);
            text_before(left, right) <==> exists|k: int|
                0 <= k <= l.len() && k < r.len() && #[trigger] l.take(k) == r.take(k) && (k == l.len()
                    || l[k] < r[k])
        }),
{
    lemma_bytes_order(encode_utf8(left), encode_utf8(right));
}

proof fn lemma_bytes_order(l: Seq<u8>, r: Seq<u8>)
    ensures
        bytes_before(l, r) <==> exists|k: int|
            0 <= k <= l.len() && k < r.len() && #[trigger] l.take(k) == r.take(k) && (k == l.len()
                || l[k] < r[k]),
    decreases l.len(),
{
    if bytes_before(l, r) {
        if l.len() == 0 || l[0] != r[0] {
            assert(l.take(0) =~= r.take(0));
        } else {
            lemma_bytes_order(l.drop_first(), r.drop_first());
            let m = l.drop_first();
            let n = r.drop_first();
            let k = choose|k: int|
                0 <= k <= m.len() && k < n.len() && #[trigger] m.take(k) == n.take(k) && (k
                    == m.len() || m[k] < n[k]);
            assert(l.take(k + 1) =~= seq![l[0]] + m.take(k));
            assert(r.take(k + 1) =~= seq![r[0]] + n.take(k));
        }
    } else if exists|k: int|
        0 <= k <= l.len() && k < r.len() && #[trigger] l.take(k) == r.take(k) && (k == l.len()
            || l[k] < r[k]) {
        let k = choose|k: int|
            0 <= k <= l.len() && k < r.len() && #[trigger] l.take(k) == r.take(k) && (k == l.len()
                || l[k] < r[k]);
        lemma_bytes_before_skip(l, r, k);
    }
}

/// The decimal notation of a number consists of digits, begins with no zero unless it is one digit,
/// ends with the digit of the ones, and has before that the notation of the tens.
pub proof fn law_decimal_notation(value: nat)
    ensures
        decimal(value).len() > 0,
        forall|i: int| 0 <= i < decimal(value).len() ==> '0' <= #[trigger] decimal(value)[i] <= '9',
        decimal(value).len() > 1 ==> decimal(value)[0] != '0',
        decimal(value).last() as int == 48 + value % 10,
        value < 10 <==> decimal(value).len() == 1,
        value >= 10 ==> decimal(value).drop_last() == decimal(value / 10),
    decreases value,
{
    if value >= 10 {
        law_decimal_notation(value / 10);
        assert(decimal(value).drop_last() =~= decimal(value / 10));
        assert forall|i: int| 0 <= i < decimal(value).len() implies '0' <= #[trigger] decimal(
            value,
        )[i] <= '9' by {
            if i < decimal(value).len() - 1 {
                assert(decimal(value)[i] == decimal(value / 10)[i]);
            }
        }
        assert(decimal(value)[0] == decimal(value / 10)[0]);
        if value / 10 < 10 {
            assert(decimal(value / 10).last() == decimal(value / 10)[0]);
        }
    }
}

/// A negative number is written with a minus sign before its magnitude, any other without a sign.
pub proof fn law_signs_are_written(value: int)
    ensures
        value < 0 ==> signed_decimal(value) == seq!['-'] + decimal((-value) as nat),
        value >= 0 ==> signed_decimal(value) == decimal(value as nat),
{
}

proof fn lemma_digits_of_decimal(value: nat)
    ensures
        digit_run(decimal(value)) == decimal(value).len(),
        digits_value(decimal(value)) == value,
    decreases value,
{
    law_decimal_notation(value);
    let text = decimal(value);
    lemma_digit_run(text, text.len() as int);
    if value >= 10 {
        lemma_digits_of_decimal(value / 10);
        assert(text.drop_last() == decimal(value / 10));
    } else {
        assert(text.drop_last() =~= Seq::<char>::empty());
        assert(digits_value(text.drop_last()) == 0);
    }
}

/// Every number is read back from its decimal notation, with a plus sign before it too.
pub proof fn law_numbers_are_read_back(value: i64)
    ensures
        spelled_number(signed_decimal(value as int)) == Ok::<i64, NumberFault>(value),
        value >= 0 ==> spelled_number(seq!['+'] + decimal(value as nat)) == Ok::<i64, NumberFault>(
            value,
        ),
{
    let magnitude = if value < 0 {
        (-(value as int)) as nat
    } else {
        value as nat
    };
    let digits = decimal(magnitude);
    lemma_digits_of_decimal(magnitude);
    law_decimal_notation(magnitude);
    assert(digits.take(digits.len() as int) =~= digits);
    assert('0' <= digits[0] <= '9');
    assert((seq!['-'] + digits).drop_first() =~= digits);
    assert((seq!['+'] + digits).drop_first() =~= digits);
}

/// A text spells a number only if it consists of digits, at least one, after one sign at most; and
/// with another digit at its end it spells ten times the number and that digit, on the side of zero
/// that its sign says, as long as that fits in 64 bits.
pub proof fn law_spelled_numbers_consist_of_digits(text: Seq<char>, more: char)
    requires
        spelled_number(text) is Ok,
        '0' <= more <= '9',
    ensures
        ({
            let sign = text[0] == '-' || text[0] == '+';
            let first = if sign {
                1int
            } else {
                0int
            };
            let value = spelled_number(text)->Ok_0;
            let next = if text[0] == '-' {
                10 * value - (more as int - 48)
            } else {
                10 * value + (more as int - 48)
            };
            &&& text.len() > first
            &&& forall|i: int| first <= i < text.len() ==> '0' <= #[trigger] text[i] <= '9'
            &&& text[0] == '-' ==> value <= 0
            &&& text[0] != '-' ==> value >= 0
            &&& i64::MIN <= next <= i64::MAX ==> spelled_number(text.push(more)) == Ok::<
                i64,
                NumberFault,
            >(next as i64)
            &&& next > i64::MAX ==> spelled_number(text.push(more)) == Err::<i64, NumberFault>(
                NumberFault::TooLarge,
            )
            &&& next < i64::MIN ==> spelled_number(text.push(more)) == Err::<i64, NumberFault>(
                NumberFault::TooSmall,
            )
        }),
{
    let body = if signed(text) {
        text.drop_first()
    } else {
        text
    };
    let longer = text.push(more);
    let longer_body = if signed(longer) {
        longer.drop_first()
    } else {
        longer
    };
    lemma_digit_run(body, 0);
    assert(body.take(body.len() as int) =~= body);
    let first = if signed(text) {
        1int
    } else {
        0int
    };
    assert forall|i: int| first <= i < text.len() implies '0' <= #[trigger] text[i] <= '9' by {
        assert(text[i] == body[i - first]);
        assert(ascii_digit(body[i - first]));
    }
    lemma_digits_value_grows(body, 0, body.len() as int);
    assert(longer_body =~= body.push(more));
    assert forall|i: int| 0 <= i < longer_body.len() implies ascii_digit(
        #[trigger] longer_body[i],
    ) by {
        if i < body.len() {
            assert(longer_body[i] == body[i]);
        }
    }
    lemma_digit_run(longer_body, longer_body.len() as int);
    assert(longer_body.take(longer_body.len() as int) =~= longer_body);
    assert(longer_body.drop_last() =~= body);
}

/// Where a text spells no number: nothing is empty but nothing itself; a text that begins with
/// something else than a sign or a digit, and a sign alone, have an invalid digit.
pub proof fn law_what_spells_no_number(text: Seq<char>)
    ensures
        text.len() == 0 <==> spelled_number(text) == Err::<i64, NumberFault>(NumberFault::Empty),
        text.len() > 0 && text[0] != '-' && text[0] != '+' && !('0' <= text[0] <= '9')
            ==> spelled_number(text) == Err::<i64, NumberFault>(NumberFault::InvalidDigit),
        text.len() == 1 && (text[0] == '-' || text[0] == '+') ==> spelled_number(text) == Err::<
            i64,
            NumberFault,
        >(NumberFault::InvalidDigit),
        forall|digits: Seq<char>, other: char, rest: Seq<char>|
            spelled_number(digits) is Ok && !('0' <= other <= '9') && text == #[trigger] (digits
                + seq![other] + rest) ==> spelled_number(text) == Err::<i64, NumberFault>(
                NumberFault::InvalidDigit,
            ),
{
    if text.len() > 0 {
        let none = text.take(0);
        assert(digits_value(none) == 0);
        assert(digits_value(text.drop_first().take(0)) == 0);
    }
    assert forall|digits: Seq<char>, other: char, rest: Seq<char>|
        spelled_number(digits) is Ok && !('0' <= other <= '9') && text == #[trigger] (digits + seq![
            other,
        ] + rest) implies spelled_number(text) == Err::<i64, NumberFault>(
        NumberFault::InvalidDigit,
    ) by {
        law_spelled_numbers_consist_of_digits(digits, '0');
        let read = if signed(digits) {
            digits.drop_first()
        } else {
            digits
        };
        let body = if signed(text) {
            text.drop_first()
        } else {
            text
        };
        assert(text[0] == digits[0]);
        assert(body =~= read + seq![other] + rest);
        lemma_digit_run(read, 0);
        assert forall|i: int| 0 <= i < read.len() implies ascii_digit(#[trigger] body[i]) by {
            assert(body[i] == read[i]);
        }
        assert(body[read.len() as int] == other);
        lemma_digit_run(body, read.len() as int);
        assert(body.take(read.len() as int) =~= read);
        assert(read.take(read.len() as int) =~= read);
    }
}

/// Joined texts: nothing gives nothing, one text gives itself, and of two rows that are joined one
/// after the other the separator stands between what each of them gives.
pub proof fn law_joining_is_joining_the_parts(
    left: Seq<Seq<char>>,
    right: Seq<Seq<char>>,
    separator: Seq<char>,
)
    ensures
        left.len() == 0 ==> joined(left, separator) == Seq::<char>::empty(),
        left.len() == 1 ==> joined(left, separator) == left[0],
        left.len() > 0 && right.len() > 0 ==> joined(left + right, separator) == joined(
            left,
            separator,
        ) + separator + joined(right, separator),
    decreases right.len(),
{
    if left.len() > 0 && right.len() > 0 {
        let whole = left + right;
        let less = right.drop_last();
        assert(whole.drop_last() =~= left + less);
        assert(whole.last() == right.last());
        if right.len() == 1 {
            assert(left + less =~= left);
        } else {
            law_joining_is_joining_the_parts(left, less, separator);
            assert(joined(whole, separator) =~= joined(left, separator) + separator + joined(
                right,
                separator,
            ));
        }
    }
}

/// The texts of a row of strings are those strings, in order.
pub proof fn law_texts_are_the_strings(strings: Seq<String>)
    ensures
        texts(strings).len() == strings.len(),
        forall|i: int| 0 <= i < strings.len() ==> #[trigger] texts(strings)[i] == strings[i]@,
{
}

/// A minus sign before the notation of a number spells its opposite, and that of zero zero.
pub proof fn law_opposites_are_read_back(value: nat)
    requires
        value <= 0x8000_0000_0000_0000,
    ensures
        spelled_number(seq!['-'] + decimal(value)) == Ok::<i64, NumberFault>((-value) as i64),
{
    let digits = decimal(value);
    lemma_digits_of_decimal(value);
    law_decimal_notation(value);
    assert(digits.take(digits.len() as int) =~= digits);
    assert((seq!['-'] + digits).drop_first() =~= digits);
}

/// A text whose digits spell a number that is out of range is refused for that, whatever else
/// follows them.
pub proof fn law_numbers_out_of_range_stay_so(text: Seq<char>, rest: Seq<char>)
    ensures
        spelled_number(text) == Err::<i64, NumberFault>(NumberFault::TooLarge) ==> spelled_number(
            text + rest,
        ) == Err::<i64, NumberFault>(NumberFault::TooLarge),
        spelled_number(text) == Err::<i64, NumberFault>(NumberFault::TooSmall) ==> spelled_number(
            text + rest,
        ) == Err::<i64, NumberFault>(NumberFault::TooSmall),
{
    if text.len() > 0 {
        let body = if signed(text) {
            text.drop_first()
        } else {
            text
        };
        let longer = if signed(text + rest) {
            (text + rest).drop_first()
        } else {
            text + rest
        };
        assert((text + rest)[0] == text[0]);
        assert(longer =~= body + rest);
        lemma_digit_run(body, 0);
        let run = digit_run(body) as int;
        assert forall|i: int| 0 <= i < run implies ascii_digit(#[trigger] longer[i]) by {
            assert(longer[i] == body[i]);
        }
        lemma_digit_run(longer, run);
        lemma_digits_value_grows(longer, run, digit_run(longer) as int);
        assert(longer.take(run) =~= body.take(run));
    }
}

} // verus!
