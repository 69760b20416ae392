//! Text helpers: classes of characters, comparing strings, reading integer
//! and string literals, and writing decimal numerals.

use vstd::prelude::*;
use vstd::slice::*;
use vstd::string::*;

verus! {

/// Whether `c` is white space: a character with the Unicode property
/// `White_Space`.
pub open spec fn is_space(c: char) -> bool {
    ||| '\u{9}' <= c <= '\u{d}'
    ||| c == ' '
    ||| c == '\u{85}'
    ||| c == '\u{a0}'
    ||| c == '\u{1680}'
    ||| '\u{2000}' <= c <= '\u{200a}'
    ||| c == '\u{2028}'
    ||| c == '\u{2029}'
    ||| c == '\u{202f}'
    ||| c == '\u{205f}'
    ||| c == '\u{3000}'
}

/// Whether `c` can stand inside an identifier: an ASCII letter, an ASCII digit
/// or `_`.
pub open spec fn is_identifier_char(c: char) -> bool {
    ||| c == '_'
    ||| 'a' <= c <= 'z'
    ||| 'A' <= c <= 'Z'
    ||| '0' <= c <= '9'
}

/// Whether `c` is white space.
pub fn space(c: char) -> (yes: bool)
    ensures
        yes == is_space(c),
{
    ('\u{9}' <= c && c <= '\u{d}') || c == ' ' || c == '\u{85}' || c == '\u{a0}' || c == '\u{1680}'
        || ('\u{2000}' <= c && c <= '\u{200a}') || c == '\u{2028}' || c == '\u{2029}' || c
        == '\u{202f}' || c == '\u{205f}' || c == '\u{3000}'
}

/// Whether `c` can stand inside an identifier.
pub fn identifier_char(c: char) -> (yes: bool)
    ensures
        yes == is_identifier_char(c),
{
    c == '_' || ('a' <= c && c <= 'z') || ('A' <= c && c <= 'Z') || ('0' <= c && c <= '9')
}

/// Whether `c` opens and closes a string literal.
pub open spec fn is_quote(c: char) -> bool {
    c == '"' || c == '\''
}

/// The text of a string literal: what stands between its first and its last
/// character, where these are the same quote character. `None` for a lexeme
/// that is not enclosed in quotes.
pub open spec fn unquoted(lexeme: Seq<char>) -> Option<Seq<char>> {
    if lexeme.len() >= 2 && is_quote(lexeme[0]) && lexeme.last() == lexeme[0] {
        Some(lexeme.subrange(1, lexeme.len() - 1))
    } else {
        None
    }
}

/// The text of a string literal, without its quotes.
pub fn unquote(lexeme: &str) -> (text: Option<String>)
    ensures
        text matches Some(inner) ==> unquoted(lexeme@) == Some(inner@),
        text is None ==> unquoted(lexeme@) is None,
{
    let length = lexeme.unicode_len();
    if length < 2 {
        return None;
    }
    let first = lexeme.get_char(0);
    if (first == '"' || first == '\'') && lexeme.get_char(length - 1) == first {
        Some(String::from_str(lexeme.substring_char(1, length - 1)))
    } else {
        None
    }
}

/// Whether `c` is a digit of the given base (10 or 16).
pub open spec fn is_digit(c: char, base: int) -> bool {
    ||| '0' <= c <= '9'
    ||| base == 16 && ('a' <= c <= 'f' || 'A' <= c <= 'F')
}

/// The value of a digit.
pub open spec fn digit(c: char) -> int {
    if '0' <= c <= '9' {
        c as int - 48
    } else if 'a' <= c <= 'f' {
        c as int - 87
    } else {
        c as int - 55
    }
}

/// The number that a run of digits spells in the given base; the empty run
/// spells 0.
pub open spec fn number(digits: Seq<char>, base: int) -> int
    decreases digits.len(),
{
    if digits.len() == 0 {
        0
    } else {
        number(digits.drop_last(), base) * base + digit(digits.last())
    }
}

/// Whether every character of `digits` is a digit of the given base.
pub open spec fn all_digits(digits: Seq<char>, base: int) -> bool {
    forall|i: int| 0 <= i < digits.len() ==> is_digit(#[trigger] digits[i], base)
}

/// The value of an unsigned integer literal: `0x` and at least one hexadecimal
/// digit, or at least one decimal digit. `None` for any other text.
pub open spec fn magnitude(text: Seq<char>) -> Option<int> {
    if text.len() > 2 && text[0] == '0' && text[1] == 'x' && all_digits(text.skip(2), 16) {
        Some(number(text.skip(2), 16))
    } else if text.len() > 0 && all_digits(text, 10) {
        Some(number(text, 10))
    } else {
        None
    }
}

/// The value of an integer literal: an optional `-`, then an unsigned literal.
pub open spec fn integer_value(text: Seq<char>) -> Option<int> {
    if text.len() > 0 && text[0] == '-' {
        match magnitude(text.skip(1)) {
            Some(m) => Some(-m),
            None => None,
        }
    } else {
        magnitude(text)
    }
}

/// The value of an integer literal that a machine integer can hold.
pub open spec fn machine_integer(text: Seq<char>) -> Option<int> {
    match integer_value(text) {
        Some(v) => if isize::MIN <= v <= isize::MAX {
            Some(v)
        } else {
            None
        },
        None => None,
    }
}

/// A run of digits spells no less than any of its prefixes.
pub proof fn lemma_number_prefix(digits: Seq<char>, base: int, n: int)
    requires
        base == 10 || base == 16,
        all_digits(digits, base),
        0 <= n <= digits.len(),
    ensures
        0 <= number(digits.take(n), base) <= number(digits, base),
    decreases digits.len() - n,
{
    if n == digits.len() {
        assert(digits.take(n) =~= digits);
        lemma_number_nonnegative(digits, base);
    } else {
        let longer = digits.take(n + 1);
        assert(longer.drop_last() =~= digits.take(n));
        assert(longer.last() == digits[n]);
        assert(is_digit(digits[n], base));
        lemma_number_prefix(digits, base, n + 1);
        lemma_number_nonnegative(digits.take(n), base);
        let shorter = number(digits.take(n), base);
        assert(shorter <= shorter * base) by (nonlinear_arith)
            requires
                shorter >= 0,
                base >= 1,
        ;
    }
}

/// A run of digits spells a number that is not negative.
pub proof fn lemma_number_nonnegative(digits: Seq<char>, base: int)
    requires
        base == 10 || base == 16,
        all_digits(digits, base),
    ensures
        0 <= number(digits, base),
    decreases digits.len(),
{
    if digits.len() > 0 {
        assert(is_digit(digits.last(), base));
        assert(all_digits(digits.drop_last(), base)) by {
            assert forall|i: int| 0 <= i < digits.drop_last().len() implies is_digit(
                #[trigger] digits.drop_last()[i],
                base,
            ) by {
                assert(digits.drop_last()[i] == digits[i]);
            }
        }
        lemma_number_nonnegative(digits.drop_last(), base);
        let rest = number(digits.drop_last(), base);
        assert(0 <= rest * base) by (nonlinear_arith)
            requires
                rest >= 0,
                base >= 1,
        ;
    }
}

/// The value of the digit `b` in the given base, if it is one.
fn digit_of_byte(b: u8, hex: bool) -> (d: Option<u8>)
    ensures
        match d {
            Some(v) => b < 128 && is_digit(b as char, if hex { 16int } else { 10int }) && v
                == digit(b as char),
            None => b >= 128 || !is_digit(b as char, if hex { 16int } else { 10int }),
        },
{
    if 48 <= b && b <= 57 {
        Some(b - 48)
    } else if hex && 97 <= b && b <= 102 {
        Some(b - 87)
    } else if hex && 65 <= b && b <= 70 {
        Some(b - 55)
    } else {
        None
    }
}

/// Reads an integer literal. `None` when the text is no integer literal or its
/// value does not fit a machine integer.
pub fn parse_integer(text: &str) -> (value: Option<isize>)
    ensures
        value matches Some(v) ==> machine_integer(text@) == Some(v as int),
        value is None ==> machine_integer(text@) is None,
{
    broadcast use vstd::string::is_ascii_spec_bytes;

    if !text.is_ascii() {
        proof {
            lemma_literal_is_ascii(text@);
        }
        return None;
    }
    let bytes = text.as_bytes();
    let n = bytes.len();
    assert(bytes@.len() == text@.len());
    assert(forall|i: int| 0 <= i < n ==> bytes@[i] == #[trigger] text@[i] as u8);
    let negative = n > 0 && bytes[0] == 45;
    let body: usize = if negative { 1 } else { 0 };
    let hex = n - body > 2 && bytes[body] == 48 && bytes[body + 1] == 120;
    let start: usize = if hex { body + 2 } else { body };
    if start >= n {
        return None;
    }
    let ghost digits = text@.skip(start as int);
    let ghost base = if hex { 16int } else { 10int };
    proof {
        assert(negative == negative_sign(text@)) by {
            if n > 0 {
                assert(bytes@[0] == text@[0] as u8);
            }
        }
        if n - body > 2 {
            assert(bytes@[body as int] == text@[body as int] as u8);
            assert(bytes@[body + 1] == text@[body + 1] as u8);
        }
        assert(split_at(text@, start as int));
        assert(base == base_of(text@, start as int));
        assert(digits.take(0) =~= Seq::<char>::empty());
    }
    let mut acc: i128 = 0;
    let mut i: usize = start;
    while i < n
        invariant
            start <= i <= n,
            n == text@.len(),
            bytes@.len() == n,
            forall|j: int| 0 <= j < n ==> bytes@[j] == #[trigger] text@[j] as u8,
            vstd::utf8::is_ascii_chars(text@),
            digits == text@.skip(start as int),
            base == if hex { 16int } else { 10int },
            split_at(text@, start as int),
            base == base_of(text@, start as int),
            all_digits(digits.take(i - start), base),
            acc == number(digits.take(i - start), base),
            0 <= acc <= 0x1_0000_0000_0000_0000,
        decreases n - i,
    {
        let d = digit_of_byte(bytes[i], hex);
        let ghost c = text@[i as int];
        assert(c == digits[i - start]);
        assert(bytes@[i as int] as char == c);
        match d {
            None => {
                proof {
                    lemma_not_digits(text@, start as int, i as int);
                }
                return None;
            },
            Some(v) => {
                proof {
                    let longer = digits.take(i + 1 - start);
                    assert(longer.drop_last() =~= digits.take(i - start));
                    assert(longer.last() == c);
                    assert forall|j: int| 0 <= j < longer.len() implies is_digit(
                        #[trigger] longer[j],
                        base,
                    ) by {
                        if j < i - start {
                            assert(longer[j] == digits.take(i - start)[j]);
                        }
                    }
                }
                acc = acc * (if hex { 16 } else { 10 }) + v as i128;
                if acc > 0x1_0000_0000_0000_0000 {
                    proof {
                        lemma_too_large(text@, start as int, i + 1 - start);
                    }
                    return None;
                }
                i += 1;
            },
        }
    }
    proof {
        assert(digits.take(n - start) =~= digits);
        assert(negative == negative_sign(text@)) by {
            assert(bytes@[0] == text@[0] as u8);
        }
        lemma_value(text@, start as int);
    }
    let v: i128 = if negative { -acc } else { acc };
    if v < isize::MIN as i128 || v > isize::MAX as i128 {
        None
    } else {
        Some(v as isize)
    }
}

/// How a literal's text splits into sign, prefix and digits: with the digits
/// starting at `start`, the value is the digits' number, negated after a `-`.
proof fn lemma_value(text: Seq<char>, start: int)
    requires
        split_at(text, start),
        start < text.len(),
        all_digits(text.skip(start), base_of(text, start)),
    ensures
        integer_value(text) == Some(
            if negative_sign(text) {
                -number(text.skip(start), base_of(text, start))
            } else {
                number(text.skip(start), base_of(text, start))
            },
        ),
{
    let body = if negative_sign(text) { text.skip(1) } else { text };
    if base_of(text, start) == 16 {
        assert(body.skip(2) =~= text.skip(start));
    } else {
        assert(body =~= text.skip(start));
        assert(!(body.len() > 2 && body[0] == '0' && body[1] == 'x' && all_digits(
            body.skip(2),
            16,
        ))) by {
            if body.len() > 2 && body[0] == '0' && body[1] == 'x' {
                assert(!is_digit(body[1], 10));
            }
        }
    }
}

/// Whether the text has a `-` in front.
spec fn negative_sign(text: Seq<char>) -> bool {
    text.len() > 0 && text[0] == '-'
}

/// Whether `start` is where the digits of `text` begin: after the sign, and
/// after `0x` where at least one more character follows it.
spec fn split_at(text: Seq<char>, start: int) -> bool {
    let body: int = if negative_sign(text) { 1 } else { 0 };
    if text.len() - body > 2 && text[body] == '0' && text[body + 1] == 'x' {
        start == body + 2
    } else {
        start == body
    }
}

/// The base of the digits of `text` that begin at `start`.
spec fn base_of(text: Seq<char>, start: int) -> int {
    let body: int = if negative_sign(text) { 1 } else { 0 };
    if start == body + 2 {
        16
    } else {
        10
    }
}

/// A text with a character at `at`, among its digits, that is no digit is no
/// literal.
proof fn lemma_not_digits(text: Seq<char>, start: int, at: int)
    requires
        split_at(text, start),
        start <= at < text.len(),
        !is_digit(text[at], base_of(text, start)),
    ensures
        integer_value(text) is None,
{
    let body = if negative_sign(text) { text.skip(1) } else { text };
    let offset: int = if negative_sign(text) { 1 } else { 0 };
    assert(body[at - offset] == text[at]);
    if base_of(text, start) == 16 {
        assert(body.skip(2)[at - start] == text[at]);
        assert(!is_digit(body[1], 10));
    } else {
        if body.len() > 2 && body[0] == '0' && body[1] == 'x' {
            assert(false);
        }
    }
}

/// A literal whose first `n` digits spell more than 2^64 fits no machine
/// integer.
proof fn lemma_too_large(text: Seq<char>, start: int, n: int)
    requires
        split_at(text, start),
        0 <= n <= text.len() - start,
        start < text.len(),
        all_digits(text.skip(start).take(n), base_of(text, start)),
        number(text.skip(start).take(n), base_of(text, start)) > 0x1_0000_0000_0000_0000,
    ensures
        machine_integer(text) is None,
{
    let digits = text.skip(start);
    let base = base_of(text, start);
    if all_digits(digits, base) {
        lemma_number_prefix(digits, base, n);
        lemma_value(text, start);
    } else {
        let at = choose|i: int| 0 <= i < digits.len() && !is_digit(#[trigger] digits[i], base);
        lemma_not_digits(text, start, at + start);
    }
}

/// A text with a character outside ASCII is no literal.
proof fn lemma_literal_is_ascii(text: Seq<char>)
    requires
        !vstd::utf8::is_ascii_chars(text),
    ensures
        machine_integer(text) is None,
{
    let at = choose|i: int| 0 <= i < text.len() && !('\0' <= #[trigger] text[i] <= '\u{7f}');
    let body: int = if negative_sign(text) { 1 } else { 0 };
    let start: int = if text.len() - body > 2 && text[body] == '0' && text[body + 1] == 'x' {
        body + 2
    } else {
        body
    };
    assert(at >= start);
    lemma_not_digits(text, start, at);
}

/// The character of a decimal digit.
pub open spec fn digit_char(d: nat) -> char
    recommends
        d < 10,
{
    if d == 0 {
        '0'
    } else if d == 1 {
        '1'
    } else if d == 2 {
        '2'
    } else if d == 3 {
        '3'
    } else if d == 4 {
        '4'
    } else if d == 5 {
        '5'
    } else if d == 6 {
        '6'
    } else if d == 7 {
        '7'
    } else if d == 8 {
        '8'
    } else {
        '9'
    }
}

/// The decimal numeral of `n`, without leading zeros.
pub open spec fn decimal(n: nat) -> Seq<char>
    decreases n,
{
    if n < 10 {
        seq![digit_char(n)]
    } else {
        decimal(n / 10) + seq![digit_char(n % 10)]
    }
}

/// The numeral of one decimal digit.
fn digit_text(d: usize) -> (text: &'static str)
    requires
        d < 10,
    ensures
        text@ == seq![digit_char(d as nat)],
{
    proof {
        reveal_strlit("0");
        reveal_strlit("1");
        reveal_strlit("2");
        reveal_strlit("3");
        reveal_strlit("4");
        reveal_strlit("5");
        reveal_strlit("6");
        reveal_strlit("7");
        reveal_strlit("8");
        reveal_strlit("9");
    }
    let text = if d == 0 {
        "0"
    } else if d == 1 {
        "1"
    } else if d == 2 {
        "2"
    } else if d == 3 {
        "3"
    } else if d == 4 {
        "4"
    } else if d == 5 {
        "5"
    } else if d == 6 {
        "6"
    } else if d == 7 {
        "7"
    } else if d == 8 {
        "8"
    } else {
        "9"
    };
    assert(text@ =~= seq![digit_char(d as nat)]);
    text
}

/// Appends the decimal numeral of `n` to `text`.
pub fn append_decimal(text: &mut String, n: usize)
    ensures
        final(text)@ == old(text)@ + decimal(n as nat),
    decreases n,
{
    if n >= 10 {
        append_decimal(text, n / 10);
    }
    text.append(digit_text(n % 10));
    proof {
        if n >= 10 {
            assert(old(text)@ + decimal((n / 10) as nat) + seq![digit_char((n % 10) as nat)]
                =~= old(text)@ + decimal(n as nat));
        }
    }
}

/// The characters of a string, in order.
pub fn characters(text: &str) -> (list: Vec<char>)
    ensures
        list@ == text@,
{
    let mut list: Vec<char> = Vec::new();
    for c in it: text.chars()
        invariant
            list@ == it.seq().take(it.index() as int),
            it.seq() == text@,
    {
        list.push(c);
    }
    list
}

/// Whether two strings hold the same characters.
pub fn str_eq(a: &str, b: &str) -> (equal: bool)
    ensures
        equal == (a@ == b@),
{
    broadcast use vstd::utf8::encode_utf8_decode_utf8;

    let x = a.as_bytes();
    let y = b.as_bytes();
    if x.len() != y.len() {
        return false;
    }
    let mut i: usize = 0;
    while i < x.len()
        invariant
            i <= x.len(),
            x.len() == y.len(),
            x@ == vstd::utf8::encode_utf8(a@),
            y@ == vstd::utf8::encode_utf8(b@),
            forall|j: int| 0 <= j < i ==> x@[j] == y@[j],
        decreases x.len() - i,
    {
        if x[i] != y[i] {
            return false;
        }
        i += 1;
    }
    assert(x@ =~= y@);
    assert(vstd::utf8::decode_utf8(vstd::utf8::encode_utf8(a@)) == a@);
    assert(vstd::utf8::decode_utf8(vstd::utf8::encode_utf8(b@)) == b@);
    true
}

} // verus!
