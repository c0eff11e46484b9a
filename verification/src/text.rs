//! Text primitives: string comparison, decimal rendering and parsing of
//! unsigned integers, and blank-string detection.

use vstd::prelude::*;
use vstd::string::*;
use vstd::utf8::*;

verus! {

/// The characters of an optional string.
pub open spec fn opt_text(s: Option<String>) -> Option<Seq<char>> {
    match s {
        Some(t) => Some(t@),
        None => None,
    }
}

/// The characters of an optional string slice.
pub open spec fn opt_str(s: Option<&str>) -> Option<Seq<char>> {
    match s {
        Some(t) => Some(t@),
        None => None,
    }
}

/// Compares two string slices, character for character.
pub fn str_eq(a: &str, b: &str) -> (same: bool)
    ensures
        same == (a@ == b@),
{
    let x = a.as_bytes();
    let y = b.as_bytes();
    proof {
        encode_utf8_decode_utf8(a@);
        encode_utf8_decode_utf8(b@);
    }
    if x.len() != y.len() {
        return false;
    }
    let mut i: usize = 0;
    while i < x.len()
        invariant
            i <= x.len(),
            x.len() == y.len(),
            x@ == encode_utf8(a@),
            y@ == encode_utf8(b@),
            forall|k: int| 0 <= k < i ==> x@[k] == y@[k],
        decreases x.len() - i,
    {
        if x[i] != y[i] {
            return false;
        }
        i = i + 1;
    }
    assert(x@ =~= y@);
    true
}

/// The character of a decimal digit (`d < 10`).
pub open spec fn digit_char(d: nat) -> char {
    (('0' as u8) + d) as u8 as char
}

/// The decimal rendering of `n`, without sign or leading zeros.
pub open spec fn decimal(n: nat) -> Seq<char>
    decreases n,
{
    if n < 10 {
        seq![digit_char(n)]
    } else {
        decimal(n / 10).push(digit_char(n % 10))
    }
}

fn digit_str(d: u64) -> (s: &'static str)
    requires
        d < 10,
    ensures
        s@ == seq![digit_char(d as nat)],
{
    proof {
        reveal_strlit("0");
        reveal_strlit("1");
        reveal_strlit("2");
        reveal_strlit("3");
        reveal_strlit("4");
        reveal_strlit("5");
        reveal_strlit("6");
        reveal_strlit("7");
        reveal_strlit("8");
        reveal_strlit("9");
    }
    let s = if d == 0 {
        "0"
    } else if d == 1 {
        "1"
    } else if d == 2 {
        "2"
    } else if d == 3 {
        "3"
    } else if d == 4 {
        "4"
    } else if d == 5 {
        "5"
    } else if d == 6 {
        "6"
    } else if d == 7 {
        "7"
    } else if d == 8 {
        "8"
    } else {
        "9"
    };
    assert(s@ =~= seq![digit_char(d as nat)]);
    s
}

/// Appends the decimal rendering of `v` to `out`.
pub fn push_decimal(out: &mut String, v: u64)
    ensures
        final(out)@ == old(out)@ + decimal(v as nat),
    decreases v,
{
    if v >= 10 {
        push_decimal(out, v / 10);
    }
    out.append(digit_str(v % 10));
    proof {
        if v >= 10 {
            assert(out@ =~= old(out)@ + decimal((v / 10) as nat).push(digit_char((v % 10) as nat)));
        } else {
            assert(out@ =~= old(out)@ + seq![digit_char(v as nat)]);
        }
    }
}

/// Renders `v` in decimal.
pub fn decimal_string(v: u64) -> (s: String)
    ensures
        s@ == decimal(v as nat),
{
    let mut s = String::new();
    push_decimal(&mut s, v);
    assert(s@ =~= decimal(v as nat));
    s
}

/// True for the ten ASCII decimal digits.
pub open spec fn is_digit(c: char) -> bool {
    '0' <= c && c <= '9'
}

/// True when every character of `s` is a decimal digit.
pub open spec fn all_digits(s: Seq<char>) -> bool {
    forall|i: int| 0 <= i < s.len() ==> is_digit(#[trigger] s[i])
}

/// The number that a run of decimal digits denotes, most significant first.
pub open spec fn digits_value(s: Seq<char>) -> nat
    decreases s.len(),
{
    if s.len() == 0 {
        0
    } else {
        digits_value(s.drop_last()) * 10 + (s.last() as int - '0' as int) as nat
    }
}

/// `s` without one leading plus sign, if it has one.
pub open spec fn unsigned_digits(s: Seq<char>) -> Seq<char> {
    if s.len() > 0 && s[0] == '+' {
        s.subrange(1, s.len() as int)
    } else {
        s
    }
}

/// The value of `s` read as an unsigned decimal integer no larger than `max`:
/// an optional plus sign followed by one or more digits and nothing else.
/// `None` for every other string, and for a number above `max`.
pub open spec fn decimal_value(s: Seq<char>, max: nat) -> Option<nat> {
    let d = unsigned_digits(s);
    if d.len() > 0 && all_digits(d) && digits_value(d) <= max {
        Some(digits_value(d))
    } else {
        None
    }
}

/// `bytes[start..end]` holds the characters of `text`, one ASCII byte each.
pub open spec fn spells(bytes: Seq<u8>, start: int, end: int, text: Seq<char>) -> bool {
    &&& 0 <= start <= end <= bytes.len()
    &&& text.len() == end - start
    &&& forall|i: int|
        #![trigger text[i]]
        0 <= i < text.len() ==> text[i] <= '\u{7f}' && bytes[start + i] == text[i] as u8
}

/// One more digit multiplies the value by ten and adds the digit.
pub proof fn lemma_digits_value_step(d: Seq<char>, j: int)
    requires
        0 <= j < d.len(),
    ensures
        digits_value(d.subrange(0, j + 1)) == digits_value(d.subrange(0, j)) * 10 + (d[j] as int
            - '0' as int) as nat,
{
    assert(d.subrange(0, j + 1).drop_last() =~= d.subrange(0, j));
}

/// A prefix of a run of digits denotes no more than the whole run.
pub proof fn lemma_digits_value_prefix(d: Seq<char>, k: int)
    requires
        0 <= k <= d.len(),
        all_digits(d),
    ensures
        digits_value(d.subrange(0, k)) <= digits_value(d),
    decreases d.len(),
{
    if k == d.len() {
        assert(d.subrange(0, k) =~= d);
    } else {
        let shorter = d.drop_last();
        assert(shorter.subrange(0, k) =~= d.subrange(0, k));
        assert(all_digits(shorter)) by {
            assert forall|i: int| 0 <= i < shorter.len() implies is_digit(
                #[trigger] shorter[i],
            ) by {
                assert(shorter[i] == d[i]);
            }
        }
        lemma_digits_value_prefix(shorter, k);
    }
}

/// What an ASCII byte says of the character it encodes.
pub proof fn lemma_ascii_byte(c: char, b: u8)
    requires
        c <= '\u{7f}',
        b == c as u8,
    ensures
        b == 43 <==> c == '+',
        b == 47 <==> c == '/',
        48 <= b <= 57 <==> is_digit(c),
        is_digit(c) ==> (c as int - '0' as int) as nat == b - 48,
{
    assert(c as u8 as u32 == c as u32);
}

/// Reads `bytes[start..end]` as an unsigned decimal integer no larger than `max`.
pub(crate) fn parse_range(
    bytes: &[u8],
    start: usize,
    end: usize,
    max: u64,
    Ghost(text): Ghost<Seq<char>>,
) -> (r: Option<u64>)
    requires
        spells(bytes@, start as int, end as int, text),
    ensures
        match r {
            Some(v) => decimal_value(text, max as nat) == Some(v as nat),
            None => decimal_value(text, max as nat) is None,
        },
{
    let mut i: usize = start;
    if i < end {
        proof {
            lemma_ascii_byte(text[0], bytes@[start as int]);
        }
        if bytes[i] == 43 {
            i = i + 1;
        }
    }
    let first: usize = i;
    let ghost d = unsigned_digits(text);
    assert(d =~= text.subrange(first - start, text.len() as int));
    if first == end {
        return None;
    }
    let mut acc: u64 = 0;
    assert(d.subrange(0, 0) =~= Seq::<char>::empty());
    while i < end
        invariant
            first <= i <= end <= bytes.len(),
            d == unsigned_digits(text),
            0 < d.len() == end - first,
            forall|k: int|
                #![trigger d[k]]
                0 <= k < d.len() ==> d[k] <= '\u{7f}' && bytes@[first + k] == d[k] as u8,
            all_digits(d.subrange(0, i - first)),
            acc == digits_value(d.subrange(0, i - first)),
            acc <= max,
        ensures
            i == end,
            all_digits(d.subrange(0, i - first)),
            acc == digits_value(d.subrange(0, i - first)),
            acc <= max,
        decreases end - i,
    {
        let b: u8 = bytes[i];
        let ghost j = i - first;
        proof {
            lemma_ascii_byte(d[j], b);
            lemma_digits_value_step(d, j);
        }
        if b < 48 || b > 57 {
            return None;
        }
        let digit: u64 = (b - 48) as u64;
        if digit > max || acc > (max - digit) / 10 {
            proof {
                if all_digits(d) {
                    lemma_digits_value_prefix(d, j + 1);
                }
            }
            return None;
        }
        acc = acc * 10 + digit;
        i = i + 1;
        assert(all_digits(d.subrange(0, j + 1))) by {
            assert forall|k: int| 0 <= k < j + 1 implies is_digit(
                #[trigger] d.subrange(0, j + 1)[k],
            ) by {
                if k < j {
                    assert(d.subrange(0, j)[k] == d[k]);
                }
            }
        }
    }
    assert(d.subrange(0, i - first) =~= d);
    Some(acc)
}

/// Reads `s` as an unsigned decimal integer no larger than `max`.
pub fn parse_unsigned(s: &str, max: u64) -> (r: Option<u64>)
    ensures
        match r {
            Some(v) => decimal_value(s@, max as nat) == Some(v as nat),
            None => decimal_value(s@, max as nat) is None,
        },
{
    if !s.is_ascii() {
        proof {
            lemma_not_ascii_not_decimal(s@, max as nat);
        }
        return None;
    }
    let bytes = s.as_bytes();
    proof {
        is_ascii_chars_encode_utf8(s@);
    }
    parse_range(bytes, 0, bytes.len(), max, Ghost(s@))
}

/// A string with a character outside ASCII is no decimal integer.
pub proof fn lemma_not_ascii_not_decimal(s: Seq<char>, max: nat)
    requires
        !is_ascii_chars(s),
    ensures
        decimal_value(s, max) is None,
{
    let i = choose|i: int| 0 <= i < s.len() && !('\0' <= #[trigger] s[i] <= '\u{7f}');
    let d = unsigned_digits(s);
    if s[0] == '+' {
        assert(d[i - 1] == s[i]);
        assert(!is_digit(d[i - 1]));
    } else {
        assert(!is_digit(d[i]));
    }
}

/// True for the characters that Unicode gives the property White_Space.
pub open spec fn is_white_space(c: char) -> bool {
    let u = c as u32;
    ||| 0x09 <= u <= 0x0d
    ||| u == 0x20
    ||| u == 0x85
    ||| u == 0xa0
    ||| u == 0x1680
    ||| 0x2000 <= u <= 0x200a
    ||| u == 0x2028
    ||| u == 0x2029
    ||| u == 0x202f
    ||| u == 0x205f
    ||| u == 0x3000
}

/// True when `s` holds nothing but white space; the empty string is blank.
pub open spec fn is_blank(s: Seq<char>) -> bool {
    forall|i: int| 0 <= i < s.len() ==> is_white_space(#[trigger] s[i])
}

/// Tells whether a character is white space.
pub fn char_is_white_space(c: char) -> (r: bool)
    ensures
        r == is_white_space(c),
{
    let u: u32 = c as u32;
    (0x09 <= u && u <= 0x0d) || u == 0x20 || u == 0x85 || u == 0xa0 || u == 0x1680 || (0x2000 <= u
        && u <= 0x200a) || u == 0x2028 || u == 0x2029 || u == 0x202f || u == 0x205f || u == 0x3000
}

/// Tells whether a string is empty or holds nothing but white space.
pub fn str_is_blank(s: &str) -> (r: bool)
    ensures
        r == is_blank(s@),
{
    for c in it: s.chars()
        invariant
            it.seq() == s@,
            forall|k: int| 0 <= k < it.index() ==> is_white_space(#[trigger] s@[k]),
    {
        if !char_is_white_space(c) {
            assert(s@[it.index()] == c);
            return false;
        }
    }
    true
}

} // verus!
