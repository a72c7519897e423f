//! Text helpers shared by the protocol and the command layer: decimal numbers
//! as bytes, comparison of strings, and the few operations on Unicode text
//! that are left to the standard library.
use vstd::prelude::*;
use vstd::string::*;
use vstd::utf8::*;

verus! {

/// The byte strings that a list of them stands for.
pub open spec fn byte_views(items: Seq<Vec<u8>>) -> Seq<Seq<u8>> {
    items.map_values(|b: Vec<u8>| b@)
}

/// Is `b` an ASCII decimal digit?
pub open spec fn is_digit(b: u8) -> bool {
    48 <= b <= 57
}

/// The number that a sequence of ASCII digits denotes, most significant first.
pub open spec fn decimal_value(s: Seq<u8>) -> nat
    decreases s.len(),
{
    if s.len() == 0 {
        0
    } else {
        decimal_value(s.drop_last()) * 10 + (s.last() - 48) as nat
    }
}

/// The decimal digits of `n`, without leading zeros.
pub open spec fn decimal(n: nat) -> Seq<u8>
    decreases n,
{
    if n < 10 {
        seq![(48 + n) as u8]
    } else {
        decimal(n / 10).push((48 + n % 10) as u8)
    }
}

/// The decimal text of an integer: a minus sign if it is negative, and digits.
pub open spec fn decimal_int(n: int) -> Seq<u8> {
    if n < 0 {
        seq![45u8] + decimal((-n) as nat)
    } else {
        decimal(n as nat)
    }
}

/// How many bytes at the front of `s` are digits.
pub open spec fn digit_run(s: Seq<u8>) -> nat
    decreases s.len(),
{
    if s.len() > 0 && is_digit(s[0]) {
        1 + digit_run(s.drop_first())
    } else {
        0
    }
}

/// All bytes of `s` are digits.
pub open spec fn all_digits(s: Seq<u8>) -> bool {
    forall|i: int| 0 <= i < s.len() ==> is_digit(#[trigger] s[i])
}

/// The run of digits is as long as it can be, and no longer than `s`.
pub proof fn lemma_digit_run(s: Seq<u8>)
    ensures
        digit_run(s) <= s.len(),
        forall|i: int| 0 <= i < digit_run(s) ==> is_digit(#[trigger] s[i]),
        digit_run(s) < s.len() ==> !is_digit(s[digit_run(s) as int]),
    decreases s.len(),
{
    if s.len() > 0 && is_digit(s[0]) {
        let t = s.drop_first();
        lemma_digit_run(t);
        assert forall|i: int| 0 <= i < digit_run(s) implies is_digit(#[trigger] s[i]) by {
            if i > 0 {
                assert(s[i] == t[i - 1]);
            }
        }
        if digit_run(s) < s.len() {
            assert(s[digit_run(s) as int] == t[digit_run(t) as int]);
        }
    }
}

/// The position `n` is the length of the digit run if the bytes before it are
/// digits and the byte at it, where there is one, is not.
pub proof fn lemma_digit_run_is(s: Seq<u8>, n: nat)
    requires
        n <= s.len(),
        forall|i: int| 0 <= i < n ==> is_digit(#[trigger] s[i]),
        n < s.len() ==> !is_digit(s[n as int]),
    ensures
        digit_run(s) == n,
{
    lemma_digit_run(s);
    if digit_run(s) < n {
        assert(is_digit(s[digit_run(s) as int]));
    }
    if n < digit_run(s) {
        assert(is_digit(s[n as int]));
    }
}

/// A decimal text consists of digits and has at least one.
pub proof fn lemma_decimal_digits(n: nat)
    ensures
        decimal(n).len() >= 1,
        all_digits(decimal(n)),
    decreases n,
{
    if n >= 10 {
        lemma_decimal_digits(n / 10);
    }
}

/// Reading a decimal text gives back the number that was written.
pub proof fn lemma_decimal_round_trip(n: nat)
    ensures
        decimal_value(decimal(n)) == n,
    decreases n,
{
    if n < 10 {
        let s = decimal(n);
        assert(s.drop_last() =~= Seq::<u8>::empty());
        assert(decimal_value(s.drop_last()) == 0);
    } else {
        lemma_decimal_round_trip(n / 10);
        assert(decimal(n).drop_last() =~= decimal(n / 10));
    }
}

/// A prefix of a digit text denotes at most what the text denotes.
pub proof fn lemma_decimal_value_prefix(s: Seq<u8>, n: int)
    requires
        0 <= n <= s.len(),
        all_digits(s),
    ensures
        decimal_value(s.take(n)) <= decimal_value(s),
    decreases s.len() - n,
{
    if n < s.len() {
        lemma_decimal_value_prefix(s, n + 1);
        assert(s.take(n + 1).drop_last() =~= s.take(n));
        assert(s.take(n + 1).last() == s[n]);
        assert(is_digit(s[n]));
    } else {
        assert(s.take(n) =~= s);
    }
}

/// Writes `n` in decimal.
pub fn decimal_bytes(n: u64) -> (r: Vec<u8>)
    ensures
        r@ == decimal(n as nat),
    decreases n,
{
    if n < 10 {
        let mut v: Vec<u8> = Vec::new();
        v.push(48 + n as u8);
        assert(v@ =~= decimal(n as nat));
        v
    } else {
        let mut v: Vec<u8> = decimal_bytes(n / 10);
        v.push(48 + (n % 10) as u8);
        v
    }
}

/// Writes an integer in decimal, with a minus sign if it is negative.
pub fn decimal_int_bytes(n: i64) -> (r: Vec<u8>)
    ensures
        r@ == decimal_int(n as int),
{
    if n < 0 {
        let m: u64 = (-(n + 1)) as u64 + 1;
        let mut v: Vec<u8> = Vec::new();
        v.push(45);
        let mut d: Vec<u8> = decimal_bytes(m);
        v.append(&mut d);
        assert(v@ =~= decimal_int(n as int));
        v
    } else {
        decimal_bytes(n as u64)
    }
}

/// What a text of an optional sign and digits denotes for an unsigned number
/// that may be at most `max`: a leading `+` is allowed, at least one digit is
/// required, and nothing else may stand there.
pub open spec fn unsigned_of(s: Seq<u8>, max: nat) -> Option<nat> {
    let d = if s.len() > 0 && s[0] == 43 {
        s.drop_first()
    } else {
        s
    };
    if d.len() > 0 && all_digits(d) && decimal_value(d) <= max {
        Some(decimal_value(d))
    } else {
        None
    }
}

/// What a text denotes for a signed 64-bit number: a leading `+` or `-` is
/// allowed, at least one digit is required, and nothing else may stand there.
pub open spec fn signed_of(s: Seq<u8>) -> Option<int> {
    let neg = s.len() > 0 && s[0] == 45;
    let d = if s.len() > 0 && (s[0] == 43 || s[0] == 45) {
        s.drop_first()
    } else {
        s
    };
    let v = if neg {
        -(decimal_value(d) as int)
    } else {
        decimal_value(d) as int
    };
    if d.len() > 0 && all_digits(d) && i64::MIN <= v <= i64::MAX {
        Some(v)
    } else {
        None
    }
}

/// Reads digits from `from` on, as far as `limit`; `None` if a byte is no digit
/// or the value exceeds `max`.
pub fn read_digits(s: &[u8], from: usize, limit: usize, max: u64) -> (r: Option<u64>)
    requires
        from <= limit <= s@.len(),
    ensures
        r matches Some(v) ==> {
            &&& all_digits(s@.subrange(from as int, limit as int))
            &&& decimal_value(s@.subrange(from as int, limit as int)) == v
            &&& v <= max
        },
        r is None ==> {
            ||| !all_digits(s@.subrange(from as int, limit as int))
            ||| decimal_value(s@.subrange(from as int, limit as int)) > max
        },
{
    let ghost d = s@.subrange(from as int, limit as int);
    let mut i: usize = from;
    let mut v: u64 = 0;
    assert(d.take(0) =~= Seq::<u8>::empty());
    while i < limit
        invariant
            from <= i <= limit <= s@.len(),
            d == s@.subrange(from as int, limit as int),
            all_digits(d.take(i - from)),
            decimal_value(d.take(i - from)) == v,
            v <= max,
        decreases limit - i,
    {
        let b: u8 = s[i];
        assert(d[i - from] == b);
        if b < 48 || b > 57 {
            assert(!is_digit(d[i - from]));
            return None;
        }
        let digit: u64 = (b - 48) as u64;
        let ghost p = d.take(i - from + 1);
        proof {
            assert(p.drop_last() =~= d.take(i - from));
            assert(p.last() == b);
            assert(decimal_value(p) == v * 10 + digit);
            assert forall|j: int| 0 <= j < p.len() implies is_digit(#[trigger] p[j]) by {
                if j < i - from {
                    assert(p[j] == d.take(i - from)[j]);
                }
            }
            if all_digits(d) {
                lemma_decimal_value_prefix(d, i - from + 1);
            }
        }
        if v > max / 10 {
            assert(v * 10 > max) by (nonlinear_arith)
                requires
                    v > max / 10,
            ;
            return None;
        }
        let w: u64 = v * 10;
        if digit > max - w {
            return None;
        }
        v = w + digit;
        i = i + 1;
    }
    assert(d.take(limit - from) =~= d);
    Some(v)
}

/// Parses an unsigned number that may be at most `max`.
pub fn parse_unsigned(s: &[u8], max: u64) -> (r: Option<u64>)
    ensures
        match r {
            Some(v) => unsigned_of(s@, max as nat) == Some(v as nat),
            None => unsigned_of(s@, max as nat) is None,
        },
{
    let from: usize = if s.len() > 0 && s[0] == 43 {
        1
    } else {
        0
    };
    let ghost d = s@.subrange(from as int, s@.len() as int);
    proof {
        if from == 1 {
            assert(d =~= s@.drop_first());
        } else {
            assert(d =~= s@);
        }
    }
    if from == s.len() {
        return None;
    }
    read_digits(s, from, s.len(), max)
}

/// Parses a signed 64-bit number.
pub fn parse_signed(s: &[u8]) -> (r: Option<i64>)
    ensures
        match r {
            Some(v) => signed_of(s@) == Some(v as int),
            None => signed_of(s@) is None,
        },
{
    let neg: bool = s.len() > 0 && s[0] == 45;
    let from: usize = if s.len() > 0 && (s[0] == 43 || s[0] == 45) {
        1
    } else {
        0
    };
    let ghost d = s@.subrange(from as int, s@.len() as int);
    proof {
        if from == 1 {
            assert(d =~= s@.drop_first());
        } else {
            assert(d =~= s@);
        }
    }
    if from == s.len() {
        return None;
    }
    let max: u64 = if neg {
        9223372036854775808
    } else {
        9223372036854775807
    };
    match read_digits(s, from, s.len(), max) {
        None => None,
        Some(m) => Some(signed(neg, m)),
    }
}

/// The signed number with the given sign and magnitude.
pub fn signed(neg: bool, m: u64) -> (r: i64)
    requires
        m <= 9223372036854775808,
        neg || m <= 9223372036854775807,
    ensures
        r == if neg { -(m as int) } else { m as int },
{
    if neg {
        if m == 9223372036854775808 {
            i64::MIN
        } else {
            -(m as i64)
        }
    } else {
        m as i64
    }
}

/// Do two byte strings hold the same bytes?
pub fn bytes_equal(a: &[u8], b: &[u8]) -> (r: bool)
    ensures
        r == (a@ == b@),
{
    if a.len() != b.len() {
        return false;
    }
    let mut i: usize = 0;
    while i < a.len()
        invariant
            i <= a@.len(),
            a@.len() == b@.len(),
            forall|j: int| 0 <= j < i ==> a@[j] == b@[j],
        decreases a@.len() - i,
    {
        if a[i] != b[i] {
            return false;
        }
        i = i + 1;
    }
    assert(a@ =~= b@);
    true
}

/// Do two strings hold the same text?
pub fn text_equal(a: &str, b: &str) -> (r: bool)
    ensures
        r == (a@ == b@),
{
    proof {
        encode_utf8_decode_utf8(a@);
        encode_utf8_decode_utf8(b@);
    }
    bytes_equal(a.as_bytes(), b.as_bytes())
}

/// The text that `String::from_utf8_lossy` gives for bytes that are not UTF-8.
pub uninterp spec fn lossy_text(bytes: Seq<u8>) -> Seq<char>;

/// The text of a byte string: decoded as UTF-8 where it is UTF-8, and with
/// replacement characters where it is not.
pub open spec fn text_of(bytes: Seq<u8>) -> Seq<char> {
    if valid_utf8(bytes) {
        decode_utf8(bytes)
    } else {
        lossy_text(bytes)
    }
}

/// Calls `String::from_utf8_lossy`, which decodes UTF-8 as it is and replaces
/// what is not UTF-8. What stands for invalid bytes is named, not spelled out.
#[verifier::external_body]
pub(crate) fn utf8_lossy(bytes: &[u8]) -> (r: String)
    ensures
        valid_utf8(bytes@) ==> r@ == decode_utf8(bytes@),
        !valid_utf8(bytes@) ==> r@ == lossy_text(bytes@),
{
    String::from_utf8_lossy(bytes).into_owned()
}

/// The text of a byte string that is made of ASCII characters.
pub open spec fn ascii_text(bytes: Seq<u8>) -> Seq<char> {
    bytes.map_values(|b: u8| b as char)
}

/// A byte string of ASCII characters is the encoding of its text.
pub proof fn lemma_ascii_text(bytes: Seq<u8>)
    requires
        forall|i: int| 0 <= i < bytes.len() ==> #[trigger] bytes[i] < 128,
    ensures
        is_ascii_chars(ascii_text(bytes)),
        encode_utf8(ascii_text(bytes)) == bytes,
        valid_utf8(bytes),
        decode_utf8(bytes) == ascii_text(bytes),
{
    let s = ascii_text(bytes);
    assert forall|i: int| 0 <= i < s.len() implies '\0' <= #[trigger] s[i] <= '\u{7f}' by {
        assert(bytes[i] < 128);
    }
    is_ascii_chars_encode_utf8(s);
    assert forall|i: int| 0 <= i < bytes.len() implies encode_utf8(s)[i] == bytes[i] by {
        assert(bytes[i] < 128);
        assert(s[i] as u8 == encode_utf8(s)[i]);
    }
    assert(encode_utf8(s) =~= bytes);
    encode_utf8_valid_utf8(s);
    encode_utf8_decode_utf8(s);
}

/// The decimal text of an integer.
pub open spec fn number_text(n: int) -> Seq<char> {
    ascii_text(decimal_int(n))
}

/// The decimal text of an integer.
pub fn number_string(n: i64) -> (r: String)
    ensures
        r@ == number_text(n as int),
{
    let bytes: Vec<u8> = decimal_int_bytes(n);
    proof {
        let m = if n < 0 {
            (-(n as int)) as nat
        } else {
            n as nat
        };
        lemma_decimal_digits(m);
        assert forall|i: int| 0 <= i < bytes@.len() implies #[trigger] bytes@[i] < 128 by {
            if n < 0 {
                if i > 0 {
                    assert(bytes@[i] == decimal(m)[i - 1]);
                    assert(is_digit(decimal(m)[i - 1]));
                }
            } else {
                assert(is_digit(decimal(m)[i]));
            }
        }
        lemma_ascii_text(bytes@);
    }
    utf8_lossy(bytes.as_slice())
}

/// The upper-case form of an ASCII character.
pub open spec fn ascii_upper_char(c: char) -> char {
    if 'a' <= c <= 'z' {
        (c as u32 - 32) as char
    } else {
        c
    }
}

/// The lower-case form of an ASCII character.
pub open spec fn ascii_lower_char(c: char) -> char {
    if 'A' <= c <= 'Z' {
        (c as u32 + 32) as char
    } else {
        c
    }
}

/// What `str::to_uppercase` gives for a text with characters outside ASCII.
pub uninterp spec fn unicode_upper(s: Seq<char>) -> Seq<char>;

/// What `str::to_lowercase` gives for a text with characters outside ASCII.
pub uninterp spec fn unicode_lower(s: Seq<char>) -> Seq<char>;

/// The upper-case form of a text.
pub open spec fn upper_text(s: Seq<char>) -> Seq<char> {
    if is_ascii_chars(s) {
        s.map_values(|c: char| ascii_upper_char(c))
    } else {
        unicode_upper(s)
    }
}

/// The lower-case form of a text.
pub open spec fn lower_text(s: Seq<char>) -> Seq<char> {
    if is_ascii_chars(s) {
        s.map_values(|c: char| ascii_lower_char(c))
    } else {
        unicode_lower(s)
    }
}

/// Calls `str::to_uppercase`: of an ASCII text it maps `a` to `z` one by one;
/// of any other text the result is named.
#[verifier::external_body]
pub(crate) fn uppercase(s: &str) -> (r: String)
    ensures
        is_ascii_chars(s@) ==> r@ == s@.map_values(|c: char| ascii_upper_char(c)),
        !is_ascii_chars(s@) ==> r@ == unicode_upper(s@),
{
    s.to_uppercase()
}

/// Calls `str::to_lowercase`: of an ASCII text it maps `A` to `Z` one by one;
/// of any other text the result is named.
#[verifier::external_body]
pub(crate) fn lowercase(s: &str) -> (r: String)
    ensures
        is_ascii_chars(s@) ==> r@ == s@.map_values(|c: char| ascii_lower_char(c)),
        !is_ascii_chars(s@) ==> r@ == unicode_lower(s@),
{
    s.to_lowercase()
}

/// The quoted and escaped form that `{:?}` gives for a string.
pub uninterp spec fn quoted_text(s: Seq<char>) -> Seq<char>;

/// Formats a string with `{:?}`, that is with the `Debug` impl of `str`: in
/// quotes, with escapes. Which characters are escaped is left to that impl.
#[verifier::external_body]
pub(crate) fn quoted(s: &str) -> (r: String)
    ensures
        r@ == quoted_text(s@),
{
    format!("{:?}", s)
}

/// A text in upper case that is read back from its own bytes is unchanged.
pub proof fn lemma_upper_literal(s: Seq<char>)
    requires
        is_ascii_chars(s),
        forall|i: int| 0 <= i < s.len() ==> !('a' <= #[trigger] s[i] <= 'z'),
    ensures
        upper_text(text_of(encode_utf8(s))) == s,
{
    encode_utf8_valid_utf8(s);
    encode_utf8_decode_utf8(s);
    assert(upper_text(s) =~= s);
}

/// A character is known by its number.
pub proof fn lemma_char_of_number(c: char, d: char)
    requires
        c as u32 == d as u32,
    ensures
        c == d,
{
}

/// Bytes below 128 stand only for ASCII characters: the first byte of an
/// encoded text tells its first character.
pub proof fn lemma_first_byte(s: Seq<char>)
    requires
        s.len() > 0,
    ensures
        encode_utf8(s).len() >= 1,
        encode_utf8(s)[0] < 128 ==> s[0] as u32 == encode_utf8(s)[0] as u32 && encode_utf8(
            s,
        ) == seq![encode_utf8(s)[0]] + encode_utf8(s.drop_first()),
        encode_utf8(s)[0] >= 128 ==> (forall|i: int|
            0 <= i < encode_scalar(s[0] as u32).len() ==> #[trigger] encode_scalar(
                s[0] as u32,
            )[i] >= 128),
{
    let c = s[0] as u32;
    char_is_scalar(s[0]);
    assert(has_width_1_encoding(c) ==> leading_byte_width_1(c) as u32 == c && leading_byte_width_1(
        c,
    ) < 128) by (bit_vector);
    assert(has_width_2_encoding(c) ==> leading_byte_width_2(c) >= 128) by (bit_vector);
    assert(has_width_3_encoding(c) ==> leading_byte_width_3(c) >= 128) by (bit_vector);
    assert(has_width_4_encoding(c) ==> leading_byte_width_4(c) >= 128) by (bit_vector);
    assert(last_continuation_byte(c) >= 128) by (bit_vector);
    assert(second_last_continuation_byte(c) >= 128) by (bit_vector);
    assert(third_last_continuation_byte(c) >= 128) by (bit_vector);
}

/// The text with two spaces in place of each line end. A carriage return or a
/// line feed on its own stays.
pub open spec fn unbroken(s: Seq<char>) -> Seq<char>
    decreases s.len(),
{
    if s.len() == 0 {
        s
    } else if s.len() >= 2 && s[0] == '\r' && s[1] == '\n' {
        seq![' ', ' '] + unbroken(s.skip(2))
    } else {
        seq![s[0]] + unbroken(s.drop_first())
    }
}

/// The bytes with two spaces in place of each line end.
spec fn unbroken_bytes(b: Seq<u8>) -> Seq<u8>
    decreases b.len(),
{
    if b.len() == 0 {
        b
    } else if b.len() >= 2 && b[0] == 13 && b[1] == 10 {
        seq![32u8, 32u8] + unbroken_bytes(b.skip(2))
    } else {
        seq![b[0]] + unbroken_bytes(b.drop_first())
    }
}

/// Bytes outside ASCII stay as they are.
proof fn lemma_unbroken_high(e: Seq<u8>, rest: Seq<u8>)
    requires
        forall|i: int| 0 <= i < e.len() ==> #[trigger] e[i] >= 128,
    ensures
        unbroken_bytes(e + rest) == e + unbroken_bytes(rest),
    decreases e.len(),
{
    if e.len() == 0 {
        assert(e + rest =~= rest);
        assert(e + unbroken_bytes(rest) =~= unbroken_bytes(rest));
    } else {
        let t = e.drop_first();
        assert(e[0] >= 128);
        assert forall|i: int| 0 <= i < t.len() implies #[trigger] t[i] >= 128 by {
            assert(t[i] == e[i + 1]);
        }
        lemma_unbroken_high(t, rest);
        assert((e + rest).drop_first() =~= t + rest);
        assert(seq![e[0]] + (t + unbroken_bytes(rest)) =~= e + unbroken_bytes(rest));
    }
}

/// Line ends can be taken out of the bytes of a text as well as out of the text.
proof fn lemma_unbroken_bytes(s: Seq<char>)
    ensures
        encode_utf8(unbroken(s)) == unbroken_bytes(encode_utf8(s)),
    decreases s.len(),
{
    let b = encode_utf8(s);
    let u = unbroken(s);
    if s.len() == 0 {
        assert(b =~= Seq::<u8>::empty());
        assert(encode_utf8(u) =~= Seq::<u8>::empty());
    } else if s.len() >= 2 && s[0] == '\r' && s[1] == '\n' {
        let rest = s.skip(2);
        lemma_unbroken_bytes(rest);
        lemma_ascii_first(s);
        assert(s.drop_first().drop_first() =~= rest);
        lemma_ascii_first(s.drop_first());
        assert(b =~= seq![13u8, 10u8] + encode_utf8(rest));
        assert(b.skip(2) =~= encode_utf8(rest));
        lemma_ascii_first(u);
        assert(u.drop_first() =~= seq![' '] + unbroken(rest));
        lemma_ascii_first(u.drop_first());
        assert(u.drop_first().drop_first() =~= unbroken(rest));
        assert(encode_utf8(u) =~= seq![32u8, 32u8] + encode_utf8(unbroken(rest)));
    } else {
        let rest = s.drop_first();
        let e = encode_scalar(s[0] as u32);
        lemma_unbroken_bytes(rest);
        lemma_first_byte(s);
        lemma_first_byte(u);
        assert(u.drop_first() =~= unbroken(rest));
        assert(b =~= e + encode_utf8(rest));
        assert(encode_utf8(u) =~= e + encode_utf8(unbroken(rest)));
        if b[0] >= 128 {
            lemma_unbroken_high(e, encode_utf8(rest));
        } else {
            assert(e =~= seq![b[0]]);
            assert(b.drop_first() =~= encode_utf8(rest));
            if b.len() >= 2 && b[0] == 13 && b[1] == 10 {
                assert(rest.len() > 0);
                lemma_first_byte(rest);
                assert(encode_utf8(rest)[0] == b[1]);
                lemma_char_of_number(s[0], '\r');
                lemma_char_of_number(rest[0], '\n');
                assert(s[1] == rest[0]);
            }
        }
    }
}

/// The number of an ASCII character fits a byte.
proof fn lemma_ascii_number(c: char)
    requires
        (c as u32) < 128,
    ensures
        (c as u8) as u32 == c as u32,
{
}

/// A text that begins with an ASCII character is encoded as the byte of that
/// character and the rest.
proof fn lemma_ascii_first(s: Seq<char>)
    requires
        s.len() > 0,
        (s[0] as u32) < 128,
    ensures
        encode_utf8(s) == seq![s[0] as u8] + encode_utf8(s.drop_first()),
{
    let c = s[0] as u32;
    assert(c < 128 ==> leading_byte_width_1(c) as u32 == c && leading_byte_width_1(c) < 128)
        by (bit_vector);
    assert(encode_utf8(s) == encode_scalar(c) + encode_utf8(s.drop_first()));
    assert(has_width_1_encoding(c));
    lemma_ascii_number(s[0]);
    assert(encode_scalar(c) =~= seq![s[0] as u8]);
}

/// The text with two spaces in place of each line end.
pub fn unbreak(s: &str) -> (r: String)
    ensures
        r@ == unbroken(s@),
{
    let bytes: &[u8] = s.as_bytes();
    let mut out: Vec<u8> = Vec::new();
    let mut i: usize = 0;
    assert(bytes@.skip(0) =~= bytes@);
    assert(out@ + unbroken_bytes(bytes@) =~= unbroken_bytes(bytes@));
    while i < bytes.len()
        invariant
            i <= bytes@.len(),
            out@ + unbroken_bytes(bytes@.skip(i as int)) == unbroken_bytes(bytes@),
        decreases bytes@.len() - i,
    {
        let ghost here = bytes@.skip(i as int);
        let ghost before = out@;
        if bytes.len() - i >= 2 && bytes[i] == 13 && bytes[i + 1] == 10 {
            out.push(32);
            out.push(32);
            assert(here.skip(2) =~= bytes@.skip(i as int + 2));
            assert(before + (seq![32u8, 32u8] + unbroken_bytes(here.skip(2))) =~= out@
                + unbroken_bytes(here.skip(2)));
            i = i + 2;
        } else {
            out.push(bytes[i]);
            assert(here.drop_first() =~= bytes@.skip(i as int + 1));
            assert(before + (seq![here[0]] + unbroken_bytes(here.drop_first())) =~= out@
                + unbroken_bytes(here.drop_first()));
            i = i + 1;
        }
    }
    proof {
        assert(out@ =~= unbroken_bytes(bytes@));
        lemma_unbroken_bytes(s@);
        encode_utf8_valid_utf8(unbroken(s@));
        encode_utf8_decode_utf8(unbroken(s@));
    }
    utf8_lossy(out.as_slice())
}

/// Decimal texts: a number below ten is one digit, and ten times a number plus a
/// digit is the text of the number with that digit behind it. So no text has a
/// leading zero, but that of zero.
pub proof fn law_decimal(n: nat, d: nat)
    requires
        d < 10,
    ensures
        decimal(d) == seq![(48 + d) as u8],
        n > 0 ==> decimal(10 * n + d) == decimal(n).push((48 + d) as u8),
        decimal_int(n as int) == decimal(n),
        n > 0 ==> decimal_int(-(n as int)) == seq![45u8] + decimal(n),
{
    assert((10 * n + d) / 10 == n && (10 * n + d) % 10 == d);
}

/// Numbers in digits: no digits denote zero, and one more digit makes the number
/// ten times as large and adds that digit.
pub proof fn law_decimal_value(s: Seq<u8>, d: nat)
    requires
        d < 10,
    ensures
        decimal_value(Seq::empty()) == 0,
        decimal_value(s.push((48 + d) as u8)) == 10 * decimal_value(s) + d,
{
    assert(s.push((48 + d) as u8).drop_last() =~= s);
}

/// A number is read from digits, with or without a plus sign, as long as it is no
/// greater than allowed.
pub proof fn law_unsigned_numbers(digits: Seq<u8>, max: nat)
    requires
        digits.len() > 0,
        forall|i: int| 0 <= i < digits.len() ==> 48 <= #[trigger] digits[i] <= 57,
    ensures
        unsigned_of(digits, max) == if decimal_value(digits) <= max {
            Some(decimal_value(digits))
        } else {
            None
        },
        unsigned_of(seq![43u8] + digits, max) == unsigned_of(digits, max),
{
    assert(48 <= digits[0] <= 57);
    assert((seq![43u8] + digits).drop_first() =~= digits);
}

/// What is not made of digits, behind a plus sign or not, is no unsigned number.
pub proof fn law_no_unsigned_number(s: Seq<u8>, i: int, max: nat)
    requires
        0 <= i < s.len() ==> !(48 <= s[i] <= 57) && !(i == 0 && s[0] == 43),
        0 <= i < s.len() || s.len() == 0 || s == seq![43u8],
    ensures
        unsigned_of(s, max) is None,
{
    let d = if s.len() > 0 && s[0] == 43 {
        s.drop_first()
    } else {
        s
    };
    if 0 <= i < s.len() {
        let j = if s[0] == 43 {
            i - 1
        } else {
            i
        };
        assert(d[j] == s[i]);
        assert(!is_digit(d[j]));
    }
}

/// A number is read from digits, with or without a sign, as long as it fits 64
/// bits.
pub proof fn law_signed_numbers(digits: Seq<u8>)
    requires
        digits.len() > 0,
        forall|i: int| 0 <= i < digits.len() ==> 48 <= #[trigger] digits[i] <= 57,
    ensures
        signed_of(digits) == if decimal_value(digits) <= 9223372036854775807 {
            Some(decimal_value(digits) as int)
        } else {
            None
        },
        signed_of(seq![43u8] + digits) == signed_of(digits),
        signed_of(seq![45u8] + digits) == if decimal_value(digits) <= 9223372036854775808 {
            Some(-(decimal_value(digits) as int))
        } else {
            None
        },
{
    assert(48 <= digits[0] <= 57);
    assert((seq![43u8] + digits).drop_first() =~= digits);
    assert((seq![45u8] + digits).drop_first() =~= digits);
}

/// What is not made of digits, behind a sign or not, is no signed number.
pub proof fn law_no_signed_number(s: Seq<u8>, i: int)
    requires
        0 <= i < s.len() ==> !(48 <= s[i] <= 57) && !(i == 0 && (s[0] == 43 || s[0] == 45)),
        0 <= i < s.len() || s.len() == 0 || s == seq![43u8] || s == seq![45u8],
    ensures
        signed_of(s) is None,
{
    let signed = s.len() > 0 && (s[0] == 43 || s[0] == 45);
    let d = if signed {
        s.drop_first()
    } else {
        s
    };
    if 0 <= i < s.len() {
        let j = if signed {
            i - 1
        } else {
            i
        };
        assert(d[j] == s[i]);
        assert(!is_digit(d[j]));
    }
}

/// The letters from `a` to `z` have upper-case forms and those from `A` to `Z`
/// lower-case forms, 32 characters away; no other ASCII character changes.
pub proof fn law_case(s: Seq<char>, i: int)
    requires
        forall|j: int| 0 <= j < s.len() ==> (#[trigger] s[j] as u32) < 128,
        0 <= i < s.len(),
    ensures
        upper_text(s).len() == s.len(),
        lower_text(s).len() == s.len(),
        upper_text(s)[i] as int == if 97 <= s[i] as int <= 122 {
            s[i] as int - 32
        } else {
            s[i] as int
        },
        lower_text(s)[i] as int == if 65 <= s[i] as int <= 90 {
            s[i] as int + 32
        } else {
            s[i] as int
        },
{
    assert forall|j: int| 0 <= j < s.len() implies '\0' <= #[trigger] s[j] <= '\u{7f}' by {
        assert((s[j] as u32) < 128);
        lemma_ascii_bound(s[j]);
    }
    lemma_case(s[i]);
}

/// The ASCII characters are those below 128.
proof fn lemma_ascii_bound(c: char)
    requires
        (c as u32) < 128,
    ensures
        '\0' <= c <= '\u{7f}',
{
}

/// The other case of a letter.
proof fn lemma_case(c: char)
    ensures
        ascii_upper_char(c) as int == if 97 <= c as int <= 122 {
            c as int - 32
        } else {
            c as int
        },
        ascii_lower_char(c) as int == if 65 <= c as int <= 90 {
            c as int + 32
        } else {
            c as int
        },
{
}

/// A text is read back from its own bytes.
pub proof fn law_text_of_bytes(s: Seq<char>)
    ensures
        text_of(encode_utf8(s)) == s,
{
    encode_utf8_valid_utf8(s);
    encode_utf8_decode_utf8(s);
}

/// Only the characters of line ends are replaced, each by a space: a carriage
/// return with a line feed behind it, and a line feed with a carriage return
/// before it.
pub proof fn law_unbroken(s: Seq<char>, i: int)
    requires
        0 <= i < s.len(),
    ensures
        unbroken(s).len() == s.len(),
        unbroken(s)[i] == if (s[i] == '\r' && i + 1 < s.len() && s[i + 1] == '\n') || (s[i] == '\n'
            && i > 0 && s[i - 1] == '\r') {
            ' '
        } else {
            s[i]
        },
    decreases s.len(),
{
    if s.len() >= 2 && s[0] == '\r' && s[1] == '\n' {
        let rest = s.skip(2);
        assert(unbroken(s) == seq![' ', ' '] + unbroken(rest));
        assert(rest.len() == 0 ==> unbroken(rest).len() == 0);
        if rest.len() > 0 {
            law_unbroken(
                rest,
                if i >= 2 {
                    i - 2
                } else {
                    0
                },
            );
        }
        if i >= 2 {
            assert(rest[i - 2] == s[i]);
            assert(unbroken(s)[i] == unbroken(rest)[i - 2]);
        }
    } else {
        let rest = s.drop_first();
        assert(unbroken(s) == seq![s[0]] + unbroken(rest));
        assert(rest.len() == 0 ==> unbroken(rest).len() == 0);
        if rest.len() > 0 {
            law_unbroken(
                rest,
                if i >= 1 {
                    i - 1
                } else {
                    0
                },
            );
        }
        if i >= 1 {
            assert(rest[i - 1] == s[i]);
            assert(unbroken(s)[i] == unbroken(rest)[i - 1]);
        }
    }
}

/// The text of a number is made of the characters of its digits and its sign.
pub proof fn law_number_text(n: int, i: int)
    requires
        0 <= i < decimal_int(n).len(),
    ensures
        number_text(n).len() == decimal_int(n).len(),
        number_text(n)[i] as int == decimal_int(n)[i] as int,
{
    let m = if n < 0 {
        (-n) as nat
    } else {
        n as nat
    };
    lemma_decimal_digits(m);
    if n < 0 {
        if i > 0 {
            assert(decimal_int(n)[i] == decimal(m)[i - 1]);
            assert(is_digit(decimal(m)[i - 1]));
        }
    } else {
        assert(is_digit(decimal(m)[i]));
    }
}

/// A list of byte strings stands for its items, in their order.
pub proof fn law_byte_views(items: Seq<Vec<u8>>, i: int)
    requires
        0 <= i < items.len(),
    ensures
        byte_views(items).len() == items.len(),
        byte_views(items)[i] == items[i]@,
        byte_views(Seq::empty()).len() == 0,
{
}

/// What is not UTF-8 is read with replacement characters, and the case of a text
/// with characters outside ASCII is changed, as the standard library does it.
pub proof fn law_other_texts(bytes: Seq<u8>, s: Seq<char>)
    ensures
        !valid_utf8(bytes) ==> text_of(bytes) == lossy_text(bytes),
        !is_ascii_chars(s) ==> upper_text(s) == unicode_upper(s) && lower_text(s)
            == unicode_lower(s),
{
}

} // verus!
