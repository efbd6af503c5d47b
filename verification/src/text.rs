//! Text forms shared by the wire formats: decimal numbers, hexadecimal bytes
//! and JSON strings.

use vstd::prelude::*;

verus! {

/// The lower-case hexadecimal digit of `d`; for `d < 10` also its decimal digit.
pub open spec fn digit_char(d: int) -> char {
    if d < 10 {
        (48 + d) as char
    } else {
        (87 + d) as char
    }
}

/// `n` in decimal, without leading zeros.
pub open spec fn decimal_text(n: nat) -> Seq<char>
    decreases n,
{
    if n < 10 {
        seq![digit_char(n as int)]
    } else {
        decimal_text(n / 10).push(digit_char((n % 10) as int))
    }
}

/// The one-character text of a decimal digit.
fn digit_text(d: u64) -> (r: &'static str)
    requires
        d < 10,
    ensures
        r@ == seq![digit_char(d as int)],
{
    proof {
        reveal_strlit("0");
        reveal_strlit("1");
        reveal_strlit("2");
        reveal_strlit("3");
        reveal_strlit("4");
        reveal_strlit("5");
        reveal_strlit("6");
        reveal_strlit("7");
        reveal_strlit("8");
        reveal_strlit("9");
    }
    if d == 0 {
        "0"
    } else if d == 1 {
        "1"
    } else if d == 2 {
        "2"
    } else if d == 3 {
        "3"
    } else if d == 4 {
        "4"
    } else if d == 5 {
        "5"
    } else if d == 6 {
        "6"
    } else if d == 7 {
        "7"
    } else if d == 8 {
        "8"
    } else {
        "9"
    }
}

/// Writes `n` in decimal.
pub fn decimal(n: u64) -> (r: String)
    ensures
        r@ == decimal_text(n as nat),
    decreases n,
{
    if n < 10 {
        digit_text(n).to_owned()
    } else {
        let mut text = decimal(n / 10);
        text.append(digit_text(n % 10));
        text
    }
}

/// Whether two byte strings are the same.
pub fn same_bytes(a: &[u8], b: &[u8]) -> (r: bool)
    ensures
        r == (a@ == b@),
{
    if a.len() != b.len() {
        return false;
    }
    let mut i: usize = 0;
    while i < a.len()
        invariant
            i <= a@.len(),
            a@.len() == b@.len(),
            forall|j: int| 0 <= j < i ==> a@[j] == b@[j],
        decreases a@.len() - i,
    {
        if a[i] != b[i] {
            return false;
        }
        i = i + 1;
    }
    assert(a@ =~= b@);
    true
}

/// Whether two texts hold the same characters.
pub fn same_text(a: &str, b: &str) -> (r: bool)
    ensures
        r == (a@ == b@),
{
    broadcast use vstd::utf8::encode_utf8_decode_utf8;

    let x = a.as_bytes();
    let y = b.as_bytes();
    assert(vstd::utf8::decode_utf8(x@) == a@);
    assert(vstd::utf8::decode_utf8(y@) == b@);
    same_bytes(x, y)
}

/// The same strings again.
pub fn copy_strings(strings: &Vec<String>) -> (r: Vec<String>)
    ensures
        r.deep_view() == strings.deep_view(),
{
    let mut copy: Vec<String> = Vec::new();
    let mut i: usize = 0;
    while i < strings.len()
        invariant
            i <= strings@.len(),
            copy.deep_view() == strings.deep_view().take(i as int),
        decreases strings@.len() - i,
    {
        let ghost before = copy.deep_view();
        copy.push(strings[i].as_str().to_owned());
        assert(copy.deep_view() =~= before.push(strings@[i as int]@));
        assert(strings.deep_view().take(i + 1) =~= before.push(strings@[i as int]@));
        i = i + 1;
    }
    assert(strings.deep_view().take(i as int) =~= strings.deep_view());
    copy
}

/// The length of `s` in bytes, as UTF-8.
pub open spec fn byte_len(s: Seq<char>) -> nat {
    vstd::utf8::encode_utf8(s).len()
}

/// The value of a hexadecimal digit of either case.
pub open spec fn hex_value(c: char) -> Option<int> {
    if '0' <= c && c <= '9' {
        Some(c as int - 48)
    } else if 'a' <= c && c <= 'f' {
        Some(c as int - 87)
    } else if 'A' <= c && c <= 'F' {
        Some(c as int - 55)
    } else {
        None
    }
}

/// The bytes that `s` spells, two hexadecimal digits each.
pub open spec fn decode_hex(s: Seq<char>) -> Option<Seq<u8>> {
    if s.len() % 2 == 0 && (forall|i: int| 0 <= i < s.len() ==> hex_value(#[trigger] s[i]) is Some) {
        Some(
            Seq::new(
                s.len() / 2,
                |i: int| (16 * hex_value(s[2 * i])->0 + hex_value(s[2 * i + 1])->0) as u8,
            ),
        )
    } else {
        None
    }
}

/// `bytes` as lower-case hexadecimal digits, two each.
pub open spec fn encode_hex(bytes: Seq<u8>) -> Seq<char> {
    Seq::new(
        2 * bytes.len(),
        |i: int|
            digit_char(
                if i % 2 == 0 {
                    bytes[i / 2] as int / 16
                } else {
                    bytes[i / 2] as int % 16
                },
            ),
    )
}

/// A hexadecimal digit has the value that it was written for.
pub proof fn lemma_digit_value(d: int)
    requires
        0 <= d < 16,
    ensures
        hex_value(digit_char(d)) == Some(d),
{
}

/// Reading hexadecimal digits gives back the bytes that were written.
pub proof fn law_hex_round_trip(bytes: Seq<u8>)
    ensures
        decode_hex(encode_hex(bytes)) == Some(bytes),
{
    let s = encode_hex(bytes);
    assert forall|i: int| 0 <= i < s.len() implies hex_value(#[trigger] s[i]) is Some by {
        lemma_digit_value(bytes[i / 2] as int / 16);
        lemma_digit_value(bytes[i / 2] as int % 16);
    }
    assert(s.len() / 2 == bytes.len());
    assert forall|i: int| 0 <= i < bytes.len() implies (16 * hex_value(s[2 * i])->0 + hex_value(
        s[2 * i + 1],
    )->0) as u8 == #[trigger] bytes[i] by {
        lemma_digit_value(bytes[i] as int / 16);
        lemma_digit_value(bytes[i] as int % 16);
        assert((2 * i) / 2 == i && (2 * i + 1) / 2 == i);
        assert((2 * i) % 2 == 0 && (2 * i + 1) % 2 == 1);
    }
    assert(decode_hex(s)->0 =~= bytes);
}

/// How JSON writes the character `c` inside a string.
pub open spec fn json_escape(c: char) -> Seq<char> {
    if c == '"' || c == '\\' {
        seq!['\\', c]
    } else if c as int == 8 {
        seq!['\\', 'b']
    } else if c as int == 9 {
        seq!['\\', 't']
    } else if c as int == 10 {
        seq!['\\', 'n']
    } else if c as int == 12 {
        seq!['\\', 'f']
    } else if c as int == 13 {
        seq!['\\', 'r']
    } else if (c as int) < 32 {
        seq!['\\', 'u', '0', '0', digit_char(c as int / 16), digit_char(c as int % 16)]
    } else {
        seq![c]
    }
}

/// The characters of `s` one after the other, each as JSON writes it.
pub open spec fn json_escaped(s: Seq<char>) -> Seq<char>
    decreases s.len(),
{
    if s.len() == 0 {
        seq![]
    } else {
        json_escape(s[0]) + json_escaped(s.drop_first())
    }
}

/// `s` as a JSON string, quotes included.
pub open spec fn json_string(s: Seq<char>) -> Seq<char> {
    seq!['"'] + json_escaped(s) + seq!['"']
}

/// Writes `s` as a JSON string by `serde_json::to_string`.
///
/// That function quotes the text and escapes quotes, backslashes and control
/// characters, and writing into memory leaves it nothing to fail on.
#[verifier::external_body]
pub(crate) fn json_text(s: &str) -> (r: Result<String, String>)
    ensures
        r is Ok,
        r->Ok_0@ == json_string(s@),
{
    serde_json::to_string(s).map_err(|error| error.to_string())
}

/// What stands behind a common prefix of two equal sequences is equal.
pub proof fn lemma_same_prefix<A>(p: Seq<A>, x: Seq<A>, y: Seq<A>)
    requires
        p + x == p + y,
    ensures
        x == y,
{
    assert((p + x).skip(p.len() as int) =~= x);
    assert((p + y).skip(p.len() as int) =~= y);
}

/// Concatenation may be grouped from the end.
pub proof fn lemma_regroup(front: Seq<char>, key: Seq<char>, value: Seq<char>, tail: Seq<char>)
    ensures
        front + key + value + tail == front + (key + (value + tail)),
{
    assert(front + key + value + tail =~= front + (key + (value + tail)));
}

/// The text of one escaped character tells where it ends and which it was.
proof fn lemma_json_escape_prefix(c: char, x: Seq<char>, d: char, y: Seq<char>)
    requires
        json_escape(c) + x == json_escape(d) + y,
    ensures
        c == d,
        x == y,
{
    let e = json_escape(c);
    let f = json_escape(d);
    assert((e + x)[0] == e[0] && (f + y)[0] == f[0]);
    if e[0] == '\\' {
        assert((e + x)[1] == e[1] && (f + y)[1] == f[1]);
        if e[1] == 'u' {
            assert((e + x)[4] == e[4] && (f + y)[4] == f[4]);
            assert((e + x)[5] == e[5] && (f + y)[5] == f[5]);
            lemma_digit_value(c as int / 16);
            lemma_digit_value(c as int % 16);
            lemma_digit_value(d as int / 16);
            lemma_digit_value(d as int % 16);
            assert(c as int == 16 * (c as int / 16) + c as int % 16);
            assert(d as int == 16 * (d as int / 16) + d as int % 16);
        }
    }
    assert(c == d);
    lemma_same_prefix(e, x, y);
}

proof fn lemma_json_escaped_prefix(a: Seq<char>, x: Seq<char>, b: Seq<char>, y: Seq<char>)
    requires
        json_escaped(a) + (seq!['"'] + x) == json_escaped(b) + (seq!['"'] + y),
    ensures
        a == b,
        x == y,
    decreases a.len(),
{
    let q = seq!['"'];
    let left = json_escaped(a) + (q + x);
    let right = json_escaped(b) + (q + y);
    if a.len() == 0 || b.len() == 0 {
        if a.len() > 0 {
            assert(left[0] == json_escape(a[0])[0]);
            assert(right[0] == '"');
        }
        if b.len() > 0 {
            assert(right[0] == json_escape(b[0])[0]);
            assert(left[0] == '"');
        }
        assert(a =~= b);
        lemma_same_prefix(json_escaped(a), q + x, q + y);
        lemma_same_prefix(q, x, y);
    } else {
        let a1 = a.drop_first();
        let b1 = b.drop_first();
        assert(left =~= json_escape(a[0]) + (json_escaped(a1) + (q + x)));
        assert(right =~= json_escape(b[0]) + (json_escaped(b1) + (q + y)));
        lemma_json_escape_prefix(
            a[0],
            json_escaped(a1) + (q + x),
            b[0],
            json_escaped(b1) + (q + y),
        );
        lemma_json_escaped_prefix(a1, x, b1, y);
        assert(a =~= seq![a[0]] + a1);
        assert(b =~= seq![b[0]] + b1);
    }
}

/// A JSON string tells where it ends and which text it holds, whatever follows.
pub proof fn law_json_string_prefix(a: Seq<char>, x: Seq<char>, b: Seq<char>, y: Seq<char>)
    requires
        json_string(a) + x == json_string(b) + y,
    ensures
        a == b,
        x == y,
{
    let q = seq!['"'];
    assert(json_string(a) + x =~= q + (json_escaped(a) + (q + x)));
    assert(json_string(b) + y =~= q + (json_escaped(b) + (q + y)));
    lemma_same_prefix(q, json_escaped(a) + (q + x), json_escaped(b) + (q + y));
    lemma_json_escaped_prefix(a, x, b, y);
}

/// Whether `c` is a decimal digit.
pub open spec fn is_digit(c: char) -> bool {
    '0' <= c && c <= '9'
}

proof fn lemma_decimal_digits(n: nat)
    ensures
        decimal_text(n).len() > 0,
        forall|i: int| 0 <= i < decimal_text(n).len() ==> is_digit(#[trigger] decimal_text(n)[i]),
    decreases n,
{
    if n >= 10 {
        lemma_decimal_digits(n / 10);
    }
}

proof fn lemma_decimal_injective(m: nat, n: nat)
    requires
        decimal_text(m) == decimal_text(n),
    ensures
        m == n,
    decreases m,
{
    lemma_digit_value((m % 10) as int);
    lemma_digit_value((n % 10) as int);
    lemma_decimal_digits(m / 10);
    lemma_decimal_digits(n / 10);
    assert(decimal_text(m).last() == digit_char((m % 10) as int));
    assert(decimal_text(n).last() == digit_char((n % 10) as int));
    if m >= 10 && n >= 10 {
        assert(decimal_text(m).drop_last() =~= decimal_text(m / 10));
        assert(decimal_text(n).drop_last() =~= decimal_text(n / 10));
        lemma_decimal_injective(m / 10, n / 10);
    }
}

/// A decimal number tells where it ends and which number it is, as long as no
/// digit follows it.
pub proof fn law_decimal_prefix(m: nat, x: Seq<char>, n: nat, y: Seq<char>)
    requires
        decimal_text(m) + x == decimal_text(n) + y,
        x.len() > 0 && !is_digit(x[0]),
        y.len() > 0 && !is_digit(y[0]),
    ensures
        m == n,
        x == y,
{
    let a = decimal_text(m);
    let b = decimal_text(n);
    lemma_decimal_digits(m);
    lemma_decimal_digits(n);
    assert((a + x)[a.len() as int] == x[0]);
    assert((b + y)[b.len() as int] == y[0]);
    if a.len() < b.len() {
        assert((b + y)[a.len() as int] == b[a.len() as int]);
    }
    if b.len() < a.len() {
        assert((a + x)[b.len() as int] == a[b.len() as int]);
    }
    assert(a.len() == b.len());
    assert((a + x).take(a.len() as int) =~= a);
    assert((b + y).take(b.len() as int) =~= b);
    lemma_decimal_injective(m, n);
    lemma_same_prefix(a, x, y);
}

/// The number that decimal digits spell.
pub open spec fn decimal_value(digits: Seq<char>) -> int
    decreases digits.len(),
{
    if digits.len() == 0 {
        0
    } else {
        10 * decimal_value(digits.drop_last()) + (digits.last() as int - 48)
    }
}

/// A number written in decimal is made of digits that spell it, and has no leading
/// zero.
pub proof fn law_decimal_reads_back(n: nat)
    ensures
        decimal_value(decimal_text(n)) == n,
        forall|i: int|
            0 <= i < decimal_text(n).len() ==> '0' <= #[trigger] decimal_text(n)[i]
                && decimal_text(n)[i] <= '9',
        decimal_text(n).len() > 0,
        n > 0 ==> decimal_text(n)[0] != '0',
    decreases n,
{
    lemma_decimal_digits(n);
    let text = decimal_text(n);
    if n < 10 {
        assert(text.drop_last() =~= seq![]);
        assert(decimal_value(seq![]) == 0);
    } else {
        law_decimal_reads_back(n / 10);
        assert(text.drop_last() =~= decimal_text(n / 10));
        assert(text[0] == decimal_text(n / 10)[0]);
    }
}

} // verus!
