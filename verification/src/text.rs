//! Text building blocks: lower-case hexadecimal and decimal rendering.

use vstd::prelude::*;

verus! {

/// The lower-case hexadecimal digit for `n`, for `0 <= n < 16`.
pub open spec fn hex_digit(n: int) -> char {
    if n < 10 {
        (0x30 + n) as char
    } else {
        (0x57 + n) as char
    }
}

/// Two lower-case hexadecimal digits per byte, high nibble first.
pub open spec fn hex_chars(bytes: Seq<u8>) -> Seq<char> {
    Seq::new(
        2 * bytes.len(),
        |i: int|
            if i % 2 == 0 {
                hex_digit(bytes[i / 2] as int / 16)
            } else {
                hex_digit(bytes[i / 2] as int % 16)
            },
    )
}

/// Hexadecimal text determines the bytes, and is twice as long.
pub proof fn lemma_hex_injective(a: Seq<u8>, b: Seq<u8>)
    ensures
        hex_chars(a).len() == 2 * a.len(),
        hex_chars(a) == hex_chars(b) ==> a == b,
{
    if hex_chars(a) == hex_chars(b) {
        assert(hex_chars(a).len() == 2 * a.len() && hex_chars(b).len() == 2 * b.len());
        assert forall|i: int| 0 <= i < a.len() implies a[i] == b[i] by {
            assert(hex_chars(a)[2 * i] == hex_chars(b)[2 * i]);
            assert(hex_chars(a)[2 * i + 1] == hex_chars(b)[2 * i + 1]);
            assert((2 * i) % 2 == 0 && (2 * i) / 2 == i);
            assert((2 * i + 1) % 2 == 1 && (2 * i + 1) / 2 == i);
            assert(hex_chars(a)[2 * i] == hex_digit(a[i] as int / 16));
            assert(hex_chars(b)[2 * i] == hex_digit(b[i] as int / 16));
            assert(hex_chars(a)[2 * i + 1] == hex_digit(a[i] as int % 16));
            assert(hex_chars(b)[2 * i + 1] == hex_digit(b[i] as int % 16));
        }
        assert(a =~= b);
    }
}

/// Text around which the same prefix and suffix were put determines it.
pub proof fn lemma_affixes_cancel(
    prefix: Seq<char>,
    a: Seq<char>,
    b: Seq<char>,
    suffix: Seq<char>,
)
    ensures
        prefix + a + suffix == prefix + b + suffix <==> a == b,
{
    let left = prefix + a + suffix;
    let right = prefix + b + suffix;
    if left == right {
        assert(left.len() == right.len());
        assert forall|i: int| 0 <= i < a.len() implies a[i] == b[i] by {
            assert(left[prefix.len() + i] == a[i]);
            assert(right[prefix.len() + i] == b[i]);
        }
        assert(a =~= b);
    }
}

/// Calls `hex::encode`, which writes every byte as two lower-case hexadecimal
/// digits, high nibble first. The input is bounded so that the doubled length
/// can be allocated.
#[verifier::external_body]
pub(crate) fn encode_hex(bytes: &[u8]) -> (s: String)
    requires
        bytes@.len() <= 0x3fff_ffff,
    ensures
        s@ == hex_chars(bytes@),
{
    hex::encode(bytes)
}

/// Decimal digits of `n`, most significant first, without leading zeros.
pub open spec fn decimal_chars(n: nat) -> Seq<char>
    decreases n,
{
    if n < 10 {
        seq![(0x30 + n) as char]
    } else {
        decimal_chars(n / 10).push((0x30 + n % 10) as char)
    }
}

/// The one-character text of a decimal digit.
fn digit_text(d: u64) -> (s: &'static str)
    requires
        d < 10,
    ensures
        s@ == seq![(0x30 + d) as char],
{
    proof {
        reveal_strlit("0");
        reveal_strlit("1");
        reveal_strlit("2");
        reveal_strlit("3");
        reveal_strlit("4");
        reveal_strlit("5");
        reveal_strlit("6");
        reveal_strlit("7");
        reveal_strlit("8");
        reveal_strlit("9");
    }
    let s = if d == 0 {
        "0"
    } else if d == 1 {
        "1"
    } else if d == 2 {
        "2"
    } else if d == 3 {
        "3"
    } else if d == 4 {
        "4"
    } else if d == 5 {
        "5"
    } else if d == 6 {
        "6"
    } else if d == 7 {
        "7"
    } else if d == 8 {
        "8"
    } else {
        "9"
    };
    assert(s@ =~= seq![(0x30 + d) as char]);
    s
}

/// Render `n` in decimal.
pub fn decimal(n: u64) -> (s: String)
    ensures
        s@ == decimal_chars(n as nat),
    decreases n,
{
    if n < 10 {
        digit_text(n).to_owned()
    } else {
        let mut s = decimal(n / 10);
        s.append(digit_text(n % 10));
        assert(s@ =~= decimal_chars(n as nat));
        s
    }
}

/// Join two pieces of text.
pub(crate) fn join(left: &str, right: &str) -> (s: String)
    ensures
        s@ == left@ + right@,
{
    let mut s = left.to_owned();
    s.append(right);
    s
}

/// Contents of a list of texts.
pub open spec fn text_views(texts: Seq<String>) -> Seq<Seq<char>> {
    texts.map_values(|t: String| t@)
}

/// Copy a list of texts.
pub(crate) fn copy_texts(texts: &Vec<String>) -> (r: Vec<String>)
    ensures
        text_views(r@) == text_views(texts@),
{
    let mut r: Vec<String> = Vec::new();
    for i in 0..texts.len()
        invariant
            r@.len() == i,
            forall|j: int| 0 <= j < i ==> (#[trigger] r@[j])@ == texts@[j]@,
    {
        r.push(texts[i].clone());
    }
    assert(text_views(r@) =~= text_views(texts@));
    r
}

/// The texts one after the other, with `separator` between any two.
pub open spec fn separated(texts: Seq<Seq<char>>, separator: Seq<char>) -> Seq<char>
    decreases texts.len(),
{
    if texts.len() == 0 {
        Seq::empty()
    } else if texts.len() == 1 {
        texts[0]
    } else {
        separated(texts.drop_last(), separator) + separator + texts.last()
    }
}

/// Join texts with `separator` between any two.
pub(crate) fn join_texts(texts: &Vec<String>, separator: &str) -> (s: String)
    ensures
        s@ == separated(text_views(texts@), separator@),
{
    let mut s = String::new();
    for i in 0..texts.len()
        invariant
            s@ == separated(text_views(texts@).take(i as int), separator@),
    {
        let ghost next = text_views(texts@).take(i as int + 1);
        assert(next.drop_last() =~= text_views(texts@).take(i as int));
        if i > 0 {
            s.append(separator);
        }
        s.append(texts[i].as_str());
        assert(s@ =~= separated(next, separator@));
    }
    assert(text_views(texts@).take(texts@.len() as int) =~= text_views(texts@));
    s
}

/// Each byte is written as two of the sixteen digits, high nibble first.
pub proof fn lemma_hex_digits_of_each_byte(bytes: Seq<u8>, i: int)
    requires
        0 <= i < bytes.len(),
    ensures
        hex_chars(bytes).len() == 2 * bytes.len(),
        hex_chars(bytes)[2 * i] == "0123456789abcdef"@[bytes[i] as int / 16],
        hex_chars(bytes)[2 * i + 1] == "0123456789abcdef"@[bytes[i] as int % 16],
{
    reveal_strlit("0123456789abcdef");
    assert((2 * i) % 2 == 0 && (2 * i) / 2 == i);
    assert((2 * i + 1) % 2 == 1 && (2 * i + 1) / 2 == i);
    assert(0 <= bytes[i] as int / 16 < 16);
    assert(0 <= bytes[i] as int % 16 < 16);
}

/// The number that a text of decimal digits stands for.
pub open spec fn decimal_value(digits: Seq<char>) -> int
    decreases digits.len(),
{
    if digits.len() == 0 {
        0
    } else {
        10 * decimal_value(digits.drop_last()) + (digits.last() as int - '0' as int)
    }
}

/// Reading a rendered number gives the number back. It is written in the ten
/// digits, and begins with a zero only if it is zero.
pub proof fn lemma_decimal_reads_back(n: nat)
    ensures
        decimal_value(decimal_chars(n)) == n,
        decimal_chars(n).len() > 0,
        forall|i: int|
            0 <= i < decimal_chars(n).len() ==> '0' <= #[trigger] decimal_chars(n)[i] <= '9',
        decimal_chars(n)[0] == '0' <==> n == 0,
    decreases n,
{
    reveal_with_fuel(decimal_value, 2);
    if n >= 10 {
        let front = decimal_chars(n / 10);
        lemma_decimal_reads_back(n / 10);
        assert(decimal_chars(n).drop_last() =~= front);
        assert(decimal_chars(n)[0] == front[0]);
        assert forall|i: int| 0 <= i < decimal_chars(n).len() implies '0'
            <= #[trigger] decimal_chars(n)[i] <= '9' by {
            if i < front.len() {
                assert(decimal_chars(n)[i] == front[i]);
            }
        }
    } else {
        assert(decimal_chars(n).drop_last() =~= Seq::empty());
    }
}

/// Joining two lists of texts is joining each and putting the separator between
/// the two; one text alone is joined to itself.
pub proof fn lemma_joined_lists(a: Seq<Seq<char>>, b: Seq<Seq<char>>, separator: Seq<char>)
    ensures
        a.len() > 0 && b.len() > 0 ==> separated(a + b, separator) == separated(a, separator)
            + separator + separated(b, separator),
        a.len() == 0 ==> separated(a, separator).len() == 0,
        a.len() == 1 ==> separated(a, separator) == a[0],
    decreases b.len(),
{
    if a.len() > 0 && b.len() > 0 {
        assert((a + b).drop_last() =~= a + b.drop_last());
        assert((a + b).last() == b.last());
        if b.len() == 1 {
            assert(a + b.drop_last() =~= a);
        } else {
            lemma_joined_lists(a, b.drop_last(), separator);
            assert(separated(a + b, separator) =~= separated(a, separator) + separator + separated(
                b,
                separator,
            ));
        }
    }
}

} // verus!
