//! Pieces of text: numbers, prefixes, padding, and text taken from bytes.

use vstd::prelude::*;
use vstd::string::{StrSliceExecFns, StringExecFns};

verus! {

/// The decimal digit for a number below ten.
pub open spec fn digit(d: nat) -> char {
    (48 + d) as char
}

/// `n` in decimal, without leading zeros.
pub open spec fn decimal(n: nat) -> Seq<char>
    decreases n,
{
    if n < 10 {
        seq![digit(n)]
    } else {
        decimal(n / 10).push(digit(n % 10))
    }
}

/// `text` with spaces behind it, so that it is at least `width` characters long.
pub open spec fn pad_right(text: Seq<char>, width: nat) -> Seq<char> {
    if text.len() < width {
        text + Seq::new((width - text.len()) as nat, |i: int| ' ')
    } else {
        text
    }
}

/// Numbers are written with digits, at least one.
pub proof fn lemma_decimal_digits(n: nat)
    ensures
        decimal(n).len() > 0,
        forall|i: int| 0 <= i < decimal(n).len() ==> '0' <= #[trigger] decimal(n)[i] <= '9',
    decreases n,
{
    if n >= 10 {
        lemma_decimal_digits(n / 10);
    }
}

/// No two numbers are written alike in decimal.
pub proof fn law_decimal_tells_numbers_apart(n: nat, m: nat)
    requires
        decimal(n) == decimal(m),
    ensures
        n == m,
    decreases n,
{
    let one = decimal(n);
    let other = decimal(m);
    lemma_decimal_digits(n / 10);
    lemma_decimal_digits(m / 10);
    assert(one.last() == digit(n % 10));
    assert(other.last() == digit(m % 10));
    if n >= 10 && m >= 10 {
        assert(one.drop_last() =~= decimal(n / 10));
        assert(other.drop_last() =~= decimal(m / 10));
        law_decimal_tells_numbers_apart(n / 10, m / 10);
    }
}

/// Where text ends that does not contain a mark is told by the first mark behind
/// it.
pub proof fn lemma_first_mark(
    mark: char,
    one: Seq<char>,
    behind: Seq<char>,
    other: Seq<char>,
    more: Seq<char>,
)
    requires
        !one.contains(mark),
        !other.contains(mark),
        one + seq![mark] + behind == other + seq![mark] + more,
    ensures
        one == other,
        behind == more,
{
    let text = one + seq![mark] + behind;
    assert(text[one.len() as int] == mark);
    assert((other + seq![mark] + more)[other.len() as int] == mark);
    if one.len() < other.len() {
        assert(text[one.len() as int] == other[one.len() as int]);
    }
    if other.len() < one.len() {
        assert(text[other.len() as int] == one[other.len() as int]);
    }
    assert(one =~= text.take(one.len() as int));
    assert(other =~= text.take(one.len() as int));
    assert(behind =~= text.skip(one.len() as int + 1));
    assert(more =~= text.skip(one.len() as int + 1));
}

fn digit_text(d: u64) -> (text: &'static str)
    requires
        d < 10,
    ensures
        text@ == seq![digit(d as nat)],
{
    proof {
        reveal_strlit("0");
        reveal_strlit("1");
        reveal_strlit("2");
        reveal_strlit("3");
        reveal_strlit("4");
        reveal_strlit("5");
        reveal_strlit("6");
        reveal_strlit("7");
        reveal_strlit("8");
        reveal_strlit("9");
    }
    match d {
        0 => "0",
        1 => "1",
        2 => "2",
        3 => "3",
        4 => "4",
        5 => "5",
        6 => "6",
        7 => "7",
        8 => "8",
        _ => "9",
    }
}

/// Appends `n` in decimal to `text`.
pub fn push_decimal(text: &mut String, n: u64)
    ensures
        final(text)@ == old(text)@ + decimal(n as nat),
    decreases n,
{
    if n < 10 {
        text.append(digit_text(n));
    } else {
        push_decimal(text, n / 10);
        text.append(digit_text(n % 10));
        assert(text@ =~= old(text)@ + decimal(n as nat));
    }
}

/// Appends `part` to `text`, padded with spaces to `width` characters.
pub fn push_padded(text: &mut String, part: &str, width: usize)
    ensures
        final(text)@ == old(text)@ + pad_right(part@, width as nat),
{
    text.append(part);
    let mut len: usize = part.unicode_len();
    proof {
        reveal_strlit(" ");
    }
    while len < width
        invariant
            " "@ == seq![' '],
            part@.len() <= len,
            len <= width || len == part@.len(),
            text@ =~= old(text)@ + part@ + Seq::new((len - part@.len()) as nat, |i: int| ' '),
        decreases width - len,
    {
        text.append(" ");
        len = len + 1;
    }
    assert(text@ =~= old(text)@ + pad_right(part@, width as nat));
}

/// Whether `text` starts with `prefix`.
pub fn starts_with(text: &str, prefix: &str) -> (yes: bool)
    ensures
        yes == prefix@.is_prefix_of(text@),
{
    let mut left = text.chars();
    let mut wanted = prefix.chars();
    let ghost mut at: int = 0;
    loop
        invariant
            0 <= at <= prefix@.len(),
            at <= text@.len(),
            vstd::std_specs::iter::IteratorSpec::remaining(&left) == text@.skip(at),
            vstd::std_specs::iter::IteratorSpec::remaining(&wanted) == prefix@.skip(at),
            prefix@.take(at) == text@.take(at),
        decreases prefix@.len() - at,
    {
        match wanted.next() {
            None => {
                return true;
            },
            Some(want) => {
                match left.next() {
                    None => {
                        return false;
                    },
                    Some(have) => {
                        if have != want {
                            return false;
                        }
                    },
                }
            },
        }
        proof {
            at = at + 1;
        }
    }
}

/// The bytes of `text` in UTF-8.
pub fn utf8_bytes(text: &str) -> (bytes: Vec<u8>)
    ensures
        bytes@ == vstd::utf8::encode_utf8(text@),
{
    text.as_bytes_vec()
}

/// What `String::from_utf8_lossy` makes of a sequence of bytes.
pub uninterp spec fn utf8_lossy(bytes: Seq<u8>) -> Seq<char>;

/// Calls `String::from_utf8_lossy`, and `to_string` on the result.
///
/// Bytes that are valid UTF-8 are read as the text that they encode. What
/// becomes of the invalid parts of other bytes is not spelled out: their text is
/// `utf8_lossy` of them, which depends on the bytes alone.
#[verifier::external_body]
pub(crate) fn read_utf8_lossy(bytes: &Vec<u8>) -> (text: String)
    ensures
        text@ == utf8_lossy(bytes@),
        vstd::utf8::valid_utf8(bytes@) ==> text@ == vstd::utf8::decode_utf8(bytes@),
{
    String::from_utf8_lossy(bytes).to_string()
}

/// The bytes are read as the text: it is `utf8_lossy` of them, and if they are
/// valid UTF-8, it is the text that they encode.
pub open spec fn reads_as(bytes: Seq<u8>, text: Seq<char>) -> bool {
    &&& text == utf8_lossy(bytes)
    &&& vstd::utf8::valid_utf8(bytes) ==> text == vstd::utf8::decode_utf8(bytes)
}

/// Text that is sent in UTF-8 is read as it was sent, whatever it is made of.
pub proof fn law_text_is_read_as_it_was_sent(sent: Seq<char>, read: Seq<char>)
    ensures
        reads_as(vstd::utf8::encode_utf8(sent), read) ==> read == sent,
{
    vstd::utf8::encode_utf8_valid_utf8(sent);
    vstd::utf8::encode_utf8_decode_utf8(sent);
}

/// A number in decimal: it has no more digits than it needs, at least one, and the
/// digit at each place is the number, divided by the power of ten that the place
/// stands for, modulo ten. The last place stands for the power zero.
pub proof fn law_decimal_is_base_ten(n: nat)
    ensures
        decimal(n).len() > 0,
        n < vstd::arithmetic::power::pow(10, decimal(n).len()),
        decimal(n).len() > 1 ==> vstd::arithmetic::power::pow(10, (decimal(n).len() - 1) as nat)
            <= n,
        forall|j: int|
            0 <= j < decimal(n).len() ==> (#[trigger] decimal(n)[j]) as int == '0' as int + n as int
                / vstd::arithmetic::power::pow(10, (decimal(n).len() - 1 - j) as nat) % 10,
    decreases n,
{
    reveal(vstd::arithmetic::power::pow);
    let all = decimal(n);
    assert(vstd::arithmetic::power::pow(10, 0) == 1);
    assert(vstd::arithmetic::power::pow(10, 1) == 10);
    if n >= 10 {
        let before = decimal(n / 10);
        law_decimal_is_base_ten(n / 10);
        assert(vstd::arithmetic::power::pow(10, all.len()) == 10 * vstd::arithmetic::power::pow(
            10,
            before.len(),
        ));
        assert(vstd::arithmetic::power::pow(10, before.len()) == 10 * vstd::arithmetic::power::pow(
            10,
            (before.len() - 1) as nat,
        ));
        assert forall|j: int| 0 <= j < all.len() implies (#[trigger] all[j]) as int == '0' as int
            + n as int / vstd::arithmetic::power::pow(10, (all.len() - 1 - j) as nat) % 10 by {
            if j < before.len() {
                let k = (before.len() - 1 - j) as nat;
                let p = vstd::arithmetic::power::pow(10, k);
                assert(all[j] == before[j]);
                assert(vstd::arithmetic::power::pow(10, (k + 1) as nat) == 10 * p);
                vstd::arithmetic::power::lemma_pow_positive(10, k);
                vstd::arithmetic::div_mod::lemma_div_denominator(n as int, 10, p);
            }
        }
    }
}

/// Padding keeps the text, fills up with spaces behind it, and makes nothing longer
/// than it has to be.
pub proof fn law_padding_adds_spaces_only(text: Seq<char>, width: nat)
    ensures
        ({
            let padded = pad_right(text, width);
            &&& text.len() >= width ==> padded.len() == text.len()
            &&& text.len() < width ==> padded.len() == width
            &&& padded.take(text.len() as int) == text
            &&& forall|i: int| text.len() <= i < padded.len() ==> (#[trigger] padded[i]) == ' '
        }),
{
    assert(pad_right(text, width).take(text.len() as int) =~= text);
}

/// Bytes are read as one text only: that of `utf8_lossy`. If they are valid UTF-8,
/// encoding that text gives the bytes back.
pub proof fn law_bytes_are_read_in_one_way(bytes: Seq<u8>, text: Seq<char>)
    requires
        reads_as(bytes, text),
    ensures
        text == utf8_lossy(bytes),
        vstd::utf8::valid_utf8(bytes) ==> vstd::utf8::encode_utf8(text) == bytes,
{
    if vstd::utf8::valid_utf8(bytes) {
        vstd::utf8::decode_utf8_encode_utf8(bytes);
    }
}

} // verus!
