//! Token identifiers: the 256-bit numbers that name the outcome shares of the
//! exchange, read from text.
//!
//! A token text is a decimal number: digits alone, no sign, no prefix, no
//! separator. Any other character makes the text invalid.

use vstd::prelude::*;
use vstd::string::is_ascii_spec_bytes;

verus! {

/// A token identifier: a 256-bit number in four 64-bit limbs, least
/// significant first.
#[derive(Clone, Copy, Debug, PartialEq, Eq)]
pub struct TokenId {
    pub limbs: [u64; 4],
}

/// One more than the largest token number: `2^256`.
pub open spec fn token_limit() -> nat {
    0x1_0000_0000_0000_0000_0000_0000_0000_0000_0000_0000_0000_0000_0000_0000_0000_0000nat
}

/// The character is a decimal digit.
pub open spec fn is_digit(c: char) -> bool {
    '0' <= c <= '9'
}

/// The text holds decimal digits and nothing else.
pub open spec fn digits_only(text: Seq<char>) -> bool {
    forall|i: int| 0 <= i < text.len() ==> is_digit(#[trigger] text[i])
}

/// The number that a text of digits denotes in base ten; the empty text
/// denotes zero.
pub open spec fn decimal_value(text: Seq<char>) -> nat
    decreases text.len(),
{
    if text.len() == 0 {
        0
    } else {
        10 * decimal_value(text.drop_last()) + (text.last() as nat - '0' as nat) as nat
    }
}

/// The number that four limbs hold, least significant first.
pub open spec fn limbs_value(limbs: Seq<u64>) -> nat {
    (limbs[0] as nat) + (limbs[1] as nat) * 0x1_0000_0000_0000_0000nat + (limbs[2] as nat)
        * 0x1_0000_0000_0000_0000_0000_0000_0000_0000nat + (limbs[3] as nat)
        * 0x1_0000_0000_0000_0000_0000_0000_0000_0000_0000_0000_0000_0000nat
}

/// The token number that a text denotes: its decimal value, if the text is
/// digits alone and the value fits 256 bits.
pub open spec fn token_number(text: Seq<char>) -> Option<nat> {
    if digits_only(text) && decimal_value(text) < token_limit() {
        Some(decimal_value(text))
    } else {
        None
    }
}

/// The text is there and denotes a token number.
pub open spec fn names_token(text: Option<&str>) -> bool {
    text matches Some(s) && token_number(s@) is Some
}

/// Calls `from_str` of `alloy::primitives::U256` (the parser of `ruint`) on a
/// text of decimal digits and hands out the limbs of the number with
/// `into_limbs`. Of such a text the contract claims what the parser is for:
/// it reads the text as a number in base ten, gives that number if it is
/// below `2^256`, and fails if it is not.
#[verifier::external_body]
fn parse_u256(text: &str) -> (limbs: Option<[u64; 4]>)
    requires
        digits_only(text@),
    ensures
        limbs is Some == (decimal_value(text@) < token_limit()),
        limbs matches Some(l) ==> limbs_value(l@) == decimal_value(text@),
{
    match text.parse::<alloy::primitives::U256>() {
        Ok(number) => Some(number.into_limbs()),
        Err(_) => None,
    }
}

/// Whether a text holds decimal digits and nothing else.
pub fn all_digits(text: &str) -> (yes: bool)
    ensures
        yes == digits_only(text@),
{
    if !text.is_ascii() {
        proof {
            if digits_only(text@) {
                assert forall|i: int| 0 <= i < text@.len() implies '\0' <= #[trigger] text@[i]
                    <= '\u{7f}' by {
                    assert(is_digit(text@[i]));
                }
            }
        }
        return false;
    }
    let bytes = text.as_bytes();
    proof {
        is_ascii_spec_bytes(text);
    }
    let mut i: usize = 0;
    while i < bytes.len()
        invariant
            i <= bytes@.len(),
            bytes@.len() == text@.len(),
            vstd::string::is_ascii(text),
            forall|j: int| 0 <= j < bytes@.len() ==> bytes@[j] == text@[j] as u8,
            forall|j: int| 0 <= j < i ==> is_digit(#[trigger] text@[j]),
        decreases bytes@.len() - i,
    {
        let b = bytes[i];
        proof {
            let c = text@[i as int];
            assert('\0' <= c <= '\u{7f}');
            assert(c as u8 == b);
        }
        if b < 48 || b > 57 {
            return false;
        }
        i = i + 1;
    }
    true
}

impl TokenId {
    /// The number of the token.
    pub open spec fn value(self) -> nat {
        limbs_value(self.limbs@)
    }

    /// Reads a token identifier from text; `None` where the text is not a
    /// decimal number below `2^256`.
    pub fn parse(text: &str) -> (token: Option<TokenId>)
        ensures
            token is Some == token_number(text@) is Some,
            token matches Some(t) ==> token_number(text@) == Some(t.value()),
    {
        if !all_digits(text) {
            return None;
        }
        match parse_u256(text) {
            Some(limbs) => Some(TokenId { limbs }),
            None => None,
        }
    }

    /// Reads a token identifier from a text that may be missing.
    pub fn parse_optional(text: Option<&str>) -> (token: Option<TokenId>)
        ensures
            token is Some == names_token(text),
            token matches Some(t) ==> (text matches Some(s) && token_number(s@) == Some(t.value())),
    {
        match text {
            Some(s) => TokenId::parse(s),
            None => None,
        }
    }
}

/// Four limbs are determined by the number they hold: two tokens with one
/// number are one token.
pub proof fn lemma_limbs_value_determines_limbs(a: Seq<u64>, b: Seq<u64>)
    requires
        a.len() == 4,
        b.len() == 4,
        limbs_value(a) == limbs_value(b),
    ensures
        a == b,
{
    let k: int = 0x1_0000_0000_0000_0000;
    let high_a = a[1] + a[2] * k + a[3] * (k * k);
    let high_b = b[1] + b[2] * k + b[3] * (k * k);
    assert(k * k == 0x1_0000_0000_0000_0000_0000_0000_0000_0000int);
    assert(k * (k * k) == 0x1_0000_0000_0000_0000_0000_0000_0000_0000_0000_0000_0000_0000int);
    assert(limbs_value(a) == a[0] + k * high_a) by (nonlinear_arith)
        requires
            limbs_value(a) == a[0] + a[1] * k + a[2] * (k * k) + a[3] * (k * (k * k)),
            high_a == a[1] + a[2] * k + a[3] * (k * k),
    ;
    assert(limbs_value(b) == b[0] + k * high_b) by (nonlinear_arith)
        requires
            limbs_value(b) == b[0] + b[1] * k + b[2] * (k * k) + b[3] * (k * (k * k)),
            high_b == b[1] + b[2] * k + b[3] * (k * k),
    ;
    lemma_split_low(a[0] as int, high_a, b[0] as int, high_b, k);
    let top_a = a[2] + a[3] * k;
    let top_b = b[2] + b[3] * k;
    assert(high_a == a[1] + k * top_a && high_b == b[1] + k * top_b) by (nonlinear_arith)
        requires
            high_a == a[1] + a[2] * k + a[3] * (k * k),
            high_b == b[1] + b[2] * k + b[3] * (k * k),
            top_a == a[2] + a[3] * k,
            top_b == b[2] + b[3] * k,
    ;
    lemma_split_low(a[1] as int, top_a, b[1] as int, top_b, k);
    assert(top_a == a[2] + k * a[3] && top_b == b[2] + k * b[3]) by (nonlinear_arith)
        requires
            top_a == a[2] + a[3] * k,
            top_b == b[2] + b[3] * k,
    ;
    lemma_split_low(a[2] as int, a[3] as int, b[2] as int, b[3] as int, k);
    assert(a =~= b);
}

/// A number splits in one way into a low part below `k` and a multiple of
/// `k`.
proof fn lemma_split_low(low_a: int, high_a: int, low_b: int, high_b: int, k: int)
    requires
        k > 0,
        0 <= low_a < k,
        0 <= low_b < k,
        low_a + k * high_a == low_b + k * high_b,
    ensures
        low_a == low_b,
        high_a == high_b,
{
    assert(k * high_a == high_a * k && k * high_b == high_b * k) by (nonlinear_arith);
    vstd::arithmetic::div_mod::lemma_fundamental_div_mod_converse(
        low_a + k * high_a,
        k,
        high_a,
        low_a,
    );
    vstd::arithmetic::div_mod::lemma_fundamental_div_mod_converse(
        low_b + k * high_b,
        k,
        high_b,
        low_b,
    );
}

/// A text with a character that is no decimal digit names no token.
pub proof fn lemma_non_numeric_text_names_no_token(text: &str, i: int)
    requires
        0 <= i < text@.len(),
        !is_digit(text@[i]),
    ensures
        token_number(text@) is None,
        !names_token(Some(text)),
{
}

} // verus!
