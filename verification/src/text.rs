//! Text: order, stable keys and decimal numbers.

use vstd::prelude::*;
use vstd::utf8::encode_utf8;

verus! {

/// Whether `left` stands before `right` in byte order, given that they agree up to `from`.
pub open spec fn bytes_before(left: Seq<u8>, right: Seq<u8>, from: int) -> bool
    decreases left.len() - from,
{
    if from >= right.len() || from < 0 {
        false
    } else if from >= left.len() {
        true
    } else if left[from] != right[from] {
        left[from] < right[from]
    } else {
        bytes_before(left, right, from + 1)
    }
}

/// Byte order of the encoded text.
pub open spec fn text_before(left: Seq<char>, right: Seq<char>) -> bool {
    bytes_before(encode_utf8(left), encode_utf8(right), 0)
}

pub fn precedes(left: &str, right: &str) -> (answer: bool)
    ensures
        answer == text_before(left@, right@),
{
    let a = left.as_bytes();
    let b = right.as_bytes();
    let mut at: usize = 0;
    while at < a.len() && at < b.len() && a[at] == b[at]
        invariant
            at <= a@.len(),
            at <= b@.len(),
            bytes_before(a@, b@, 0) == bytes_before(a@, b@, at as int),
        decreases a@.len() - at,
    {
        at = at + 1;
    }
    if at >= b.len() {
        false
    } else if at >= a.len() {
        true
    } else {
        a[at] < b[at]
    }
}

proof fn lemma_bytes_irreflexive(text: Seq<u8>, from: int)
    ensures
        !bytes_before(text, text, from),
    decreases text.len() - from,
{
    if 0 <= from < text.len() {
        lemma_bytes_irreflexive(text, from + 1);
    }
}

proof fn lemma_bytes_transitive(a: Seq<u8>, b: Seq<u8>, c: Seq<u8>, from: int)
    requires
        bytes_before(a, b, from),
        bytes_before(b, c, from),
    ensures
        bytes_before(a, c, from),
    decreases a.len() - from,
{
    if 0 <= from < a.len() && from < c.len() && a[from] == b[from] && b[from] == c[from] {
        lemma_bytes_transitive(a, b, c, from + 1);
    }
}

proof fn lemma_bytes_total(a: Seq<u8>, b: Seq<u8>, from: int)
    requires
        0 <= from <= a.len(),
        from <= b.len(),
        forall|i: int| 0 <= i < from ==> a[i] == b[i],
    ensures
        bytes_before(a, b, from) || bytes_before(b, a, from) || a == b,
    decreases a.len() - from,
{
    if from < a.len() && from < b.len() {
        if a[from] == b[from] {
            lemma_bytes_total(a, b, from + 1);
        }
    } else if from >= a.len() && from >= b.len() {
        assert(a =~= b);
    }
}

/// Text order is a strict total order.
pub proof fn text_order_is_strict_and_total(a: Seq<char>, b: Seq<char>, c: Seq<char>)
    ensures
        !text_before(a, a),
        text_before(a, b) && text_before(b, c) ==> text_before(a, c),
        text_before(a, b) || text_before(b, a) || a == b,
{
    broadcast use vstd::utf8::encode_utf8_decode_utf8;

    lemma_bytes_irreflexive(encode_utf8(a), 0);
    if text_before(a, b) && text_before(b, c) {
        lemma_bytes_transitive(encode_utf8(a), encode_utf8(b), encode_utf8(c), 0);
    }
    lemma_bytes_total(encode_utf8(a), encode_utf8(b), 0);
    if encode_utf8(a) == encode_utf8(b) {
        assert(vstd::utf8::decode_utf8(encode_utf8(a)) == a);
        assert(vstd::utf8::decode_utf8(encode_utf8(b)) == b);
    }
}

pub const FNV_OFFSET: u64 = 0xcbf2_9ce4_8422_2325;

pub const FNV_PRIME: u64 = 0x0000_0100_0000_01b3;

/// The 64-bit FNV-1a hash of the first bytes.
pub open spec fn fnv_of(bytes: Seq<u8>, count: nat) -> u64
    decreases count,
{
    if count == 0 {
        FNV_OFFSET
    } else {
        (fnv_of(bytes, (count - 1) as nat) ^ (bytes[count - 1] as u64)).wrapping_mul(FNV_PRIME)
    }
}

pub fn fnv_hash(bytes: &[u8]) -> (hash: u64)
    ensures
        hash == fnv_of(bytes@, bytes@.len()),
{
    let mut hash: u64 = FNV_OFFSET;
    let mut at: usize = 0;
    while at < bytes.len()
        invariant
            at <= bytes@.len(),
            hash == fnv_of(bytes@, at as nat),
        decreases bytes@.len() - at,
    {
        hash = (hash ^ (bytes[at] as u64)).wrapping_mul(FNV_PRIME);
        at = at + 1;
    }
    hash
}

pub open spec fn digit_of(value: nat) -> char {
    if value == 0 {
        '0'
    } else if value == 1 {
        '1'
    } else if value == 2 {
        '2'
    } else if value == 3 {
        '3'
    } else if value == 4 {
        '4'
    } else if value == 5 {
        '5'
    } else if value == 6 {
        '6'
    } else if value == 7 {
        '7'
    } else if value == 8 {
        '8'
    } else {
        '9'
    }
}

/// A number in decimal digits, without leading zeros.
pub open spec fn decimal(value: nat) -> Seq<char>
    decreases value,
{
    if value < 10 {
        seq![digit_of(value)]
    } else {
        decimal(value / 10).push(digit_of(value % 10))
    }
}

fn digit_text(value: u64) -> (text: &'static str)
    requires
        value < 10,
    ensures
        text@ == seq![digit_of(value as nat)],
{
    proof {
        reveal_strlit("0");
        reveal_strlit("1");
        reveal_strlit("2");
        reveal_strlit("3");
        reveal_strlit("4");
        reveal_strlit("5");
        reveal_strlit("6");
        reveal_strlit("7");
        reveal_strlit("8");
        reveal_strlit("9");
    }
    let text: &'static str = if value == 0 {
        "0"
    } else if value == 1 {
        "1"
    } else if value == 2 {
        "2"
    } else if value == 3 {
        "3"
    } else if value == 4 {
        "4"
    } else if value == 5 {
        "5"
    } else if value == 6 {
        "6"
    } else if value == 7 {
        "7"
    } else if value == 8 {
        "8"
    } else {
        "9"
    };
    assert(text@ =~= seq![digit_of(value as nat)]);
    text
}

pub fn decimal_text(value: u64) -> (text: String)
    ensures
        text@ == decimal(value as nat),
    decreases value,
{
    if value < 10 {
        digit_text(value).to_owned()
    } else {
        let mut text = decimal_text(value / 10);
        text.append(digit_text(value % 10));
        assert(text@ =~= decimal(value as nat / 10).push(digit_of(value as nat % 10)));
        text
    }
}

proof fn lemma_digit(a: nat, b: nat)
    requires
        a < 10,
        b < 10,
        digit_of(a) == digit_of(b),
    ensures
        a == b,
{
}

/// Different numbers have different digits.
pub proof fn decimals_are_distinct(a: nat, b: nat)
    requires
        decimal(a) == decimal(b),
    ensures
        a == b,
    decreases a,
{
    reveal_with_fuel(decimal, 2);
    if a < 10 && b < 10 {
        assert(seq![digit_of(a)][0] == seq![digit_of(b)][0]);
        lemma_digit(a, b);
    } else if a < 10 {
        lemma_decimal_len(b / 10);
        assert(decimal(b).len() >= 2);
    } else if b < 10 {
        lemma_decimal_len(a / 10);
        assert(decimal(a).len() >= 2);
    } else {
        assert(decimal(a).last() == digit_of(a % 10));
        assert(decimal(b).last() == digit_of(b % 10));
        lemma_digit(a % 10, b % 10);
        assert(decimal(a).drop_last() =~= decimal(a / 10));
        assert(decimal(b).drop_last() =~= decimal(b / 10));
        decimals_are_distinct(a / 10, b / 10);
    }
}

proof fn lemma_decimal_len(value: nat)
    ensures
        decimal(value).len() >= 1,
    decreases value,
{
    if value >= 10 {
        lemma_decimal_len(value / 10);
    }
}

pub open spec fn is_digit(c: char) -> bool {
    '0' <= c && c <= '9'
}

pub proof fn lemma_decimal_digits(value: nat)
    ensures
        forall|i: int| 0 <= i < decimal(value).len() ==> is_digit(#[trigger] decimal(value)[i]),
    decreases value,
{
    if value >= 10 {
        lemma_decimal_digits(value / 10);
        assert forall|i: int| 0 <= i < decimal(value).len() implies is_digit(
            #[trigger] decimal(value)[i],
        ) by {
            if i < decimal(value / 10).len() {
                assert(decimal(value)[i] == decimal(value / 10)[i]);
            }
        }
    }
}

pub fn clone_text(text: &Option<String>) -> (copy: Option<String>)
    ensures
        text_view(copy) == text_view(*text),
        copy == *text,
{
    match text {
        Some(value) => Some(value.clone()),
        None => None,
    }
}

pub open spec fn text_view(text: Option<String>) -> Option<Seq<char>> {
    match text {
        Some(value) => Some(value@),
        None => None,
    }
}

} // verus!
