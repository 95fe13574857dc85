use vstd::prelude::*;
use ethabi::ethereum_types::H160;
use crate::amount::{all_hex_digits, hex_digit_value, is_hex_digit, strip_hex_prefix};

verus! {

/// The lowercase hex digits, by value.
pub open spec fn lower_digits() -> Seq<char> {
    seq!['0', '1', '2', '3', '4', '5', '6', '7', '8', '9', 'a', 'b', 'c', 'd', 'e', 'f']
}

/// The uppercase hex digits, by value.
pub open spec fn upper_digits() -> Seq<char> {
    seq!['0', '1', '2', '3', '4', '5', '6', '7', '8', '9', 'A', 'B', 'C', 'D', 'E', 'F']
}

/// The `i`th hex digit's value in `b`, high digit of each byte first.
pub open spec fn nibble(b: Seq<u8>, i: int) -> nat {
    if i % 2 == 0 {
        (b[i / 2] / 16) as nat
    } else {
        (b[i / 2] % 16) as nat
    }
}

/// The ASCII bytes of the lowercase hex digits of `b`.
pub open spec fn lower_hex_ascii(b: Seq<u8>) -> Seq<u8> {
    Seq::new(
        2 * b.len(),
        |i: int|
            if nibble(b, i) < 10 {
                (48 + nibble(b, i)) as u8
            } else {
                (87 + nibble(b, i)) as u8
            },
    )
}

/// The Keccak-256 digest of `data`.
pub uninterp spec fn keccak256_of(data: Seq<u8>) -> Seq<u8>;

/// Relies on `sha3::Keccak256`: the 32-byte Keccak-256 digest, a function of
/// the input alone.
#[verifier::external_body]
fn keccak256(data: &[u8]) -> (r: [u8; 32])
    ensures
        r@ == keccak256_of(data@),
{
    <sha3::Keccak256 as sha3::Digest>::digest(data).into()
}

/// The `i`th digit of the address `b` in its checksummed form: a letter is
/// uppercase exactly where the `i`th hex digit of the digest of the
/// lowercase text is 8 or more.
pub open spec fn checksum_digit(b: Seq<u8>, i: int) -> char {
    let h = keccak256_of(lower_hex_ascii(b));
    if nibble(h, i) >= 8 {
        upper_digits()[nibble(b, i) as int]
    } else {
        lower_digits()[nibble(b, i) as int]
    }
}

/// Whether `s` is the display form of the address `b`: `0x` and its hex
/// digits, high digit of each byte first, in mixed-case checksummed form.
pub open spec fn is_address_text(s: Seq<char>, b: Seq<u8>) -> bool {
    &&& s.len() == 2 + 2 * b.len()
    &&& s[0] == '0'
    &&& s[1] == 'x'
    &&& forall|i: int| 0 <= i < 2 * b.len() ==> s[2 + i] == #[trigger] checksum_digit(b, i)
}

/// Whether `s` is the display form of some address.
pub open spec fn is_some_address_text(s: Seq<char>) -> bool {
    exists|b: Seq<u8>| b.len() == 20 && #[trigger] is_address_text(s, b)
}

fn hex_ascii(b: &[u8; 20]) -> (r: Vec<u8>)
    ensures
        r@ == lower_hex_ascii(b@),
{
    let mut r: Vec<u8> = Vec::new();
    let mut k: usize = 0;
    while k < 20
        invariant
            k <= 20,
            r@.len() == 2 * k,
            forall|i: int| 0 <= i < 2 * k ==> r@[i] == #[trigger] lower_hex_ascii(b@)[i],
        decreases 20 - k,
    {
        let hi = b[k] / 16;
        let lo = b[k] % 16;
        r.push(if hi < 10 { 48 + hi } else { 87 + hi });
        r.push(if lo < 10 { 48 + lo } else { 87 + lo });
        k = k + 1;
    }
    assert(r@ =~= lower_hex_ascii(b@));
    r
}

/// The display form of an address: `0x` and the hex digits in mixed-case
/// checksummed form.
pub fn address_text(a: &H160) -> (r: String)
    ensures
        is_address_text(r@, a.0@),
{
    let b = &a.0;
    let h = keccak256(hex_ascii(b).as_slice());
    let lower = "0123456789abcdef";
    let upper = "0123456789ABCDEF";
    proof {
        reveal_strlit("0123456789abcdef");
        reveal_strlit("0123456789ABCDEF");
        assert(lower@ =~= lower_digits());
        assert(upper@ =~= upper_digits());
    }
    let mut r = String::from_str("0x");
    proof {
        reveal_strlit("0x");
    }
    let mut i: usize = 0;
    while i < 40
        invariant
            i <= 40,
            h@ == keccak256_of(lower_hex_ascii(b@)),
            lower@ == lower_digits(),
            upper@ == upper_digits(),
            r@.len() == 2 + i,
            r@[0] == '0',
            r@[1] == 'x',
            forall|j: int| 0 <= j < i ==> r@[2 + j] == #[trigger] checksum_digit(b@, j),
        decreases 40 - i,
    {
        let n = if i % 2 == 0 { b[i / 2] / 16 } else { b[i / 2] % 16 };
        let hn = if i % 2 == 0 { h[i / 2] / 16 } else { h[i / 2] % 16 };
        let digits = if hn >= 8 { upper } else { lower };
        let piece = digits.substring_char(n as usize, n as usize + 1);
        let ghost before = r@;
        r.append(piece);
        assert(r@ == before + seq![digits@[n as int]]);
        assert(r@[2 + i as int] == checksum_digit(b@, i as int));
        i = i + 1;
    }
    r
}

/// Whether `s` is the hex text of the address `b`: an optional `0x`, then
/// two hex digits of either case per byte, high digit first.
pub open spec fn is_hex_address_text(s: Seq<char>, b: Seq<u8>) -> bool {
    let h = strip_hex_prefix(s);
    &&& h.len() == 2 * b.len()
    &&& all_hex_digits(h)
    &&& forall|k: int|
        0 <= k < b.len() ==> hex_digit_value(h[2 * k]) * 16 + hex_digit_value(h[2 * k + 1])
            == #[trigger] b[k] as nat
}

/// Relies on `<H160 as FromStr>` (fixed-hash with rustc-hex): one leading
/// `0x` is dropped and forty hex digits of either case give the twenty
/// bytes, high digit first.
#[verifier::external_body]
pub(crate) fn parse_address(s: &str) -> (r: Option<H160>)
    ensures
        forall|b: Seq<u8>|
            b.len() == 20 && #[trigger] is_hex_address_text(s@, b) ==> (r is Some && r->Some_0.0@
                == b),
{
    s.parse::<H160>().ok()
}

proof fn lemma_digit_tables(n: nat)
    requires
        n < 16,
    ensures
        is_hex_digit(lower_digits()[n as int]),
        hex_digit_value(lower_digits()[n as int]) == n,
        is_hex_digit(upper_digits()[n as int]),
        hex_digit_value(upper_digits()[n as int]) == n,
{
    if n == 0 {
    } else if n == 1 {
    } else if n == 2 {
    } else if n == 3 {
    } else if n == 4 {
    } else if n == 5 {
    } else if n == 6 {
    } else if n == 7 {
    } else if n == 8 {
    } else if n == 9 {
    } else if n == 10 {
    } else if n == 11 {
    } else if n == 12 {
    } else if n == 13 {
    } else if n == 14 {
    } else {
    }
}

/// The display form of an address is also its hex text, so the address is
/// read back from it.
pub proof fn lemma_display_is_hex_text(s: Seq<char>, b: Seq<u8>)
    requires
        is_address_text(s, b),
    ensures
        is_hex_address_text(s, b),
{
    let h = strip_hex_prefix(s);
    assert(h == s.skip(2));
    assert forall|j: int| 0 <= j < h.len() implies is_hex_digit(#[trigger] h[j])
        && hex_digit_value(h[j]) == nibble(b, j) by {
        assert(h[j] == s[2 + j]);
        assert(s[2 + j] == checksum_digit(b, j));
        assert(nibble(b, j) < 16);
        lemma_digit_tables(nibble(b, j));
    }
    assert forall|k: int| 0 <= k < b.len() implies hex_digit_value(h[2 * k]) * 16
        + hex_digit_value(h[2 * k + 1]) == #[trigger] b[k] as nat by {
        assert(hex_digit_value(h[2 * k]) == nibble(b, 2 * k));
        assert(hex_digit_value(h[2 * k + 1]) == nibble(b, 2 * k + 1));
        assert((2 * k + 1) / 2 == k);
        assert((2 * k) / 2 == k);
        assert((2 * k + 1) % 2 == 1);
        assert((2 * k) % 2 == 0);
        let x = b[k];
        assert((x / 16) as nat * 16 + (x % 16) as nat == x as nat);
    }
}

/// An address has one display form.
pub proof fn lemma_address_text_unique(s1: Seq<char>, s2: Seq<char>, b: Seq<u8>)
    requires
        is_address_text(s1, b),
        is_address_text(s2, b),
    ensures
        s1 == s2,
{
    assert forall|i: int| 0 <= i < s1.len() implies s1[i] == s2[i] by {
        if i >= 2 {
            assert(s1[2 + (i - 2)] == checksum_digit(b, i - 2));
        }
    }
    assert(s1 =~= s2);
}

} // verus!
