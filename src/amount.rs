use vstd::prelude::*;

verus! {

/// 2^64, the weight of one limb.
pub open spec fn limb_base() -> nat {
    0x1_0000_0000_0000_0000nat
}

/// 2^256, one past the largest amount.
pub open spec fn amount_bound() -> nat {
    limb_base() * limb_base() * limb_base() * limb_base()
}

/// An unsigned integer below 2^256, held as four 64-bit limbs, least
/// significant first.
#[derive(Clone, Copy, Debug, PartialEq, Eq)]
pub struct Amount {
    pub limbs: [u64; 4],
}

impl Amount {
    pub open spec fn value(self) -> nat {
        self.limbs@[0] as nat + limb_base() * (self.limbs@[1] as nat + limb_base() * (
        self.limbs@[2] as nat + limb_base() * (self.limbs@[3] as nat)))
    }

    /// The amount zero.
    pub fn zero() -> (r: Amount)
        ensures
            r.value() == 0,
    {
        Amount { limbs: [0u64, 0u64, 0u64, 0u64] }
    }

    /// Whether `self` is at least `other`.
    pub fn at_least(&self, other: &Amount) -> (r: bool)
        ensures
            r == (self.value() >= other.value()),
    {
        let a = self.limbs;
        let b = other.limbs;
        proof {
            lemma_place_bound(a@[0] as nat, a@[1] as nat, a@[2] as nat, a@[3] as nat);
            lemma_place_bound(b@[0] as nat, b@[1] as nat, b@[2] as nat, b@[3] as nat);
            let m = limb_base();
            let la1 = a@[0] as nat + m * a@[1] as nat;
            let lb1 = b@[0] as nat + m * b@[1] as nat;
            let la2 = la1 + m * m * a@[2] as nat;
            let lb2 = lb1 + m * m * b@[2] as nat;
            lemma_compare_place(a@[1] as nat, b@[1] as nat, a@[0] as nat, b@[0] as nat, m);
            lemma_compare_place(a@[2] as nat, b@[2] as nat, la1, lb1, m * m);
            lemma_compare_place(a@[3] as nat, b@[3] as nat, la2, lb2, m * m * m);
            lemma_regroup(a@[0] as nat, a@[1] as nat, a@[2] as nat, a@[3] as nat);
            lemma_regroup(b@[0] as nat, b@[1] as nat, b@[2] as nat, b@[3] as nat);
        }
        if a[3] != b[3] {
            a[3] > b[3]
        } else if a[2] != b[2] {
            a[2] > b[2]
        } else if a[1] != b[1] {
            a[1] > b[1]
        } else {
            a[0] >= b[0]
        }
    }
}


pub open spec fn is_dec_digit(c: char) -> bool {
    '0' <= c && c <= '9'
}

pub open spec fn is_hex_digit(c: char) -> bool {
    ('0' <= c && c <= '9') || ('a' <= c && c <= 'f') || ('A' <= c && c <= 'F')
}

pub open spec fn hex_digit_value(c: char) -> nat {
    if '0' <= c && c <= '9' {
        (c as nat - '0' as nat) as nat
    } else if 'a' <= c && c <= 'f' {
        (c as nat - 'a' as nat + 10) as nat
    } else {
        (c as nat - 'A' as nat + 10) as nat
    }
}

/// Whether `s` consists of decimal digits only (the empty text included).
pub open spec fn all_dec_digits(s: Seq<char>) -> bool {
    forall|i: int| 0 <= i < s.len() ==> is_dec_digit(#[trigger] s[i])
}

/// Whether `s` consists of hexadecimal digits, in either case, only.
pub open spec fn all_hex_digits(s: Seq<char>) -> bool {
    forall|i: int| 0 <= i < s.len() ==> is_hex_digit(#[trigger] s[i])
}

/// The number that the decimal digits `s` spell, most significant first.
pub open spec fn dec_value(s: Seq<char>) -> nat
    decreases s.len(),
{
    if s.len() == 0 {
        0
    } else {
        dec_value(s.drop_last()) * 10 + (s.last() as nat - '0' as nat) as nat
    }
}

/// The number that the hexadecimal digits `s` spell, most significant first.
pub open spec fn hex_value(s: Seq<char>) -> nat
    decreases s.len(),
{
    if s.len() == 0 {
        0
    } else {
        hex_value(s.drop_last()) * 16 + hex_digit_value(s.last())
    }
}

/// `s` without one leading `0x`, if it has one.
pub open spec fn strip_hex_prefix(s: Seq<char>) -> Seq<char> {
    if s.len() >= 2 && s[0] == '0' && s[1] == 'x' {
        s.skip(2)
    } else {
        s
    }
}

/// Whether `s` is the text of a 256-bit number in hexadecimal: an optional
/// `0x` and then at most 64 hex digits (none meaning zero).
pub open spec fn is_hex_amount_text(s: Seq<char>) -> bool {
    strip_hex_prefix(s).len() <= 64 && all_hex_digits(strip_hex_prefix(s))
}

/// Whether `s` is the text of a 256-bit number in decimal: one digit or
/// more and nothing else, of a value below 2^256.
pub open spec fn is_dec_amount_text(s: Seq<char>) -> bool {
    s.len() > 0 && all_dec_digits(s) && dec_value(s) < amount_bound()
}

/// Whether `s` is the canonical decimal text of a number: digits, with no
/// leading zero unless the number is zero, written `0`.
pub open spec fn is_canonical_dec_text(s: Seq<char>) -> bool {
    &&& s.len() > 0
    &&& all_dec_digits(s)
    &&& (s.len() == 1 || s[0] != '0')
}

/// Relies on `U256::from_dec_str` (uint, through ethabi): it accepts exactly
/// the digit strings (the empty one included) whose value fits in 256 bits,
/// and returns that value.
#[verifier::external_body]
fn u256_from_dec_str(s: &str) -> (r: Option<Amount>)
    ensures
        r.is_some() == (all_dec_digits(s@) && dec_value(s@) < amount_bound()),
        r matches Some(a) ==> a.value() == dec_value(s@),
{
    ethabi::ethereum_types::U256::from_dec_str(s).ok().map(|u| Amount { limbs: u.0 })
}

/// Relies on `<U256 as FromStr>::from_str` (uint, through ethabi): it strips
/// one `0x`, accepts up to 64 hex digits of either case, and returns their value.
#[verifier::external_body]
fn u256_from_hex_str(s: &str) -> (r: Option<Amount>)
    ensures
        r.is_some() == is_hex_amount_text(s@),
        r matches Some(a) ==> a.value() == hex_value(strip_hex_prefix(s@)),
{
    <ethabi::ethereum_types::U256 as std::str::FromStr>::from_str(s).ok().map(
        |u| Amount { limbs: u.0 },
    )
}

/// Relies on `<U256 as Display>` (uint, through ethabi): the decimal digits
/// of the value, without leading zeros, `0` for zero.
#[verifier::external_body]
fn u256_to_dec_string(a: &Amount) -> (r: String)
    ensures
        is_canonical_dec_text(r@),
        dec_value(r@) == a.value(),
{
    ethabi::ethereum_types::U256(a.limbs).to_string()
}

/// Reads a decimal amount; `None` where `s` is empty, holds anything but
/// digits, or spells a number of 2^256 or more.
pub fn parse_dec_amount(s: &str) -> (r: Option<Amount>)
    ensures
        r.is_some() == is_dec_amount_text(s@),
        r matches Some(a) ==> a.value() == dec_value(s@),
{
    if s.is_empty() {
        return None;
    }
    u256_from_dec_str(s)
}

/// Reads a hexadecimal amount with an optional `0x`; `None` where the
/// digits are not hex or more than 64.
pub fn parse_hex_amount(s: &str) -> (r: Option<Amount>)
    ensures
        r.is_some() == is_hex_amount_text(s@),
        r matches Some(a) ==> a.value() == hex_value(strip_hex_prefix(s@)),
{
    u256_from_hex_str(s)
}

/// The canonical decimal text of an amount.
pub fn amount_to_dec_string(a: &Amount) -> (r: String)
    ensures
        is_canonical_dec_text(r@),
        dec_value(r@) == a.value(),
{
    u256_to_dec_string(a)
}

/// The decimal text of an amount is read back as an amount: its value is
/// below 2^256, so `parse_dec_amount` returns the number it spells.
pub proof fn lemma_dec_text_round_trip(a: Amount, text: Seq<char>)
    requires
        is_canonical_dec_text(text),
        dec_value(text) == a.value(),
    ensures
        is_dec_amount_text(text),
{
    lemma_amount_below_bound(a);
}

/// Every amount is below 2^256.
pub proof fn lemma_amount_below_bound(a: Amount)
    ensures
        a.value() < amount_bound(),
{
    let m = limb_base();
    lemma_place_bound(a.limbs@[0] as nat, a.limbs@[1] as nat, a.limbs@[2] as nat, a.limbs@[3] as nat);
    lemma_regroup(a.limbs@[0] as nat, a.limbs@[1] as nat, a.limbs@[2] as nat, a.limbs@[3] as nat);
    let low = a.limbs@[0] as nat + m * a.limbs@[1] as nat + m * m * a.limbs@[2] as nat;
    let top = a.limbs@[3] as nat;
    assert(top * (m * m * m) + low < m * m * m * m) by (nonlinear_arith)
        requires top < m, low < m * m * m;
}

proof fn lemma_compare_place(ha: nat, hb: nat, la: nat, lb: nat, m: nat)
    requires
        la < m,
        lb < m,
    ensures
        (ha * m + la >= hb * m + lb) == (ha > hb || (ha == hb && la >= lb)),
{
    if ha > hb {
        assert(ha * m >= (hb + 1) * m) by (nonlinear_arith)
            requires ha >= hb + 1;
        assert((hb + 1) * m == hb * m + m) by (nonlinear_arith);
    } else if ha < hb {
        assert(hb * m >= (ha + 1) * m) by (nonlinear_arith)
            requires hb >= ha + 1;
        assert((ha + 1) * m == ha * m + m) by (nonlinear_arith);
    }
}

proof fn lemma_place_bound(l0: nat, l1: nat, l2: nat, l3: nat)
    requires
        l0 < limb_base(),
        l1 < limb_base(),
        l2 < limb_base(),
        l3 < limb_base(),
    ensures
        l0 + limb_base() * l1 < limb_base() * limb_base(),
        l0 + limb_base() * l1 + limb_base() * limb_base() * l2 < limb_base() * limb_base()
            * limb_base(),
{
    let m = limb_base();
    assert(l0 + m * l1 < m * m) by (nonlinear_arith)
        requires l0 < m, l1 < m;
    assert(l0 + m * l1 + m * m * l2 < m * m * m) by (nonlinear_arith)
        requires l0 + m * l1 < m * m, l2 < m;
}

proof fn lemma_regroup(l0: nat, l1: nat, l2: nat, l3: nat)
    ensures
        l0 + limb_base() * (l1 + limb_base() * (l2 + limb_base() * l3)) == l3 * (limb_base()
            * limb_base() * limb_base()) + (l0 + limb_base() * l1 + limb_base() * limb_base()
            * l2),
{
    let m = limb_base();
    assert(l0 + m * (l1 + m * (l2 + m * l3)) == l3 * (m * m * m) + (l0 + m * l1 + m * m * l2))
        by (nonlinear_arith);
}

} // verus!
