use vstd::prelude::*;
use vstd::arithmetic::power::pow;
use ethabi::ethereum_types::{H160, U256};
use ethabi::{ParamType, Token};
use crate::amount::{Amount, amount_to_dec_string, dec_value, is_canonical_dec_text, limb_base};
use crate::address::{
    keccak256_of,
    address_text, is_address_text, is_hex_address_text, is_some_address_text, lemma_address_text_unique,
    lemma_display_is_hex_text, parse_address,
};
use crate::model::{Group, GroupCriteria, PendingMembership, ReconcileError};

verus! {

#[verifier::external_type_specification]
pub struct ExH160(ethabi::ethereum_types::H160);

#[verifier::external_type_specification]
pub struct ExU256(ethabi::ethereum_types::U256);

#[verifier::external_type_specification]
pub struct ExParamType(ethabi::ParamType);

#[verifier::external_type_specification]
pub struct ExToken(ethabi::Token);


// ---- schemas -------------------------------------------------------------

pub open spec fn is_criteria_schema(p: ParamType) -> bool {
    match p {
        ParamType::Tuple(v) => v@.len() == 3 && v@[0] == ParamType::Uint(256) && v@[1]
            == ParamType::Address && v@[2] == ParamType::Uint(256),
        _ => false,
    }
}

pub open spec fn is_address_array_schema(p: ParamType) -> bool {
    match p {
        ParamType::Array(b) => *b == ParamType::Address,
        _ => false,
    }
}

/// `(uint256 group_id, string name, address[] members, (uint256 chain_id,
/// address token, uint256 required_amount) criteria, bool exists)`
pub open spec fn is_group_schema(p: ParamType) -> bool {
    match p {
        ParamType::Tuple(v) => v@.len() == 5 && v@[0] == ParamType::Uint(256) && v@[1]
            == ParamType::String && is_address_array_schema(v@[2]) && is_criteria_schema(v@[3])
            && v@[4] == ParamType::Bool,
        _ => false,
    }
}

/// `(uint256 group_id, address member)`
pub open spec fn is_pending_schema(p: ParamType) -> bool {
    match p {
        ParamType::Tuple(v) => v@.len() == 2 && v@[0] == ParamType::Uint(256) && v@[1]
            == ParamType::Address,
        _ => false,
    }
}

pub open spec fn is_groups_schema(p: ParamType) -> bool {
    match p {
        ParamType::Array(b) => is_group_schema(*b),
        _ => false,
    }
}

pub open spec fn is_pendings_schema(p: ParamType) -> bool {
    match p {
        ParamType::Array(b) => is_pending_schema(*b),
        _ => false,
    }
}

fn criteria_schema() -> (r: ParamType)
    ensures
        is_criteria_schema(r),
{
    ParamType::Tuple(vec![ParamType::Uint(256), ParamType::Address, ParamType::Uint(256)])
}

/// The wire type of the answer to `getAllGroups()`.
pub fn groups_schema() -> (r: ParamType)
    ensures
        is_groups_schema(r),
{
    let group = ParamType::Tuple(
        vec![
            ParamType::Uint(256),
            ParamType::String,
            ParamType::Array(Box::new(ParamType::Address)),
            criteria_schema(),
            ParamType::Bool,
        ],
    );
    ParamType::Array(Box::new(group))
}

/// The wire type of the answer to `getAllPendingMemberships()`.
pub fn pendings_schema() -> (r: ParamType)
    ensures
        is_pendings_schema(r),
{
    ParamType::Array(Box::new(ParamType::Tuple(vec![ParamType::Uint(256), ParamType::Address])))
}

// ---- decoded shapes ------------------------------------------------------

pub open spec fn fits_criteria(t: Token) -> bool {
    match t {
        Token::Tuple(v) => v@.len() == 3 && v@[0] is Uint && v@[1] is Address && v@[2] is Uint,
        _ => false,
    }
}

pub open spec fn fits_group(t: Token) -> bool {
    match t {
        Token::Tuple(v) => {
            &&& v@.len() == 5
            &&& v@[0] is Uint
            &&& v@[1] is String
            &&& (match v@[2] {
                Token::Array(a) => forall|k: int| 0 <= k < a@.len() ==> (#[trigger] a@[k]) is Address,
                _ => false,
            })
            &&& fits_criteria(v@[3])
            &&& v@[4] is Bool
        },
        _ => false,
    }
}

pub open spec fn fits_pending(t: Token) -> bool {
    match t {
        Token::Tuple(v) => v@.len() == 2 && v@[0] is Uint && v@[1] is Address,
        _ => false,
    }
}

pub open spec fn fits_groups(t: Token) -> bool {
    match t {
        Token::Array(a) => forall|k: int| 0 <= k < a@.len() ==> fits_group(#[trigger] a@[k]),
        _ => false,
    }
}

pub open spec fn fits_pendings(t: Token) -> bool {
    match t {
        Token::Array(a) => forall|k: int| 0 <= k < a@.len() ==> fits_pending(#[trigger] a@[k]),
        _ => false,
    }
}

/// What ethabi decodes from `data` against `types`: the tokens, or the text
/// of the error that describes the mismatch.
pub uninterp spec fn abi_decoded(types: Seq<ParamType>, data: Seq<u8>) -> Result<
    Seq<Token>,
    Seq<char>,
>;

/// Relies on `ethabi::decode` and the `Display` of its error: it fails or
/// returns one token per type, each of that type's kind (an array of the
/// element kind, a tuple of the member kinds), and its result, tokens or
/// error text, depends on the types and the bytes alone.
#[verifier::external_body]
fn abi_decode(types: &[ParamType], data: &[u8]) -> (r: Result<Vec<Token>, String>)
    ensures
        r matches Ok(ts) ==> (abi_decoded(types@, data@) matches Ok(d) && d == ts@),
        r matches Err(m) ==> (abi_decoded(types@, data@) matches Err(d) && d == m@),
        r matches Ok(ts) ==> ts@.len() == types@.len(),
        r matches Ok(ts) ==> (forall|i: int|
            0 <= i < types@.len() && is_groups_schema(#[trigger] types@[i]) ==> fits_groups(
                ts@[i],
            )),
        r matches Ok(ts) ==> (forall|i: int|
            0 <= i < types@.len() && is_pendings_schema(#[trigger] types@[i]) ==> fits_pendings(
                ts@[i],
            )),
{
    ethabi::decode(types, data).map_err(|e| e.to_string())
}

// ---- reading decoded values ----------------------------------------------

pub open spec fn uint_value(u: U256) -> nat {
    Amount { limbs: u.0 }.value()
}

pub open spec fn uint_of(t: Token) -> nat {
    match t {
        Token::Uint(u) => uint_value(u),
        _ => 0,
    }
}

pub open spec fn address_bytes_of(t: Token) -> Seq<u8> {
    match t {
        Token::Address(a) => a.0@,
        _ => Seq::empty(),
    }
}

pub open spec fn string_of(t: Token) -> Seq<char> {
    match t {
        Token::String(s) => s@,
        _ => Seq::empty(),
    }
}

pub open spec fn bool_of(t: Token) -> bool {
    match t {
        Token::Bool(b) => b,
        _ => false,
    }
}

pub open spec fn items_of(t: Token) -> Seq<Token> {
    match t {
        Token::Array(v) => v@,
        Token::Tuple(v) => v@,
        _ => Seq::empty(),
    }
}

pub open spec fn is_criteria_of(c: GroupCriteria, t: Token) -> bool {
    let v = items_of(t);
    &&& c.chain_id == uint_of(v[0])
    &&& is_address_text(c.token_address@, address_bytes_of(v[1]))
    &&& is_canonical_dec_text(c.required_amount@)
    &&& dec_value(c.required_amount@) == uint_of(v[2])
}

/// Whether `g` is the group that the decoded record `t` describes.
pub open spec fn is_group_of(g: Group, t: Token) -> bool {
    let v = items_of(t);
    &&& g.group_id == uint_of(v[0])
    &&& g.name@ == string_of(v[1])
    &&& g.members@.len() == items_of(v[2]).len()
    &&& forall|k: int|
        0 <= k < g.members@.len() ==> is_address_text(
            (#[trigger] g.members@[k])@,
            address_bytes_of(items_of(v[2])[k]),
        )
    &&& is_criteria_of(g.criteria, v[3])
    &&& g.exists == bool_of(v[4])
}

/// Whether the ids of the decoded record `t` fit in 64 bits.
pub open spec fn group_ids_fit(t: Token) -> bool {
    uint_of(items_of(t)[0]) < limb_base() && uint_of(items_of(items_of(t)[3])[0]) < limb_base()
}

/// Whether `p` is the request that the decoded record `t` describes.
pub open spec fn is_pending_of(p: PendingMembership, t: Token) -> bool {
    &&& p.group_id == uint_of(items_of(t)[0])
    &&& is_address_text(p.member@, address_bytes_of(items_of(t)[1]))
}

pub open spec fn pending_id_fits(t: Token) -> bool {
    uint_of(items_of(t)[0]) < limb_base()
}

/// The value of `u` where it is below 2^64.
pub fn uint_to_u64(u: &U256) -> (r: Option<u64>)
    ensures
        r is Some <==> uint_value(*u) < limb_base(),
        r matches Some(x) ==> x as nat == uint_value(*u),
{
    let l = u.0;
    let ghost m = limb_base();
    let ghost rest = l[1] as nat + m * (l[2] as nat + m * l[3] as nat);
    assert(uint_value(*u) == l[0] as nat + m * rest);
    if l[1] == 0 && l[2] == 0 && l[3] == 0 {
        assert(rest == 0) by (nonlinear_arith)
            requires rest == l[1] as nat + m * (l[2] as nat + m * l[3] as nat), l[1] == 0, l[2] == 0, l[3] == 0;
        Some(l[0])
    } else {
        assert(rest >= 1) by (nonlinear_arith)
            requires rest == l[1] as nat + m * (l[2] as nat + m * l[3] as nat), !(l[1] == 0 && l[2] == 0 && l[3] == 0), m > 0;
        assert(l[0] as nat + m * rest >= m) by (nonlinear_arith)
            requires rest >= 1;
        None
    }
}

fn decode_error(what: &str) -> (r: ReconcileError)
    ensures
        r is Decode,
{
    ReconcileError::Decode(String::from_str(what))
}

fn criteria_from_token(t: &Token) -> (r: Result<GroupCriteria, ReconcileError>)
    requires
        fits_criteria(*t),
    ensures
        r is Ok <==> uint_of(items_of(*t)[0]) < limb_base(),
        r matches Ok(c) ==> is_criteria_of(c, *t),
        r matches Err(e) ==> e is Decode,
{
    match t {
        Token::Tuple(v) => {
            let chain_id = match &v[0] {
                Token::Uint(u) => match uint_to_u64(u) {
                    Some(x) => x,
                    None => {
                        return Err(decode_error("chain id above 64 bits"));
                    },
                },
                _ => {
                    return Err(decode_error("chain id is not an integer"));
                },
            };
            let token_address = match &v[1] {
                Token::Address(a) => address_text(a),
                _ => {
                    return Err(decode_error("token is not an address"));
                },
            };
            let required_amount = match &v[2] {
                Token::Uint(u) => amount_to_dec_string(&Amount { limbs: u.0 }),
                _ => {
                    return Err(decode_error("required amount is not an integer"));
                },
            };
            Ok(GroupCriteria { chain_id, token_address, required_amount })
        },
        _ => Err(decode_error("criteria are not a tuple")),
    }
}

fn addresses_from_tokens(items: &Vec<Token>) -> (r: Vec<String>)
    requires
        forall|k: int| 0 <= k < items@.len() ==> (#[trigger] items@[k]) is Address,
    ensures
        r@.len() == items@.len(),
        forall|k: int|
            0 <= k < r@.len() ==> is_address_text((#[trigger] r@[k])@, address_bytes_of(items@[k])),
{
    let mut r: Vec<String> = Vec::new();
    let mut k: usize = 0;
    while k < items.len()
        invariant
            k <= items@.len(),
            r@.len() == k,
            forall|k: int| 0 <= k < items@.len() ==> (#[trigger] items@[k]) is Address,
            forall|j: int|
                0 <= j < k ==> is_address_text((#[trigger] r@[j])@, address_bytes_of(items@[j])),
        decreases items.len() - k,
    {
        match &items[k] {
            Token::Address(a) => {
                r.push(address_text(a));
            },
            _ => {},
        }
        k = k + 1;
    }
    r
}

fn all_addresses(items: &Vec<Token>) -> (r: bool)
    ensures
        r == forall|k: int| 0 <= k < items@.len() ==> (#[trigger] items@[k]) is Address,
{
    let mut k: usize = 0;
    while k < items.len()
        invariant
            k <= items@.len(),
            forall|j: int| 0 <= j < k ==> (#[trigger] items@[j]) is Address,
        decreases items.len() - k,
    {
        if !matches!(&items[k], Token::Address(_)) {
            return false;
        }
        k = k + 1;
    }
    true
}

fn criteria_shape(t: &Token) -> (r: bool)
    ensures
        r == fits_criteria(*t),
{
    match t {
        Token::Tuple(v) => v.len() == 3 && matches!(&v[0], Token::Uint(_)) && matches!(
            &v[1],
            Token::Address(_)
        ) && matches!(&v[2], Token::Uint(_)),
        _ => false,
    }
}

fn group_shape(t: &Token) -> (r: bool)
    ensures
        r == fits_group(*t),
{
    match t {
        Token::Tuple(v) => {
            if v.len() != 5 {
                return false;
            }
            let members_ok = match &v[2] {
                Token::Array(items) => all_addresses(items),
                _ => false,
            };
            matches!(&v[0], Token::Uint(_)) && matches!(&v[1], Token::String(_)) && members_ok
                && criteria_shape(&v[3]) && matches!(&v[4], Token::Bool(_))
        },
        _ => false,
    }
}

/// The group that a decoded record describes; a decode error where the
/// record does not have the group's shape or an id does not fit in 64 bits.
pub fn group_from_token(t: &Token) -> (r: Result<Group, ReconcileError>)
    ensures
        r is Ok <==> fits_group(*t) && group_ids_fit(*t),
        r matches Ok(g) ==> is_group_of(g, *t),
        r matches Err(e) ==> e is Decode,
{
    if !group_shape(t) {
        return Err(decode_error("group record has the wrong shape"));
    }
    match t {
        Token::Tuple(v) => {
            let group_id = match &v[0] {
                Token::Uint(u) => match uint_to_u64(u) {
                    Some(x) => x,
                    None => {
                        return Err(decode_error("group id above 64 bits"));
                    },
                },
                _ => {
                    return Err(decode_error("group id is not an integer"));
                },
            };
            let name = match &v[1] {
                Token::String(s) => s.clone(),
                _ => {
                    return Err(decode_error("group name is not a string"));
                },
            };
            let members = match &v[2] {
                Token::Array(items) => addresses_from_tokens(items),
                _ => {
                    return Err(decode_error("members are not an array"));
                },
            };
            let criteria = criteria_from_token(&v[3])?;
            let exists = match &v[4] {
                Token::Bool(b) => *b,
                _ => {
                    return Err(decode_error("exists is not a boolean"));
                },
            };
            Ok(Group { group_id, name, members, criteria, exists })
        },
        _ => Err(decode_error("group record is not a tuple")),
    }
}

/// The request that a decoded record describes; a decode error where the
/// record does not have the request's shape or its id does not fit in 64 bits.
pub fn pending_from_token(t: &Token) -> (r: Result<PendingMembership, ReconcileError>)
    ensures
        r is Ok <==> fits_pending(*t) && pending_id_fits(*t),
        r matches Ok(p) ==> is_pending_of(p, *t),
        r matches Err(e) ==> e is Decode,
{
    match t {
        Token::Tuple(v) => {
            if v.len() != 2 {
                return Err(decode_error("request record has the wrong arity"));
            }
            let group_id = match &v[0] {
                Token::Uint(u) => match uint_to_u64(u) {
                    Some(x) => x,
                    None => {
                        return Err(decode_error("group id above 64 bits"));
                    },
                },
                _ => {
                    return Err(decode_error("group id is not an integer"));
                },
            };
            let member = match &v[1] {
                Token::Address(a) => address_text(a),
                _ => {
                    return Err(decode_error("member is not an address"));
                },
            };
            Ok(PendingMembership { group_id, member })
        },
        _ => Err(decode_error("request record is not a tuple")),
    }
}

/// Whether `gs` are the groups that the decoded array `t` describes, in order.
pub open spec fn are_groups_of(gs: Seq<Group>, t: Token) -> bool {
    &&& gs.len() == items_of(t).len()
    &&& forall|k: int| 0 <= k < gs.len() ==> is_group_of(#[trigger] gs[k], items_of(t)[k])
}

/// Whether `ps` are the requests that the decoded array `t` describes, in order.
pub open spec fn are_pendings_of(ps: Seq<PendingMembership>, t: Token) -> bool {
    &&& ps.len() == items_of(t).len()
    &&& forall|k: int| 0 <= k < ps.len() ==> is_pending_of(#[trigger] ps[k], items_of(t)[k])
}

/// Whether `t` is an array of group records whose ids fit in 64 bits.
pub open spec fn all_groups_fit(t: Token) -> bool {
    t is Array && forall|k: int|
        0 <= k < items_of(t).len() ==> fits_group(#[trigger] items_of(t)[k]) && group_ids_fit(
            items_of(t)[k],
        )
}

/// Whether `t` is an array of request records whose ids fit in 64 bits.
pub open spec fn all_pendings_fit(t: Token) -> bool {
    t is Array && forall|k: int|
        0 <= k < items_of(t).len() ==> fits_pending(#[trigger] items_of(t)[k]) && pending_id_fits(
            items_of(t)[k],
        )
}

/// The groups that a decoded array describes: all of them, or a decode error.
pub fn groups_from_token(t: &Token) -> (r: Result<Vec<Group>, ReconcileError>)
    ensures
        r is Ok <==> all_groups_fit(*t),
        r matches Ok(gs) ==> are_groups_of(gs@, *t),
        r matches Err(e) ==> e is Decode,
{
    match t {
        Token::Array(items) => {
            let mut gs: Vec<Group> = Vec::new();
            let mut k: usize = 0;
            while k < items.len()
                invariant
                    items_of(*t) == items@,
                    k <= items@.len(),
                    gs@.len() == k,
                    forall|j: int|
                        0 <= j < k ==> fits_group(#[trigger] items@[j]) && group_ids_fit(items@[j]),
                    forall|j: int| 0 <= j < k ==> is_group_of(#[trigger] gs@[j], items@[j]),
                decreases items.len() - k,
            {
                let g = group_from_token(&items[k])?;
                gs.push(g);
                k = k + 1;
            }
            Ok(gs)
        },
        _ => Err(decode_error("groups are not an array")),
    }
}

/// The requests that a decoded array describes: all of them, or a decode
/// error.
pub fn pendings_from_token(t: &Token) -> (r: Result<Vec<PendingMembership>, ReconcileError>)
    ensures
        r is Ok <==> all_pendings_fit(*t),
        r matches Ok(ps) ==> are_pendings_of(ps@, *t),
        r matches Err(e) ==> e is Decode,
{
    match t {
        Token::Array(items) => {
            let mut ps: Vec<PendingMembership> = Vec::new();
            let mut k: usize = 0;
            while k < items.len()
                invariant
                    items_of(*t) == items@,
                    k <= items@.len(),
                    ps@.len() == k,
                    forall|j: int|
                        0 <= j < k ==> fits_pending(#[trigger] items@[j]) && pending_id_fits(
                            items@[j],
                        ),
                    forall|j: int| 0 <= j < k ==> is_pending_of(#[trigger] ps@[j], items@[j]),
                decreases items.len() - k,
            {
                let p = pending_from_token(&items[k])?;
                ps.push(p);
                k = k + 1;
            }
            Ok(ps)
        },
        _ => Err(decode_error("requests are not an array")),
    }
}

/// Decodes the answer to `getAllGroups()`. On success the groups are those
/// of the array that ethabi decoded against the groups' wire type; any
/// mismatch is a decode error, carrying ethabi's description where ethabi
/// refused the bytes, and nothing partial is returned.
pub fn decode_groups(data: &[u8]) -> (r: Result<Vec<Group>, ReconcileError>)
    ensures
        r matches Ok(gs) ==> exists|types: Seq<ParamType>|
            types.len() == 1 && is_groups_schema(types[0]) && (#[trigger] abi_decoded(types, data@)
                matches Ok(ts) && are_groups_of(gs@, ts[0])),
        r is Err ==> exists|types: Seq<ParamType>|
            types.len() == 1 && is_groups_schema(types[0]) && match #[trigger] abi_decoded(
                types,
                data@,
            ) {
                Err(m) => r matches Err(ReconcileError::Decode(t)) && t@ == m,
                Ok(ts) => !all_groups_fit(ts[0]),
            },
        r matches Err(e) ==> e is Decode,
{
    let types = vec![groups_schema()];
    match abi_decode(types.as_slice(), data) {
        Ok(ts) => {
            assert(is_groups_schema(types@[0]));
            groups_from_token(&ts[0])
        },
        Err(m) => Err(ReconcileError::Decode(m)),
    }
}

/// Decodes the answer to `getAllPendingMemberships()`, as `decode_groups`
/// does for groups.
pub fn decode_pending_memberships(data: &[u8]) -> (r: Result<Vec<PendingMembership>, ReconcileError>)
    ensures
        r matches Ok(ps) ==> exists|types: Seq<ParamType>|
            types.len() == 1 && is_pendings_schema(types[0]) && (#[trigger] abi_decoded(types, data@)
                matches Ok(ts) && are_pendings_of(ps@, ts[0])),
        r is Err ==> exists|types: Seq<ParamType>|
            types.len() == 1 && is_pendings_schema(types[0]) && match #[trigger] abi_decoded(
                types,
                data@,
            ) {
                Err(m) => r matches Err(ReconcileError::Decode(t)) && t@ == m,
                Ok(ts) => !all_pendings_fit(ts[0]),
            },
        r matches Err(e) ==> e is Decode,
{
    let types = vec![pendings_schema()];
    match abi_decode(types.as_slice(), data) {
        Ok(ts) => {
            assert(is_pendings_schema(types@[0]));
            pendings_from_token(&ts[0])
        },
        Err(m) => Err(ReconcileError::Decode(m)),
    }
}

// ---- call data -----------------------------------------------------------

/// Whether every character of `s` is ASCII.
pub open spec fn is_ascii_text(s: Seq<char>) -> bool {
    forall|i: int| 0 <= i < s.len() ==> (#[trigger] s[i] as u32) < 128
}

/// The bytes of an ASCII text, one per character.
pub open spec fn ascii_bytes(s: Seq<char>) -> Seq<u8> {
    Seq::new(s.len(), |i: int| s[i] as u8)
}

/// Whether `p` is a parameter type that selectors here are built from.
pub open spec fn is_word_param(p: ParamType) -> bool {
    p == ParamType::Uint(256) || p == ParamType::Address
}

/// The canonical name of a word parameter type.
pub open spec fn param_text(p: ParamType) -> Seq<char> {
    if p == ParamType::Address {
        "address"@
    } else {
        "uint256"@
    }
}

/// The parameter type names joined by commas.
pub open spec fn params_text(ps: Seq<ParamType>) -> Seq<char>
    decreases ps.len(),
{
    if ps.len() == 0 {
        Seq::empty()
    } else if ps.len() == 1 {
        param_text(ps[0])
    } else {
        params_text(ps.drop_last()) + ","@ + param_text(ps.last())
    }
}

/// The text of a function signature: `name(type,type,...)`.
pub open spec fn signature_text(name: Seq<char>, params: Seq<ParamType>) -> Seq<char> {
    name + "("@ + params_text(params) + ")"@
}

/// A function's selector: the first four bytes of the Keccak-256 digest of
/// its signature text.
pub open spec fn selector_of(name: Seq<char>, params: Seq<ParamType>) -> Seq<u8> {
    keccak256_of(ascii_bytes(signature_text(name, params))).take(4)
}

/// Relies on `ethabi::short_signature`: the first four bytes of the
/// Keccak-256 digest (sha3's `Keccak256`) of `name(type,...)`, the types
/// written by their canonical names.
#[verifier::external_body]
fn short_signature(name: &str, params: &[ParamType]) -> (r: [u8; 4])
    requires
        is_ascii_text(name@),
        forall|i: int| 0 <= i < params@.len() ==> is_word_param(#[trigger] params@[i]),
    ensures
        r@ == selector_of(name@, params@),
{
    ethabi::short_signature(name, params)
}

/// `x` as 32 big-endian bytes.
pub open spec fn be_word(x: nat) -> Seq<u8> {
    Seq::new(32, |i: int| ((x / (pow(256, (31 - i) as nat) as nat)) % 256) as u8)
}

/// The head word of a static token: a number big-endian, an address after
/// twelve zero bytes.
pub open spec fn word_of(t: Token) -> Seq<u8> {
    match t {
        Token::Uint(u) => be_word(uint_value(u)),
        Token::Address(a) => Seq::new(12, |i: int| 0u8) + a.0@,
        _ => Seq::empty(),
    }
}

pub open spec fn words_of(ts: Seq<Token>) -> Seq<u8>
    decreases ts.len(),
{
    if ts.len() == 0 {
        Seq::empty()
    } else {
        words_of(ts.drop_last()) + word_of(ts.last())
    }
}

/// Relies on `ethabi::encode`: tokens that are all numbers or addresses are
/// encoded as their head words one after the other.
#[verifier::external_body]
fn abi_encode(tokens: &[Token]) -> (r: Vec<u8>)
    requires
        forall|i: int| 0 <= i < tokens@.len() ==> (#[trigger] tokens@[i] is Uint || tokens@[i] is Address),
    ensures
        r@ == words_of(tokens@),
{
    ethabi::encode(tokens)
}

/// The call data of a read-only call of `name()`.
fn no_argument_call(name: &str) -> (r: Vec<u8>)
    requires
        is_ascii_text(name@),
    ensures
        r@ == selector_of(name@, Seq::empty()),
{
    let params: Vec<ParamType> = Vec::new();
    let selector = short_signature(name, params.as_slice());
    let tokens: Vec<Token> = Vec::new();
    let mut data: Vec<u8> = Vec::new();
    data.push(selector[0]);
    data.push(selector[1]);
    data.push(selector[2]);
    data.push(selector[3]);
    let mut args = abi_encode(tokens.as_slice());
    assert(args@ == Seq::<u8>::empty());
    data.append(&mut args);
    assert(data@ =~= selector_of(name@, Seq::empty()));
    data
}

/// The call data of `getAllGroups()`.
pub fn groups_query_data() -> (r: Vec<u8>)
    ensures
        r@ == selector_of("getAllGroups"@, Seq::empty()),
{
    proof {
        reveal_strlit("getAllGroups");
    }
    no_argument_call("getAllGroups")
}

/// The call data of `getAllPendingMemberships()`.
pub fn pending_memberships_query_data() -> (r: Vec<u8>)
    ensures
        r@ == selector_of("getAllPendingMemberships"@, Seq::empty()),
{
    proof {
        reveal_strlit("getAllPendingMemberships");
    }
    no_argument_call("getAllPendingMemberships")
}

/// The parameter types of `addGroupMember`.
pub open spec fn add_member_params() -> Seq<ParamType> {
    seq![ParamType::Uint(256), ParamType::Address]
}

/// The call data of `addGroupMember(group_id, member)`, `member` given as
/// hex text of either case (checksummed or not); an error where it cannot
/// be read as an address.
pub fn add_member_call_data(group_id: u64, member: &str) -> (r: Result<Vec<u8>, ReconcileError>)
    ensures
        forall|b: Seq<u8>|
            b.len() == 20 && #[trigger] is_hex_address_text(member@, b) ==> (r matches Ok(d) && d@
                == selector_of("addGroupMember"@, add_member_params()) + be_word(group_id as nat)
                + Seq::new(12, |i: int| 0u8) + b),
        r is Err ==> (r matches Err(ReconcileError::InvalidAddress(t)) && t@ == member@),
{
    let address = match parse_address(member) {
        Some(a) => a,
        None => {
            return Err(ReconcileError::InvalidAddress(String::from_str(member)));
        },
    };
    let params = vec![ParamType::Uint(256), ParamType::Address];
    proof {
        reveal_strlit("addGroupMember");
        assert(params@ == add_member_params());
    }
    let selector = short_signature("addGroupMember", params.as_slice());
    let id = U256([group_id, 0, 0, 0]);
    proof {
        let m = limb_base();
        assert(uint_value(id) == group_id as nat) by (nonlinear_arith)
            requires uint_value(id) == group_id as nat + m * (0 + m * (0 + m * 0));
    }
    let tokens = vec![Token::Uint(id), Token::Address(address)];
    let mut data: Vec<u8> = Vec::new();
    data.push(selector[0]);
    data.push(selector[1]);
    data.push(selector[2]);
    data.push(selector[3]);
    let mut args = abi_encode(tokens.as_slice());
    proof {
        let ts = tokens@;
        assert(ts.drop_last().drop_last() =~= Seq::<Token>::empty());
        assert(words_of(ts) == words_of(ts.drop_last()) + word_of(ts[1]));
        assert(words_of(ts.drop_last()) == words_of(ts.drop_last().drop_last()) + word_of(ts[0]));
        assert(params@ == add_member_params());
    }
    data.append(&mut args);
    proof {
        assert forall|b: Seq<u8>| b.len() == 20 && #[trigger] is_hex_address_text(member@, b) implies data@
            == selector_of("addGroupMember"@, add_member_params()) + be_word(group_id as nat)
            + Seq::new(12, |i: int| 0u8) + b by {
            assert(address.0@ == b);
            assert(data@ =~= selector_of("addGroupMember"@, add_member_params()) + be_word(
                group_id as nat,
            ) + Seq::new(12, |i: int| 0u8) + b);
        }
    }
    Ok(data)
}

// ---- records from library values ----------------------------------------

/// Whether `g` is in the form that decoding produces: addresses in display
/// form and the required amount as decimal digits of a 256-bit number.
pub open spec fn is_canonical_group(g: Group) -> bool {
    &&& forall|k: int| 0 <= k < g.members@.len() ==> is_some_address_text(#[trigger] g.members@[k]@)
    &&& is_some_address_text(g.criteria.token_address@)
    &&& is_canonical_dec_text(g.criteria.required_amount@)
    &&& crate::amount::is_dec_amount_text(g.criteria.required_amount@)
}

/// Whether `p` is in the form that decoding produces.
pub open spec fn is_canonical_pending(p: PendingMembership) -> bool {
    is_some_address_text(p.member@)
}

/// Whether two groups hold the same logical value: the same fields, the
/// required amount compared as a number.
pub open spec fn same_group(g1: Group, g2: Group) -> bool {
    &&& g1.group_id == g2.group_id
    &&& g1.name@ == g2.name@
    &&& g1.members@.len() == g2.members@.len()
    &&& forall|k: int| 0 <= k < g1.members@.len() ==> (#[trigger] g1.members@[k])@ == g2.members@[k]@
    &&& g1.criteria.chain_id == g2.criteria.chain_id
    &&& g1.criteria.token_address@ == g2.criteria.token_address@
    &&& dec_value(g1.criteria.required_amount@) == dec_value(g2.criteria.required_amount@)
    &&& g1.exists == g2.exists
}

fn address_token(s: &str) -> (r: Option<Token>)
    ensures
        is_some_address_text(s@) ==> (r matches Some(t) && t is Address && is_address_text(
            s@,
            address_bytes_of(t),
        )),
{
    match parse_address(s) {
        Some(a) => {
            proof {
                if is_some_address_text(s@) {
                    let b = choose|b: Seq<u8>| b.len() == 20 && #[trigger] is_address_text(s@, b);
                    lemma_display_is_hex_text(s@, b);
                    assert(a.0@ == b);
                }
            }
            Some(Token::Address(a))
        },
        None => {
            proof {
                if is_some_address_text(s@) {
                    let b = choose|b: Seq<u8>| b.len() == 20 && #[trigger] is_address_text(s@, b);
                    lemma_display_is_hex_text(s@, b);
                }
            }
            None
        },
    }
}

/// The wire record of a group, the inverse of `group_from_token`; an error
/// where a field cannot be written in the record's types.
pub fn group_to_token(g: &Group) -> (r: Result<Token, ReconcileError>)
    ensures
        is_canonical_group(*g) ==> (r matches Ok(t) && fits_group(t) && group_ids_fit(t)
            && is_group_of(*g, t)),
{
    let mut members: Vec<Token> = Vec::new();
    let mut k: usize = 0;
    while k < g.members.len()
        invariant
            k <= g.members@.len(),
            members@.len() == k,
            is_canonical_group(*g) ==> forall|j: int|
                0 <= j < k ==> (#[trigger] members@[j]) is Address && is_address_text(
                    g.members@[j]@,
                    address_bytes_of(members@[j]),
                ),
        decreases g.members.len() - k,
    {
        match address_token(g.members[k].as_str()) {
            Some(t) => members.push(t),
            None => {
                return Err(ReconcileError::InvalidAddress(g.members[k].clone()));
            },
        }
        k = k + 1;
    }
    let token = match address_token(g.criteria.token_address.as_str()) {
        Some(t) => t,
        None => {
            return Err(ReconcileError::InvalidAddress(g.criteria.token_address.clone()));
        },
    };
    let required = match crate::amount::parse_dec_amount(g.criteria.required_amount.as_str()) {
        Some(a) => a,
        None => {
            return Err(ReconcileError::InvalidAmount(g.criteria.required_amount.clone()));
        },
    };
    let id = U256([g.group_id, 0, 0, 0]);
    let chain = U256([g.criteria.chain_id, 0, 0, 0]);
    proof {
        let m = limb_base();
        assert(uint_value(id) == g.group_id as nat) by (nonlinear_arith)
            requires uint_value(id) == g.group_id as nat + m * (0 + m * (0 + m * 0));
        assert(uint_value(chain) == g.criteria.chain_id as nat) by (nonlinear_arith)
            requires uint_value(chain) == g.criteria.chain_id as nat + m * (0 + m * (0 + m * 0));
    }
    let criteria = Token::Tuple(vec![Token::Uint(chain), token, Token::Uint(U256(required.limbs))]);
    let t = Token::Tuple(
        vec![
            Token::Uint(id),
            Token::String(g.name.clone()),
            Token::Array(members),
            criteria,
            Token::Bool(g.exists),
        ],
    );
    Ok(t)
}

/// The wire record of a request, the inverse of `pending_from_token`.
pub fn pending_to_token(p: &PendingMembership) -> (r: Result<Token, ReconcileError>)
    ensures
        is_canonical_pending(*p) ==> (r matches Ok(t) && fits_pending(t) && pending_id_fits(t)
            && is_pending_of(*p, t)),
{
    let member = match address_token(p.member.as_str()) {
        Some(t) => t,
        None => {
            return Err(ReconcileError::InvalidAddress(p.member.clone()));
        },
    };
    let id = U256([p.group_id, 0, 0, 0]);
    proof {
        let m = limb_base();
        assert(uint_value(id) == p.group_id as nat) by (nonlinear_arith)
            requires uint_value(id) == p.group_id as nat + m * (0 + m * (0 + m * 0));
    }
    Ok(Token::Tuple(vec![Token::Uint(id), member]))
}

/// A decoded group record determines the group's logical value: any two
/// groups read from one record agree. With `group_to_token`, which yields a
/// record that describes the group it was given, decoding what was encoded
/// gives back the value it started from.
pub proof fn lemma_group_round_trip(g: Group, t: Token, decoded: Group)
    requires
        is_group_of(g, t),
        is_group_of(decoded, t),
    ensures
        same_group(g, decoded),
{
    let v = items_of(t);
    lemma_address_text_unique(
        g.criteria.token_address@,
        decoded.criteria.token_address@,
        address_bytes_of(items_of(v[3])[1]),
    );
    assert forall|k: int| 0 <= k < g.members@.len() implies (#[trigger] g.members@[k])@
        == decoded.members@[k]@ by {
        lemma_address_text_unique(
            g.members@[k]@,
            decoded.members@[k]@,
            address_bytes_of(items_of(v[2])[k]),
        );
    }
}

/// A decoded request record determines the request: any two requests read
/// from one record are equal in value.
pub proof fn lemma_pending_round_trip(p: PendingMembership, t: Token, decoded: PendingMembership)
    requires
        is_pending_of(p, t),
        is_pending_of(decoded, t),
    ensures
        p.group_id == decoded.group_id,
        p.member@ == decoded.member@,
{
    lemma_address_text_unique(p.member@, decoded.member@, address_bytes_of(items_of(t)[1]));
}

} // verus!
