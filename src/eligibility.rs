use vstd::prelude::*;
use crate::amount::{
    Amount, dec_value, hex_value, is_dec_amount_text, is_hex_amount_text, parse_dec_amount,
    parse_hex_amount, strip_hex_prefix,
};
use crate::address::lower_digits;
use crate::model::{GroupCriteria, ReconcileError};
use crate::text::{host_of, is_before_slash, trim_prefixes, trim_start_matches, url_host};

verus! {

/// The JSON-RPC endpoint that answers balance queries for one chain.
#[derive(Debug)]
pub struct ChainEndpoint {
    pub chain_id: u64,
    pub rpc_url: String,
}

/// Which chains can be checked, and where. A chain is added as data.
#[derive(Debug)]
pub struct VerifierConfig {
    pub endpoints: Vec<ChainEndpoint>,
}

/// A balance query ready to be sent: where, and with what body.
#[derive(Debug)]
pub struct BalanceQuery {
    pub rpc_url: String,
    /// The value of the `Host` header.
    pub host: String,
    /// The JSON-RPC request body.
    pub body: String,
}

/// Whether some endpoint serves `chain_id`.
pub open spec fn has_endpoint(endpoints: Seq<ChainEndpoint>, chain_id: u64) -> bool {
    exists|i: int| 0 <= i < endpoints.len() && (#[trigger] endpoints[i]).chain_id == chain_id
}

/// Whether `i` is the first endpoint of `chain_id`.
pub open spec fn is_first_endpoint(endpoints: Seq<ChainEndpoint>, chain_id: u64, i: int) -> bool {
    &&& 0 <= i < endpoints.len()
    &&& endpoints[i].chain_id == chain_id
    &&& forall|j: int| 0 <= j < i ==> (#[trigger] endpoints[j]).chain_id != chain_id
}

/// The call data of `balanceOf(member)` in the hex text form of JSON-RPC:
/// the selector, the address's twelve bytes of left padding, and the
/// address's digits.
pub open spec fn balance_call_data(member: Seq<char>) -> Seq<char> {
    "0x70a08231000000000000000000000000"@ + trim_prefixes(member, "0x"@)
}

/// How JSON writes one character of a string: quote and backslash behind
/// a backslash, the five usual control characters by letter, the other
/// control characters as `\u00` and two lowercase hex digits, anything else
/// as itself.
pub open spec fn json_escape_char(c: char) -> Seq<char> {
    if c == '"' {
        seq!['\\', '"']
    } else if c == '\\' {
        seq!['\\', '\\']
    } else if c == '\x08' {
        seq!['\\', 'b']
    } else if c == '\t' {
        seq!['\\', 't']
    } else if c == '\n' {
        seq!['\\', 'n']
    } else if c == '\x0c' {
        seq!['\\', 'f']
    } else if c == '\r' {
        seq!['\\', 'r']
    } else if (c as u32) < 0x20 {
        seq![
            '\\',
            'u',
            '0',
            '0',
            lower_digits()[((c as u32) / 16) as int],
            lower_digits()[((c as u32) % 16) as int],
        ]
    } else {
        seq![c]
    }
}

/// The characters of `s`, each escaped for a JSON string.
pub open spec fn json_escaped(s: Seq<char>) -> Seq<char>
    decreases s.len(),
{
    if s.len() == 0 {
        Seq::empty()
    } else {
        json_escaped(s.drop_last()) + json_escape_char(s.last())
    }
}

/// A string value as compact JSON text: quoted, with its characters escaped.
pub open spec fn json_string_text(s: Seq<char>) -> Seq<char> {
    seq!['"'] + json_escaped(s) + seq!['"']
}

/// The body of an `eth_call` of `data` on `to` at the latest block, keys in
/// the order serde_json writes them.
pub open spec fn eth_call_body(to: Seq<char>, data: Seq<char>) -> Seq<char> {
    "{\"id\":1,\"jsonrpc\":\"2.0\",\"method\":\"eth_call\",\"params\":[{\"data\":"@
        + json_string_text(data) + ",\"to\":"@ + json_string_text(to) + "},\"latest\"]}"@
}

/// Relies on serde_json's `Value::String` and its compact `Display`
/// (`format_escaped_str`): the string quoted, with the escapes of its
/// `ESCAPE` table.
#[verifier::external_body]
fn json_string(s: &str) -> (r: String)
    ensures
        r@ == json_string_text(s@),
{
    serde_json::Value::String(s.to_string()).to_string()
}

impl VerifierConfig {
    /// Ethereum mainnet only.
    pub fn mainnet() -> (r: VerifierConfig)
        ensures
            r.endpoints@.len() == 1,
            r.endpoints@[0].chain_id == 1,
            r.endpoints@[0].rpc_url@ == "https://eth.llamarpc.com"@,
    {
        let mut endpoints: Vec<ChainEndpoint> = Vec::new();
        endpoints.push(
            ChainEndpoint { chain_id: 1, rpc_url: String::from_str("https://eth.llamarpc.com") },
        );
        VerifierConfig { endpoints }
    }

    /// The RPC URL configured for `chain_id`, the first if several are.
    pub fn endpoint(&self, chain_id: u64) -> (r: Option<&String>)
        ensures
            r.is_none() == !has_endpoint(self.endpoints@, chain_id),
            r matches Some(u) ==> exists|i: int|
                is_first_endpoint(self.endpoints@, chain_id, i) && *u == self.endpoints@[i].rpc_url,
    {
        let mut i: usize = 0;
        while i < self.endpoints.len()
            invariant
                i <= self.endpoints@.len(),
                forall|j: int| 0 <= j < i ==> (#[trigger] self.endpoints@[j]).chain_id != chain_id,
            decreases self.endpoints.len() - i,
        {
            if self.endpoints[i].chain_id == chain_id {
                assert(is_first_endpoint(self.endpoints@, chain_id, i as int));
                return Some(&self.endpoints[i].rpc_url);
            }
            i = i + 1;
        }
        None
    }

    /// The query that asks the chain of `criteria` for the balance of
    /// `member` in the token of `criteria`. A chain with no endpoint is an
    /// error, and then there is nothing to send.
    pub fn balance_query(&self, member: &str, criteria: &GroupCriteria) -> (r: Result<
        BalanceQuery,
        ReconcileError,
    >)
        ensures
            r is Err <==> !has_endpoint(self.endpoints@, criteria.chain_id),
            r matches Err(e) ==> e == ReconcileError::UnsupportedChain(criteria.chain_id),
            r matches Ok(q) ==> {
                &&& exists|i: int|
                    is_first_endpoint(self.endpoints@, criteria.chain_id, i) && q.rpc_url
                        == self.endpoints@[i].rpc_url
                &&& is_before_slash(url_host(q.rpc_url@), q.host@)
                &&& q.body@ == eth_call_body(
                    criteria.token_address@,
                    balance_call_data(member@),
                )
            },
    {
        let url = match self.endpoint(criteria.chain_id) {
            Some(u) => u,
            None => {
                return Err(ReconcileError::UnsupportedChain(criteria.chain_id));
            },
        };
        let mut data = String::from_str("0x70a08231000000000000000000000000");
        data.append(trim_start_matches(member, "0x"));
        let mut body = String::from_str(
            "{\"id\":1,\"jsonrpc\":\"2.0\",\"method\":\"eth_call\",\"params\":[{\"data\":",
        );
        body.append(json_string(data.as_str()).as_str());
        body.append(",\"to\":");
        body.append(json_string(criteria.token_address.as_str()).as_str());
        body.append("},\"latest\"]}");
        Ok(BalanceQuery { rpc_url: url.clone(), host: host_of(url.as_str()), body })
    }
}

/// The balance that an `eth_call` answered: its `result` field, read as hex;
/// zero where the answer has no such field.
pub fn balance_from_result(result: Option<&str>) -> (r: Result<Amount, ReconcileError>)
    ensures
        result is None ==> (r matches Ok(b) && b.value() == 0),
        result matches Some(s) ==> (r is Ok <==> is_hex_amount_text(s@)),
        result matches Some(s) ==> (r matches Ok(b) ==> b.value() == hex_value(
            strip_hex_prefix(s@),
        )),
        r is Err ==> (result matches Some(s) && r matches Err(ReconcileError::InvalidBalance(t))
            && t@ == s@),
{
    match result {
        None => Ok(Amount::zero()),
        Some(s) => match parse_hex_amount(s) {
            Some(b) => Ok(b),
            None => Err(ReconcileError::InvalidBalance(String::from_str(s))),
        },
    }
}

/// The eligibility rule: a balance qualifies when it reaches the required
/// amount.
pub open spec fn meets_requirement(balance: nat, required: nat) -> bool {
    balance >= required
}

/// The threshold is inclusive: a balance equal to the requirement qualifies,
/// one unit less does not.
pub proof fn lemma_threshold_inclusive(required: nat)
    ensures
        meets_requirement(required, required),
        required > 0 ==> !meets_requirement((required - 1) as nat, required),
{
}

/// Whether `balance` meets `required_amount`, given as decimal digits; an
/// error where those digits do not spell a number below 2^256.
pub fn meets_required_amount(balance: &Amount, required_amount: &str) -> (r: Result<
    bool,
    ReconcileError,
>)
    ensures
        r is Ok <==> is_dec_amount_text(required_amount@),
        r matches Ok(b) ==> b == meets_requirement(balance.value(), dec_value(required_amount@)),
        r is Err ==> (r matches Err(ReconcileError::InvalidAmount(t)) && t@ == required_amount@),
{
    match parse_dec_amount(required_amount) {
        Some(required) => Ok(balance.at_least(&required)),
        None => Err(ReconcileError::InvalidAmount(String::from_str(required_amount))),
    }
}

/// The outcome of the eligibility rule on a balance and a required amount
/// given as text: the verdict, or `None` where the text is not the decimal
/// text of a 256-bit number. It depends on these two values and nothing else.
pub open spec fn eligibility_outcome(balance: nat, required_amount: Seq<char>) -> Option<bool> {
    if is_dec_amount_text(required_amount) {
        Some(meets_requirement(balance, dec_value(required_amount)))
    } else {
        None
    }
}

/// The verdict on a member, from the `result` field of the balance answer
/// (`None` where it had none) and the group's criteria: the balance is read
/// first, then the required amount, and the first that is malformed is the
/// error. Once the balance is read, the result is fixed by its value and
/// the required amount alone.
pub fn verdict(result: Option<&str>, criteria: &GroupCriteria) -> (r: Result<
    bool,
    ReconcileError,
>)
    ensures
        result matches Some(s) ==> (!is_hex_amount_text(s@) ==> (r matches Err(
            ReconcileError::InvalidBalance(t),
        ) && t@ == s@)),
        ({
            let balance_ok = match result {
                None => true,
                Some(s) => is_hex_amount_text(s@),
            };
            let balance = match result {
                None => 0,
                Some(s) => hex_value(strip_hex_prefix(s@)),
            };
            balance_ok ==> match eligibility_outcome(balance, criteria.required_amount@) {
                Some(b) => r == Ok::<bool, ReconcileError>(b),
                None => r matches Err(ReconcileError::InvalidAmount(t)) && t@
                    == criteria.required_amount@,
            }
        }),
{
    let balance = balance_from_result(result)?;
    meets_required_amount(&balance, criteria.required_amount.as_str())
}

} // verus!
