use ethabi::ethereum_types::{H160, U256};
use ethabi::Token;
use rofl_groups::abi::{
    add_member_call_data, decode_groups, decode_pending_memberships, group_from_token,
    group_to_token, groups_query_data, pending_from_token, pending_memberships_query_data,
    pending_to_token,
};
use rofl_groups::amount::{amount_to_dec_string, parse_dec_amount, parse_hex_amount, Amount};
use rofl_groups::controller::{Action, Event, Stage, Tick};
use rofl_groups::eligibility::{
    balance_from_result, meets_required_amount, verdict, ChainEndpoint, VerifierConfig,
};
use rofl_groups::join::join_targets;
use rofl_groups::model::{Group, GroupCriteria, PendingMembership, ReconcileError};
use rofl_groups::text::{has_prefix, host_of, trim_start_matches, until_slash};

const MEMBER: &str = "0xaaaaaaaaaaaaaaaaaaaaaaaaaaaaaaaaaaaaaaaa";
const TOKEN: &str = "0x1111111111111111111111111111111111111111";
const CHECKED_A: &str = "0x5aAeb6053F3E94C9b9A09f33669435E7Ef1BeAed";
const CHECKED_B: &str = "0xfB6916095ca1df60bB79Ce92cE3Ea74c37c5d359";
const CHECKED_C: &str = "0xdbF03B407c01E7cD3CBea99509d93f8DDDC8C6FB";
const CHECKED_D: &str = "0xD1220A0cf47c7B9Be7A2E6BA89F429762e7b9aDb";

fn address(text: &str) -> H160 {
    <H160 as std::str::FromStr>::from_str(text).unwrap()
}

fn criteria(chain_id: u64, required: &str) -> GroupCriteria {
    GroupCriteria {
        chain_id,
        token_address: TOKEN.to_string(),
        required_amount: required.to_string(),
    }
}

fn group(group_id: u64, exists: bool) -> Group {
    Group {
        group_id,
        name: format!("group {}", group_id),
        members: vec![],
        criteria: criteria(1, "1000000000000000000"),
        exists,
    }
}

fn pending(group_id: u64, member: &str) -> PendingMembership {
    PendingMembership { group_id, member: member.to_string() }
}

/// Runs one tick against canned answers: the pending requests, the groups,
/// and the `result` field that every balance query gets. Returns the
/// submitted (group, member) pairs, the number of verifications, and the
/// final action.
fn run_tick(
    pending_answer: Result<Vec<PendingMembership>, ReconcileError>,
    groups_answer: Result<Vec<Group>, ReconcileError>,
    balance: Option<&str>,
) -> (Vec<(u64, String)>, usize, Action) {
    let mut tick = Tick::new();
    let mut action = tick.start();
    let mut pending_answer = Some(pending_answer);
    let mut groups_answer = Some(groups_answer);
    let mut submitted = vec![];
    let mut verifications = 0;
    loop {
        let event = match &action {
            Action::ReadPending => Event::PendingRead(pending_answer.take().unwrap()),
            Action::ReadGroups => Event::GroupsRead(groups_answer.take().unwrap()),
            Action::Verify(target) => {
                verifications += 1;
                Event::Verdict(verdict(balance, &target.criteria))
            }
            Action::Submit(target) => {
                submitted.push((target.group_id, target.member.clone()));
                Event::Submitted(Ok(()))
            }
            Action::Finish(_) | Action::Ignore => break,
        };
        action = tick.handle(event);
    }
    assert_eq!(tick.stage, Stage::Finished);
    (submitted, verifications, action)
}

#[test]
fn eligible_member_is_submitted_once() {
    let (submitted, verifications, action) = run_tick(
        Ok(vec![pending(1, MEMBER)]),
        Ok(vec![group(1, true)]),
        Some("0x0de0b6b3a7640000"),
    );
    assert_eq!(submitted, vec![(1, MEMBER.to_string())]);
    assert_eq!(verifications, 1);
    assert!(matches!(action, Action::Finish(Ok(()))));
}

#[test]
fn zero_balance_is_not_submitted() {
    let (submitted, verifications, action) =
        run_tick(Ok(vec![pending(1, MEMBER)]), Ok(vec![group(1, true)]), Some("0x0"));
    assert!(submitted.is_empty());
    assert_eq!(verifications, 1);
    assert!(matches!(action, Action::Finish(Ok(()))));
}

#[test]
fn failed_group_read_ends_tick_before_any_verification() {
    let (submitted, verifications, action) = run_tick(
        Ok(vec![pending(1, MEMBER)]),
        Err(ReconcileError::Network("unreachable".to_string())),
        Some("0x0de0b6b3a7640000"),
    );
    assert!(submitted.is_empty());
    assert_eq!(verifications, 0);
    assert!(matches!(action, Action::Finish(Err(ReconcileError::Network(_)))));
}

#[test]
fn failed_pending_read_ends_tick() {
    let mut tick = Tick::new();
    assert!(matches!(tick.start(), Action::ReadPending));
    let a = tick.handle(Event::PendingRead(Err(ReconcileError::Network("down".to_string()))));
    assert!(matches!(a, Action::Finish(Err(ReconcileError::Network(_)))));
    assert!(matches!(tick.handle(Event::GroupsRead(Ok(vec![]))), Action::Ignore));
}

#[test]
fn deleted_groups_and_other_ids_are_never_targets() {
    let pend = vec![pending(1, MEMBER), pending(2, TOKEN), pending(3, MEMBER)];
    let groups = vec![group(1, false), group(2, true), group(4, true)];
    let targets = join_targets(&pend, &groups);
    assert_eq!(targets.len(), 1);
    assert_eq!(targets[0].group_id, 2);
    assert_eq!(targets[0].member, TOKEN);
    let (submitted, verifications, _) =
        run_tick(Ok(pend), Ok(groups), Some("0x0de0b6b3a7640000"));
    assert_eq!(verifications, 1);
    assert_eq!(submitted, vec![(2, TOKEN.to_string())]);
}

#[test]
fn duplicate_groups_and_requests_give_one_attempt_each() {
    let pend = vec![pending(1, MEMBER), pending(1, MEMBER)];
    let groups = vec![group(1, true), group(1, true)];
    let targets = join_targets(&pend, &groups);
    assert_eq!(targets.len(), 4);
    let (submitted, _, _) = run_tick(Ok(pend), Ok(groups), Some("0xffff0de0b6b3a7640000"));
    assert_eq!(submitted.len(), 4);
}

#[test]
fn empty_snapshots_finish_at_once() {
    let (submitted, verifications, action) = run_tick(Ok(vec![]), Ok(vec![]), None);
    assert!(submitted.is_empty());
    assert_eq!(verifications, 0);
    assert!(matches!(action, Action::Finish(Ok(()))));
}

#[test]
fn verification_error_ends_tick() {
    let mut g = group(1, true);
    g.criteria.required_amount = "12x".to_string();
    let (submitted, verifications, action) =
        run_tick(Ok(vec![pending(1, MEMBER), pending(1, TOKEN)]), Ok(vec![g]), Some("0x10"));
    assert!(submitted.is_empty());
    assert_eq!(verifications, 1);
    assert!(matches!(action, Action::Finish(Err(ReconcileError::InvalidAmount(_)))));
}

#[test]
fn failed_submission_does_not_stop_the_tick() {
    let mut tick = Tick::new();
    tick.start();
    tick.handle(Event::PendingRead(Ok(vec![pending(1, MEMBER), pending(1, TOKEN)])));
    let a = tick.handle(Event::GroupsRead(Ok(vec![group(1, true)])));
    assert!(matches!(a, Action::Verify(_)));
    assert!(matches!(tick.handle(Event::Verdict(Ok(true))), Action::Submit(_)));
    let a = tick.handle(Event::Submitted(Err(ReconcileError::Submission("rejected".to_string()))));
    match a {
        Action::Verify(t) => assert_eq!(t.member, TOKEN),
        _ => panic!("expected the second target"),
    }
}

#[test]
fn threshold_is_inclusive() {
    let c = criteria(1, "1000000000000000000");
    assert_eq!(verdict(Some("0x0de0b6b3a7640000"), &c).unwrap(), true);
    assert_eq!(verdict(Some("0x0de0b6b3a763ffff"), &c).unwrap(), false);
    assert_eq!(verdict(Some("0de0b6b3a7640001"), &c).unwrap(), true);
}

#[test]
fn missing_result_is_zero_balance() {
    assert_eq!(verdict(None, &criteria(1, "0")).unwrap(), true);
    assert_eq!(verdict(None, &criteria(1, "1")).unwrap(), false);
    assert_eq!(balance_from_result(None).unwrap(), Amount::zero());
}

#[test]
fn malformed_balance_and_amount_are_errors() {
    assert!(matches!(
        verdict(Some("0xzz"), &criteria(1, "1")),
        Err(ReconcileError::InvalidBalance(t)) if t == "0xzz"
    ));
    assert!(matches!(
        verdict(Some("0x1"), &criteria(1, "-1")),
        Err(ReconcileError::InvalidAmount(t)) if t == "-1"
    ));
    let b = parse_hex_amount("0x5").unwrap();
    assert!(matches!(meets_required_amount(&b, "5.0"), Err(ReconcileError::InvalidAmount(_))));
    assert_eq!(meets_required_amount(&b, "5").unwrap(), true);
    assert_eq!(meets_required_amount(&b, "6").unwrap(), false);
}

#[test]
fn unsupported_chain_gives_no_query() {
    let config = VerifierConfig::mainnet();
    let r = config.balance_query(MEMBER, &criteria(999, "1"));
    assert!(matches!(r, Err(ReconcileError::UnsupportedChain(999))));
}

#[test]
fn configured_chain_is_data() {
    let config = VerifierConfig {
        endpoints: vec![
            ChainEndpoint { chain_id: 5, rpc_url: "http://node.example:8545/rpc".to_string() },
            ChainEndpoint { chain_id: 5, rpc_url: "http://second.example".to_string() },
        ],
    };
    let q = config.balance_query(MEMBER, &criteria(5, "1")).unwrap();
    assert_eq!(q.rpc_url, "http://node.example:8545/rpc");
    assert_eq!(q.host, "node.example:8545");
    assert!(matches!(config.endpoint(1), None));
}

#[test]
fn balance_query_body() {
    let config = VerifierConfig::mainnet();
    let q = config.balance_query(MEMBER, &criteria(1, "1")).unwrap();
    assert_eq!(q.rpc_url, "https://eth.llamarpc.com");
    assert_eq!(q.host, "eth.llamarpc.com");
    let expected = format!(
        "{{\"id\":1,\"jsonrpc\":\"2.0\",\"method\":\"eth_call\",\"params\":[{{\"data\":\"0x70a08231000000000000000000000000{}\",\"to\":\"{}\"}},\"latest\"]}}",
        &MEMBER[2..],
        TOKEN
    );
    assert_eq!(q.body, expected);
    let parsed: serde_json::Value = serde_json::from_str(&q.body).unwrap();
    assert_eq!(parsed["method"], "eth_call");
}

#[test]
fn text_helpers() {
    assert!(has_prefix("0x0x12", "0x"));
    assert!(!has_prefix("0", "0x"));
    assert_eq!(trim_start_matches("0x0x12", "0x"), "12");
    assert_eq!(trim_start_matches("12", ""), "12");
    assert_eq!(until_slash("a.b/c/d"), "a.b");
    assert_eq!(until_slash("ab"), "ab");
    assert_eq!(host_of("https://eth.llamarpc.com/v1/key"), "eth.llamarpc.com");
    assert_eq!(host_of("http://localhost:8545"), "localhost:8545");
}

#[test]
fn amounts_beyond_64_bits() {
    let big = "115792089237316195423570985008687907853269984665640564039457584007913129639935";
    let a = parse_dec_amount(big).unwrap();
    assert_eq!(a.limbs, [u64::MAX; 4]);
    assert_eq!(amount_to_dec_string(&a), big);
    let over = "115792089237316195423570985008687907853269984665640564039457584007913129639936";
    assert!(parse_dec_amount(over).is_none());
    assert!(parse_dec_amount("").is_none());
    assert_eq!(amount_to_dec_string(&Amount::zero()), "0");
    let x = parse_dec_amount("18446744073709551616").unwrap();
    assert_eq!(x.limbs, [0, 1, 0, 0]);
    assert!(x.at_least(&parse_dec_amount("18446744073709551615").unwrap()));
    assert!(!parse_dec_amount("18446744073709551615").unwrap().at_least(&x));
    assert_eq!(parse_hex_amount("0x10000000000000000").unwrap(), x);
    assert!(parse_hex_amount(&format!("0x1{}", "0".repeat(64))).is_none());
    assert!(parse_hex_amount("0xg").is_none());
    assert_eq!(parse_hex_amount("0x").unwrap(), Amount::zero());
}

fn group_token(id: u64, chain: u64, exists: bool) -> Token {
    Token::Tuple(vec![
        Token::Uint(U256::from(id)),
        Token::String("builders".to_string()),
        Token::Array(vec![Token::Address(address(CHECKED_A)), Token::Address(address(CHECKED_B))]),
        Token::Tuple(vec![
            Token::Uint(U256::from(chain)),
            Token::Address(address(CHECKED_C)),
            Token::Uint(U256::from_dec_str("1000000000000000000000000").unwrap()),
        ]),
        Token::Bool(exists),
    ])
}

#[test]
fn groups_round_trip_through_the_wire() {
    let data = ethabi::encode(&[Token::Array(vec![group_token(7, 1, true), group_token(8, 5, false)])]);
    let groups = decode_groups(&data).unwrap();
    assert_eq!(groups.len(), 2);
    let g = &groups[0];
    assert_eq!(g.group_id, 7);
    assert_eq!(g.name, "builders");
    assert_eq!(g.members, vec![CHECKED_A.to_string(), CHECKED_B.to_string()]);
    assert_eq!(g.criteria.chain_id, 1);
    assert_eq!(g.criteria.token_address, CHECKED_C);
    assert_eq!(g.criteria.required_amount, "1000000000000000000000000");
    assert!(g.exists);
    assert_eq!(groups[1].group_id, 8);
    assert_eq!(groups[1].criteria.chain_id, 5);
    assert!(!groups[1].exists);
}

#[test]
fn pending_round_trip_through_the_wire() {
    let record =
        Token::Tuple(vec![Token::Uint(U256::from(3u64)), Token::Address(address(CHECKED_D))]);
    let data = ethabi::encode(&[Token::Array(vec![record.clone()])]);
    let pend = decode_pending_memberships(&data).unwrap();
    assert_eq!(pend.len(), 1);
    assert_eq!(pend[0].group_id, 3);
    assert_eq!(pend[0].member, CHECKED_D);
    let p = pending_from_token(&record).unwrap();
    assert_eq!(p.member, CHECKED_D);
    let lower = Token::Tuple(vec![Token::Uint(U256::from(3u64)), Token::Address(H160([0xaa; 20]))]);
    let p = pending_from_token(&lower).unwrap();
    assert_eq!(p.member.to_lowercase(), MEMBER);
}

#[test]
fn malformed_answers_are_decode_errors() {
    assert!(matches!(decode_groups(&[1, 2, 3]), Err(ReconcileError::Decode(_))));
    assert!(matches!(decode_pending_memberships(&[0; 5]), Err(ReconcileError::Decode(_))));
    let huge = Token::Tuple(vec![Token::Uint(U256::MAX), Token::Address(H160([0; 20]))]);
    assert!(matches!(pending_from_token(&huge), Err(ReconcileError::Decode(_))));
    let short = Token::Tuple(vec![Token::Uint(U256::from(1u64))]);
    assert!(matches!(pending_from_token(&short), Err(ReconcileError::Decode(_))));
    let mut wrong = group_token(1, 1, true);
    if let Token::Tuple(v) = &mut wrong {
        v[4] = Token::Uint(U256::from(1u64));
    }
    assert!(matches!(group_from_token(&wrong), Err(ReconcileError::Decode(_))));
    let big_chain = Token::Tuple(vec![
        Token::Uint(U256::from(1u64)),
        Token::String(String::new()),
        Token::Array(vec![]),
        Token::Tuple(vec![
            Token::Uint(U256::from(u64::MAX) + U256::from(1u64)),
            Token::Address(H160([0; 20])),
            Token::Uint(U256::zero()),
        ]),
        Token::Bool(true),
    ]);
    assert!(matches!(group_from_token(&big_chain), Err(ReconcileError::Decode(_))));
}

#[test]
fn call_data_matches_the_abi() {
    let expected_groups = ethabi::short_signature("getAllGroups", &[]).to_vec();
    assert_eq!(groups_query_data(), expected_groups);
    let expected_pending = ethabi::short_signature("getAllPendingMemberships", &[]).to_vec();
    assert_eq!(pending_memberships_query_data(), expected_pending);
    assert_ne!(groups_query_data(), pending_memberships_query_data());

    let data = add_member_call_data(258, MEMBER).unwrap();
    assert_eq!(data.len(), 68);
    assert_eq!(
        &data[..4],
        &ethabi::short_signature(
            "addGroupMember",
            &[ethabi::ParamType::Uint(256), ethabi::ParamType::Address]
        )
    );
    let mut word = [0u8; 32];
    word[30] = 1;
    word[31] = 2;
    assert_eq!(&data[4..36], &word);
    assert_eq!(&data[36..48], &[0u8; 12]);
    assert_eq!(&data[48..68], &[0xaa; 20]);
    assert!(matches!(
        add_member_call_data(1, "0x12"),
        Err(ReconcileError::InvalidAddress(t)) if t == "0x12"
    ));
}

#[test]
fn library_values_round_trip_through_the_wire() {
    let g = Group {
        group_id: 42,
        name: "holders".to_string(),
        members: vec![CHECKED_A.to_string(), CHECKED_B.to_string(), CHECKED_A.to_string()],
        criteria: GroupCriteria {
            chain_id: 1,
            token_address: CHECKED_C.to_string(),
            required_amount: "123456789012345678901234567890".to_string(),
        },
        exists: true,
    };
    let t = group_to_token(&g).unwrap();
    let back = decode_groups(&ethabi::encode(&[Token::Array(vec![t])])).unwrap();
    assert_eq!(back.len(), 1);
    assert_eq!(back[0].group_id, g.group_id);
    assert_eq!(back[0].name, g.name);
    assert_eq!(back[0].members, g.members);
    assert_eq!(back[0].criteria.chain_id, g.criteria.chain_id);
    assert_eq!(back[0].criteria.token_address, g.criteria.token_address);
    assert_eq!(back[0].criteria.required_amount, g.criteria.required_amount);
    assert_eq!(back[0].exists, g.exists);

    let p = pending(9, CHECKED_D);
    let t = pending_to_token(&p).unwrap();
    let back = decode_pending_memberships(&ethabi::encode(&[Token::Array(vec![t])])).unwrap();
    assert_eq!(back[0].group_id, 9);
    assert_eq!(back[0].member, CHECKED_D);
}

#[test]
fn records_need_readable_fields() {
    let mut g = group(1, true);
    g.members = vec!["not an address".to_string()];
    assert!(matches!(group_to_token(&g), Err(ReconcileError::InvalidAddress(_))));
    let mut g = group(1, true);
    g.criteria.required_amount = "ten".to_string();
    assert!(matches!(group_to_token(&g), Err(ReconcileError::InvalidAmount(_))));
    assert!(matches!(
        pending_to_token(&pending(1, "0x1234")),
        Err(ReconcileError::InvalidAddress(_))
    ));
}

#[test]
fn empty_required_amount_is_invalid() {
    assert!(matches!(
        verdict(None, &criteria(1, "")),
        Err(ReconcileError::InvalidAmount(t)) if t.is_empty()
    ));
    let b = parse_hex_amount("0x5").unwrap();
    assert!(matches!(meets_required_amount(&b, ""), Err(ReconcileError::InvalidAmount(_))));
}

#[test]
fn decode_errors_carry_the_decoder_description() {
    let data = [0u8; 5];
    let expected = ethabi::decode(
        &[ethabi::ParamType::Array(Box::new(ethabi::ParamType::Tuple(vec![
            ethabi::ParamType::Uint(256),
            ethabi::ParamType::Address,
        ])))],
        &data,
    )
    .unwrap_err()
    .to_string();
    match decode_pending_memberships(&data) {
        Err(ReconcileError::Decode(text)) => assert_eq!(text, expected),
        other => panic!("expected a decode error, got {:?}", other),
    }
    assert!(matches!(decode_groups(&data), Err(ReconcileError::Decode(t)) if !t.is_empty()));
}

#[test]
fn eligible_upper_case_member_gets_its_call_data() {
    let member = "0xAAAAAAAAAAAAAAAAAAAAAAAAAAAAAAAAAAAAAAAA";
    let (submitted, _, _) = run_tick(
        Ok(vec![pending(1, member)]),
        Ok(vec![group(1, true)]),
        Some("0x0de0b6b3a7640000"),
    );
    assert_eq!(submitted, vec![(1, member.to_string())]);
    let data = add_member_call_data(1, member).unwrap();
    let expected = [
        ethabi::short_signature(
            "addGroupMember",
            &[ethabi::ParamType::Uint(256), ethabi::ParamType::Address],
        )
        .to_vec(),
        ethabi::encode(&[Token::Uint(U256::from(1u64)), Token::Address(H160([0xaa; 20]))]),
    ]
    .concat();
    assert_eq!(data, expected);
    assert_eq!(add_member_call_data(1, "aaaaaaaaaaaaaaaaaaaaaaaaaaaaaaaaaaaaaaaa").unwrap(), expected);
}

#[test]
fn largest_required_amount_decodes_to_its_exact_text() {
    let mut record = group_token(1, 1, true);
    if let Token::Tuple(v) = &mut record {
        v[3] = Token::Tuple(vec![
            Token::Uint(U256::from(1u64)),
            Token::Address(address(CHECKED_C)),
            Token::Uint(U256::MAX),
        ]);
    }
    let g = group_from_token(&record).unwrap();
    assert_eq!(
        g.criteria.required_amount,
        "115792089237316195423570985008687907853269984665640564039457584007913129639935"
    );
}

#[test]
fn balance_query_escapes_json_strings() {
    let config = VerifierConfig::mainnet();
    let mut c = criteria(1, "1");
    c.token_address = "a\"b\\c\n\u{1}".to_string();
    let q = config.balance_query(MEMBER, &c).unwrap();
    assert!(q.body.contains("\"to\":\"a\\\"b\\\\c\\n\\u0001\""));
}
