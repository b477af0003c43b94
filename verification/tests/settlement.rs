use near_non_transferable_token::amounts::ValueClass;
use near_non_transferable_token::error::TokenError;
use near_non_transferable_token::events::{Event, EventKind};
use near_non_transferable_token::ledger::Withdrawal;
use near_non_transferable_token::flows::{
    check_context, get_unused_amount, get_used_amount, used_amount, FungibleTokenResolver,
    FungibleTokenSender,
};
use near_non_transferable_token::payload::decode_amount;
use near_non_transferable_token::settlement::{
    CallContext, ContinuationToken, Dispatch, FlowKind, RemoteCall, RemoteOutcome, SettledAmount,
    Settlement, GAS_FOR_FT_CALL, GAS_FOR_RESOLVE,
};
use near_non_transferable_token::token::{FungibleToken, FungibleTokenCore};

const TGAS: u64 = 1_000_000_000_000;

fn t(text: &str) -> String {
    text.to_string()
}

fn caller(name: &str) -> CallContext {
    CallContext { predecessor_account_id: t(name), attached_deposit: 1, prepaid_gas: 100 * TGAS }
}

fn success(text: &str) -> RemoteOutcome {
    RemoteOutcome::Success(text.as_bytes().to_vec())
}

fn alice_with_100() -> FungibleToken {
    let mut token = FungibleToken::new();
    token.internal_register_account(&t("alice")).unwrap();
    token.internal_deposit(&t("alice"), 100, &t("a"), ValueClass::Primary).unwrap();
    token
}

fn available(token: &FungibleToken) -> u128 {
    token.ft_balance_of(&t("alice"), &Some(t("a")), &None)
}

fn committed(token: &FungibleToken) -> u128 {
    token.ft_deposit_balance_of(&t("alice"), &Some(t("b")), &None)
}

fn deposit_40(token: &mut FungibleToken) -> ContinuationToken {
    token
        .ft_deposit_call(&caller("alice"), &t("b"), &t("a"), &Some(ValueClass::Primary), 40, t("hello"))
        .unwrap()
        .call
        .token
}

#[test]
fn gas_constants() {
    assert_eq!(GAS_FOR_RESOLVE, 5 * TGAS);
    assert_eq!(GAS_FOR_FT_CALL, 30 * TGAS);
}

#[test]
fn used_amount_is_what_is_left_of_the_amount() {
    assert_eq!(used_amount(40, Some(15)), 25);
    assert_eq!(used_amount(40, Some(0)), 40);
    assert_eq!(used_amount(40, Some(40)), 0);
}

#[test]
fn used_amount_is_nothing_where_the_report_is_out_of_range_or_missing() {
    assert_eq!(used_amount(40, Some(41)), 0);
    assert_eq!(used_amount(40, Some(u128::MAX)), 0);
    assert_eq!(used_amount(40, None), 0);
    assert_eq!(used_amount(0, Some(0)), 0);
}

#[test]
fn unused_amount_is_decoded_from_a_json_string() {
    assert_eq!(get_unused_amount(&success("\"15\"")), Ok(Some(15)));
    assert_eq!(get_unused_amount(&success("\"0\"")), Ok(Some(0)));
    assert_eq!(
        get_unused_amount(&success("\"340282366920938463463374607431768211455\"")),
        Ok(Some(u128::MAX))
    );
    assert_eq!(get_unused_amount(&success(" \"7\" ")), Ok(Some(7)));
}

#[test]
fn unused_amount_of_an_undecodable_payload_is_none() {
    assert_eq!(get_unused_amount(&success("15")), Ok(None));
    assert_eq!(get_unused_amount(&success("")), Ok(None));
    assert_eq!(get_unused_amount(&success("\"-1\"")), Ok(None));
    assert_eq!(get_unused_amount(&success("\"340282366920938463463374607431768211456\"")), Ok(None));
    assert_eq!(get_unused_amount(&success("\"15\" x")), Ok(None));
    assert_eq!(get_unused_amount(&RemoteOutcome::Success(vec![0xff, 0xfe])), Ok(None));
}

#[test]
fn payload_decodes_to_the_amount_it_spells() {
    assert_eq!(decode_amount(b"\"25\""), Some(25));
    assert_eq!(decode_amount(b"\"000\""), Some(0));
    assert_eq!(decode_amount(b"\"\\u0031\\u0032\""), Some(12));
    assert_eq!(decode_amount(b"25"), None);
    assert_eq!(decode_amount(b"\"\""), None);
    assert_eq!(decode_amount(b"\"2 5\""), None);
    assert_eq!(decode_amount(b"null"), None);
    assert_eq!(decode_amount(b"[\"25\"]"), None);
}

#[test]
fn unused_amount_of_a_failed_call_is_none() {
    assert_eq!(get_unused_amount(&RemoteOutcome::Failure), Ok(None));
}

#[test]
fn unresolved_call_is_a_protocol_violation() {
    assert_eq!(get_unused_amount(&RemoteOutcome::NotYetResolved), Err(TokenError::ProtocolViolation));
    assert_eq!(get_used_amount(40, &RemoteOutcome::NotYetResolved), Err(TokenError::ProtocolViolation));
}

#[test]
fn used_amount_from_the_outcome() {
    assert_eq!(get_used_amount(40, &success("\"15\"")), Ok(25));
    assert_eq!(get_used_amount(40, &success("\"41\"")), Ok(0));
    assert_eq!(get_used_amount(40, &success("garbage")), Ok(0));
    assert_eq!(get_used_amount(40, &RemoteOutcome::Failure), Ok(0));
}

#[test]
fn context_needs_attached_value_and_gas() {
    assert_eq!(check_context(&caller("alice")), Ok(()));
    let mut context = caller("alice");
    context.attached_deposit = 0;
    assert_eq!(check_context(&context), Err(TokenError::InsufficientDeposit));
    context.prepaid_gas = 0;
    assert_eq!(check_context(&context), Err(TokenError::InsufficientDeposit));
    context.attached_deposit = 5;
    assert_eq!(check_context(&context), Err(TokenError::InsufficientGasOrBudget));
    context.prepaid_gas = GAS_FOR_FT_CALL;
    assert_eq!(check_context(&context), Err(TokenError::InsufficientGasOrBudget));
    context.prepaid_gas = GAS_FOR_FT_CALL + 1;
    assert_eq!(check_context(&context), Ok(()));
}

#[test]
fn deposit_call_escrows_at_once_and_asks_for_the_call() {
    let mut token = alice_with_100();
    let dispatch = token
        .ft_deposit_call(&caller("alice"), &t("b"), &t("a"), &Some(ValueClass::Primary), 40, t("hello"))
        .unwrap();
    assert_eq!(
        dispatch,
        Dispatch {
            event: Some(Event { kind: EventKind::Deposit, owner_id: t("alice"), amount: 40, contract_id: t("a") }),
            call: RemoteCall {
                token: ContinuationToken {
                    kind: FlowKind::Deposit,
                    owner_id: t("alice"),
                    receiver_id: t("b"),
                    contract_id: t("a"),
                    token_source: Some(ValueClass::Primary),
                    amount: 40,
                },
                msg: t("hello"),
                gas: 70 * TGAS,
                attached_deposit: 1,
                resolve_gas: 5 * TGAS,
            },
        }
    );
    assert_eq!(available(&token), 60);
    assert_eq!(committed(&token), 40);
    assert_eq!(token.ft_total_supply(&Some(t("a")), &None), 60);
}

#[test]
fn deposit_call_refusals_change_nothing() {
    let mut token = alice_with_100();
    let mut poor = caller("alice");
    poor.prepaid_gas = 30 * TGAS;
    assert_eq!(
        token.ft_deposit_call(&poor, &t("b"), &t("a"), &None, 40, t("")),
        Err(TokenError::InsufficientGasOrBudget)
    );
    let mut bare = caller("alice");
    bare.attached_deposit = 0;
    assert_eq!(
        token.ft_deposit_call(&bare, &t("b"), &t("a"), &None, 40, t("")),
        Err(TokenError::InsufficientDeposit)
    );
    assert_eq!(
        token.ft_deposit_call(&caller("carol"), &t("b"), &t("a"), &None, 40, t("")),
        Err(TokenError::NotRegistered)
    );
    assert_eq!(
        token.ft_deposit_call(&caller("alice"), &t("b"), &t("a"), &None, 101, t("")),
        Err(TokenError::InsufficientBalance)
    );
    assert_eq!(
        token.ft_deposit_call(&caller("alice"), &t("b"), &t("a"), &Some(ValueClass::Secondary), 1, t("")),
        Err(TokenError::InsufficientBalance)
    );
    assert_eq!(available(&token), 100);
    assert_eq!(committed(&token), 0);
    assert_eq!(token.ft_total_supply(&None, &None), 100);
}

#[test]
fn gas_is_tested_before_the_balance() {
    let mut token = alice_with_100();
    let mut poor = caller("carol");
    poor.prepaid_gas = 1;
    assert_eq!(
        token.ft_deposit_call(&poor, &t("b"), &t("a"), &None, 1000, t("")),
        Err(TokenError::InsufficientGasOrBudget)
    );
    assert_eq!(
        token.ft_burn_call(&poor, &t("a"), &None, 1000, t("")),
        Err(TokenError::InsufficientGasOrBudget)
    );
    assert_eq!(
        token.ft_withdraw_call(&poor, &t("b"), &t("a"), &None, 1000, t("")),
        Err(TokenError::InsufficientGasOrBudget)
    );
}

#[test]
fn failed_call_reverses_the_deposit() {
    let mut token = alice_with_100();
    let continuation = deposit_40(&mut token);
    assert_eq!(available(&token), 60);
    let settlement = token.resolve(&continuation, &RemoteOutcome::Failure).unwrap();
    assert_eq!(settlement.settled, SettledAmount { amount: 40, used: 0 });
    assert_eq!(
        settlement.event,
        Some(Event { kind: EventKind::Withdraw, owner_id: t("alice"), amount: 40, contract_id: t("a") })
    );
    assert_eq!(
        settlement.parts,
        vec![Withdrawal { scope: t("b"), class: ValueClass::Primary, amount: 40 }]
    );
    assert_eq!(available(&token), 100);
    assert_eq!(committed(&token), 0);
    assert_eq!(token.ft_total_supply(&Some(t("a")), &None), 100);
    assert_eq!(token.ft_total_supply(&None, &None), 100);
}

#[test]
fn partial_use_finalizes_what_was_used() {
    let mut token = alice_with_100();
    let continuation = deposit_40(&mut token);
    let settlement = token.resolve(&continuation, &success("\"15\"")).unwrap();
    assert_eq!(settlement.settled, SettledAmount { amount: 40, used: 25 });
    assert_eq!(
        settlement.event,
        Some(Event { kind: EventKind::Withdraw, owner_id: t("alice"), amount: 15, contract_id: t("a") })
    );
    assert_eq!(committed(&token), 25);
    assert_eq!(available(&token), 75);
    assert_eq!(token.ft_total_supply(&Some(t("a")), &None), 75);
}

#[test]
fn full_use_keeps_the_whole_deposit() {
    let mut token = alice_with_100();
    let continuation = deposit_40(&mut token);
    let settlement = token.resolve(&continuation, &success("\"0\"")).unwrap();
    assert_eq!(
        settlement,
        Settlement { settled: SettledAmount { amount: 40, used: 40 }, event: None, parts: vec![] }
    );
    assert_eq!(committed(&token), 40);
    assert_eq!(available(&token), 60);
}

#[test]
fn malformed_reports_reverse_the_deposit() {
    for outcome in [success("\"41\""), success("15"), success("{}"), RemoteOutcome::Success(vec![])] {
        let mut token = alice_with_100();
        let continuation = deposit_40(&mut token);
        let settlement = token.resolve(&continuation, &outcome).unwrap();
        assert_eq!(settlement.settled, SettledAmount { amount: 40, used: 0 });
        assert_eq!(available(&token), 100);
        assert_eq!(committed(&token), 0);
    }
}

#[test]
fn unresolved_call_changes_nothing() {
    let mut token = alice_with_100();
    let continuation = deposit_40(&mut token);
    assert_eq!(
        token.resolve(&continuation, &RemoteOutcome::NotYetResolved),
        Err(TokenError::ProtocolViolation)
    );
    assert_eq!(available(&token), 60);
    assert_eq!(committed(&token), 40);
    assert_eq!(
        token.ft_resolve_burn(&t("alice"), &t("a"), &None, 10, &RemoteOutcome::NotYetResolved),
        Err(TokenError::ProtocolViolation)
    );
    assert_eq!(
        token.ft_resolve_withdraw(&t("alice"), &t("b"), &t("a"), &None, 10, &RemoteOutcome::NotYetResolved),
        Err(TokenError::ProtocolViolation)
    );
    assert_eq!(
        token.ft_resolve_deposit(&t("alice"), &t("b"), &t("a"), &None, 10, &RemoteOutcome::NotYetResolved),
        Err(TokenError::ProtocolViolation)
    );
    assert_eq!(available(&token), 60);
    assert_eq!(committed(&token), 40);
}

#[test]
fn deposit_without_class_is_reversed_in_full() {
    let mut token = FungibleToken::new();
    token.internal_register_account(&t("alice")).unwrap();
    token.internal_deposit(&t("alice"), 30, &t("a"), ValueClass::Primary).unwrap();
    token.internal_deposit(&t("alice"), 10, &t("a"), ValueClass::Secondary).unwrap();
    let dispatch = token.ft_deposit_call(&caller("alice"), &t("b"), &t("a"), &None, 25, t("")).unwrap();
    assert_eq!(token.ft_balance_of(&t("alice"), &Some(t("a")), &Some(ValueClass::Secondary)), 0);
    assert_eq!(token.ft_balance_of(&t("alice"), &Some(t("a")), &Some(ValueClass::Primary)), 15);
    let settlement = token.resolve(&dispatch.call.token, &RemoteOutcome::Failure).unwrap();
    assert_eq!(
        settlement.parts,
        vec![
            Withdrawal { scope: t("b"), class: ValueClass::Secondary, amount: 10 },
            Withdrawal { scope: t("b"), class: ValueClass::Primary, amount: 15 },
        ]
    );
    assert_eq!(token.ft_balance_of(&t("alice"), &Some(t("a")), &Some(ValueClass::Secondary)), 10);
    assert_eq!(token.ft_balance_of(&t("alice"), &Some(t("a")), &Some(ValueClass::Primary)), 30);
    assert_eq!(token.ft_deposit_balance_of(&t("alice"), &None, &None), 0);
}

#[test]
fn withdraw_call_is_final_at_once() {
    let mut token = alice_with_100();
    let continuation = deposit_40(&mut token);
    token.resolve(&continuation, &success("\"0\"")).unwrap();
    let dispatch = token
        .ft_withdraw_call(&caller("alice"), &t("b"), &t("a"), &Some(ValueClass::Primary), 30, t("bye"))
        .unwrap();
    assert_eq!(
        dispatch.event,
        Some(Event { kind: EventKind::Withdraw, owner_id: t("alice"), amount: 30, contract_id: t("a") })
    );
    assert_eq!(dispatch.call.token.kind, FlowKind::Withdraw);
    assert_eq!(dispatch.call.token.receiver_id, t("b"));
    assert_eq!(dispatch.call.msg, t("bye"));
    assert_eq!(dispatch.call.gas, 70 * TGAS);
    assert_eq!(available(&token), 90);
    assert_eq!(committed(&token), 10);
    let settlement = token.resolve(&dispatch.call.token, &success("\"10\"")).unwrap();
    assert_eq!(
        settlement,
        Settlement { settled: SettledAmount { amount: 30, used: 20 }, event: None, parts: vec![] }
    );
    assert_eq!(available(&token), 90);
    assert_eq!(committed(&token), 10);
    let settlement = token.resolve(&dispatch.call.token, &RemoteOutcome::Failure).unwrap();
    assert_eq!(settlement.settled, SettledAmount { amount: 30, used: 0 });
    assert_eq!(available(&token), 90);
}

#[test]
fn withdraw_call_refusals_change_nothing() {
    let mut token = alice_with_100();
    deposit_40(&mut token);
    assert_eq!(
        token.ft_withdraw_call(&caller("alice"), &t("b"), &t("a"), &None, 41, t("")),
        Err(TokenError::InsufficientBalance)
    );
    assert_eq!(
        token.ft_withdraw_call(&caller("alice"), &t("c"), &t("a"), &None, 1, t("")),
        Err(TokenError::InsufficientBalance)
    );
    assert_eq!(
        token.ft_withdraw_call(&caller("carol"), &t("b"), &t("a"), &None, 1, t("")),
        Err(TokenError::NotRegistered)
    );
    assert_eq!(available(&token), 60);
    assert_eq!(committed(&token), 40);
}

#[test]
fn burn_call_destroys_nothing_yet() {
    let mut token = alice_with_100();
    let dispatch = token.ft_burn_call(&caller("alice"), &t("a"), &None, 30, t("burn")).unwrap();
    assert_eq!(dispatch.event, None);
    assert_eq!(
        dispatch.call.token,
        ContinuationToken {
            kind: FlowKind::Burn,
            owner_id: t("alice"),
            receiver_id: t("a"),
            contract_id: t("a"),
            token_source: None,
            amount: 30,
        }
    );
    assert_eq!(available(&token), 100);
    assert_eq!(token.ft_total_supply(&None, &None), 100);
}

#[test]
fn burn_call_refusals() {
    let mut token = alice_with_100();
    assert_eq!(
        token.ft_burn_call(&caller("alice"), &t("a"), &None, 101, t("")),
        Err(TokenError::InsufficientBalance)
    );
    assert_eq!(
        token.ft_burn_call(&caller("carol"), &t("a"), &None, 0, t("")),
        Err(TokenError::NotRegistered)
    );
    assert_eq!(available(&token), 100);
}

#[test]
fn burn_resolution_destroys_what_was_used() {
    let mut token = alice_with_100();
    let dispatch = token.ft_burn_call(&caller("alice"), &t("a"), &None, 30, t("")).unwrap();
    let settlement = token.resolve(&dispatch.call.token, &success("\"10\"")).unwrap();
    assert_eq!(
        settlement,
        Settlement {
            settled: SettledAmount { amount: 30, used: 20 },
            event: Some(Event { kind: EventKind::Burn, owner_id: t("alice"), amount: 20, contract_id: t("a") }),
            parts: vec![],
        }
    );
    assert_eq!(available(&token), 80);
    assert_eq!(token.ft_total_supply(&Some(t("a")), &None), 80);
    assert_eq!(token.ft_total_supply(&None, &None), 80);
}

#[test]
fn burn_resolution_of_nothing_used_is_a_no_op() {
    let mut token = alice_with_100();
    let dispatch = token.ft_burn_call(&caller("alice"), &t("a"), &None, 30, t("")).unwrap();
    for outcome in [RemoteOutcome::Failure, success("\"30\""), success("\"31\""), success("x")] {
        let settlement = token.resolve(&dispatch.call.token, &outcome).unwrap();
        assert_eq!(
            settlement,
            Settlement { settled: SettledAmount { amount: 30, used: 0 }, event: None, parts: vec![] }
        );
    }
    assert_eq!(available(&token), 100);
    assert_eq!(token.ft_total_supply(&None, &None), 100);
}

#[test]
fn burn_resolution_reads_the_balances_anew() {
    let mut token = alice_with_100();
    let dispatch = token.ft_burn_call(&caller("alice"), &t("a"), &None, 90, t("")).unwrap();
    deposit_40(&mut token);
    let settlement = token.resolve(&dispatch.call.token, &success("\"0\"")).unwrap();
    assert_eq!(settlement.settled, SettledAmount { amount: 90, used: 90 });
    assert_eq!(
        settlement.parts,
        vec![Withdrawal { scope: t("b"), class: ValueClass::Primary, amount: 30 }]
    );
    assert_eq!(available(&token), 0);
    assert_eq!(committed(&token), 10);
    assert_eq!(token.ft_total_supply(&None, &None), 0);
}

#[test]
fn burn_resolution_beyond_available_and_escrow_changes_nothing() {
    let mut token = alice_with_100();
    let dispatch = token.ft_burn_call(&caller("alice"), &t("a"), &None, 90, t("")).unwrap();
    deposit_40(&mut token);
    token.internal_withdraw(&t("alice"), 60, &t("a"), &None).unwrap();
    assert_eq!(
        token.resolve(&dispatch.call.token, &success("\"0\"")),
        Err(TokenError::InsufficientBalance)
    );
    assert_eq!(available(&token), 0);
    assert_eq!(committed(&token), 40);
    let mut gone = alice_with_100();
    gone.internal_storage_unregister(&t("alice"), Some(true)).unwrap();
    assert_eq!(gone.resolve(&dispatch.call.token, &success("\"0\"")), Err(TokenError::NotRegistered));
}

#[test]
fn resolver_methods_settle_like_resolve() {
    let mut token = alice_with_100();
    deposit_40(&mut token);
    let settlement = token
        .ft_resolve_deposit(&t("alice"), &t("b"), &t("a"), &Some(ValueClass::Primary), 40, &success("\"15\""))
        .unwrap();
    assert_eq!(settlement.settled.used, 25);
    assert_eq!(available(&token), 75);
    let settlement = token
        .ft_resolve_withdraw(&t("alice"), &t("b"), &t("a"), &None, 9, &success("\"4\""))
        .unwrap();
    assert_eq!(settlement.settled, SettledAmount { amount: 9, used: 5 });
    let settlement = token.ft_resolve_burn(&t("alice"), &t("a"), &None, 80, &success("\"0\"")).unwrap();
    assert_eq!(settlement.settled.used, 80);
    assert_eq!(available(&token), 0);
    assert_eq!(committed(&token), 20);
}

#[test]
fn settle_functions_take_the_report_as_it_is() {
    let mut token = alice_with_100();
    deposit_40(&mut token);
    let settlement = token.settle_deposit(&t("alice"), &t("b"), &t("a"), &Some(ValueClass::Primary), 40, Some(15)).unwrap();
    assert_eq!(settlement.settled, SettledAmount { amount: 40, used: 25 });
    assert_eq!(available(&token), 75);
    assert_eq!(token.settle_withdraw(10, Some(3)).settled, SettledAmount { amount: 10, used: 7 });
    assert_eq!(token.settle_withdraw(10, None).settled, SettledAmount { amount: 10, used: 0 });
    let settlement = token.settle_burn(&t("alice"), &t("a"), &None, 10, Some(4)).unwrap();
    assert_eq!(settlement.settled, SettledAmount { amount: 10, used: 6 });
    assert_eq!(available(&token), 69);
}

#[test]
fn reversal_that_cannot_be_taken_back_changes_nothing() {
    let mut token = alice_with_100();
    let continuation = deposit_40(&mut token);
    token
        .ft_withdraw_call(&caller("alice"), &t("b"), &t("a"), &Some(ValueClass::Primary), 30, t(""))
        .unwrap();
    assert_eq!(token.resolve(&continuation, &RemoteOutcome::Failure), Err(TokenError::InsufficientBalance));
    assert_eq!(available(&token), 90);
    assert_eq!(committed(&token), 10);
}

#[test]
fn error_reasons() {
    assert_eq!(TokenError::NotRegistered.reason(), "The account is not registered");
    assert_eq!(TokenError::InsufficientBalance.reason(), "Not enough balance");
    assert_eq!(TokenError::Overflow.reason(), "Balance overflow");
    assert_eq!(TokenError::AlreadyRegistered.reason(), "The account is already registered");
    assert_eq!(
        TokenError::NonZeroBalance.reason(),
        "Can't unregister the account with the positive balance without force"
    );
    assert_eq!(TokenError::ProtocolViolation.reason(), "The remote call has not completed");
    assert_eq!(TokenError::InsufficientGasOrBudget.reason(), "More gas is required");
    assert_eq!(TokenError::InsufficientDeposit.reason(), "Not enough deposit");
}

#[test]
fn deposit_and_withdraw_through_a_counterparty_is_a_round_trip() {
    let mut token = alice_with_100();
    token.internal_deposit(&t("alice"), 7, &t("a"), ValueClass::Secondary).unwrap();
    token.internal_deposit(&t("alice"), 3, &t("z"), ValueClass::Primary).unwrap();
    for class in [ValueClass::Primary, ValueClass::Secondary] {
        token.ft_deposit_call(&caller("alice"), &t("b"), &t("a"), &Some(class), 5, t("")).unwrap();
        token.ft_withdraw_call(&caller("alice"), &t("b"), &t("a"), &Some(class), 5, t("")).unwrap();
    }
    for scope in [Some(t("a")), Some(t("z")), Some(t("b")), None] {
        let expected = match scope.as_deref() {
            Some("a") => (100, 7),
            Some("z") => (3, 0),
            Some(_) => (0, 0),
            None => (103, 7),
        };
        assert_eq!(token.ft_balance_of(&t("alice"), &scope, &Some(ValueClass::Primary)), expected.0);
        assert_eq!(token.ft_balance_of(&t("alice"), &scope, &Some(ValueClass::Secondary)), expected.1);
        assert_eq!(token.ft_total_supply(&scope, &Some(ValueClass::Primary)), expected.0);
        assert_eq!(token.ft_total_supply(&scope, &Some(ValueClass::Secondary)), expected.1);
        assert_eq!(token.ft_deposit_balance_of(&t("alice"), &scope, &None), 0);
    }
}

#[test]
fn reversal_without_class_that_would_overflow_changes_nothing() {
    let mut token = FungibleToken::new();
    token.internal_register_account(&t("alice")).unwrap();
    token.internal_deposit(&t("alice"), 10, &t("a"), ValueClass::Secondary).unwrap();
    token
        .ft_deposit_call(&caller("alice"), &t("b"), &t("a"), &Some(ValueClass::Secondary), 10, t(""))
        .unwrap();
    token.internal_deposit(&t("alice"), u128::MAX, &t("z"), ValueClass::Secondary).unwrap();
    token.internal_deposit(&t("alice"), 10, &t("a"), ValueClass::Primary).unwrap();
    let dispatch = token.ft_deposit_call(&caller("alice"), &t("b"), &t("a"), &None, 10, t("")).unwrap();
    assert_eq!(token.ft_balance_of(&t("alice"), &Some(t("a")), &None), 0);
    assert_eq!(token.ft_deposit_balance_of(&t("alice"), &Some(t("b")), &None), 20);
    assert_eq!(token.resolve(&dispatch.call.token, &RemoteOutcome::Failure), Err(TokenError::Overflow));
    assert_eq!(token.ft_balance_of(&t("alice"), &Some(t("a")), &None), 0);
    assert_eq!(token.ft_deposit_balance_of(&t("alice"), &Some(t("b")), &None), 20);
    assert_eq!(token.ft_total_supply(&None, &Some(ValueClass::Secondary)), u128::MAX);
}
