use bridge_token::abi_word::{int_word, word_int};
use bridge_token::event::{EthDetailedRebaseEvent, EthRebasedEvent, RebaseError};
use bridge_token::ledger::{rebase_balance, rebase_balances, Ledger, TokenError};
use bridge_token::muldiv::mul_div;
use bridge_token::account::valid_account_id;
use bridge_token::token::{BridgeToken, FINISH_WITHDRAW_GAS, PAUSE_REBASE, PAUSE_WITHDRAW};

fn s(x: &str) -> String {
    x.to_string()
}

fn token_with(balances: &[(&str, u128)]) -> BridgeToken {
    let mut t = BridgeToken::new(s("factory"));
    for (id, amount) in balances {
        t.mint(&s("factory"), &s(id), *amount).unwrap();
    }
    t
}

fn simplified_log(epoch: u128, total_supply: u128) -> Vec<u8> {
    EthRebasedEvent {
        rebaser_address: [1u8; 20],
        token: "0102030405060708090a0b0c0d0e0f1011121314".to_string(),
        epoch,
        total_supply,
    }
    .to_log_entry_data()
}

fn detailed_log(epoch: u128, adjustment: i128) -> Vec<u8> {
    EthDetailedRebaseEvent {
        rebaser_address: [2u8; 20],
        token: "0102030405060708090a0b0c0d0e0f1011121314".to_string(),
        epoch,
        exchange_rate: 1,
        consumer_price_index: 1,
        requested_adjustment: adjustment,
        timestamp: 1,
    }
    .to_log_entry_data()
}

#[test]
fn proportional_example() {
    let mut t = token_with(&[("a", 700), ("b", 300)]);
    assert_eq!(t.ft_total_supply(), 1000);
    assert_eq!(t.apply_rebase(&s("factory"), &simplified_log(1, 1100)), Ok(()));
    assert_eq!(t.ft_balance_of(&s("a")), 770);
    assert_eq!(t.ft_balance_of(&s("b")), 330);
    assert_eq!(t.ft_total_supply(), 1100);
}

#[test]
fn no_op_rebase_keeps_balances() {
    let mut t = token_with(&[("a", 700), ("b", 300)]);
    assert_eq!(t.apply_rebase(&s("factory"), &simplified_log(1, 1000)), Ok(()));
    assert_eq!(t.ft_balance_of(&s("a")), 700);
    assert_eq!(t.ft_balance_of(&s("b")), 300);
    assert_eq!(t.ft_total_supply(), 1000);
    assert_eq!(t.apply_rebase(&s("factory"), &detailed_log(2, 0)), Ok(()));
    assert_eq!(t.ft_balance_of(&s("a")), 700);
    assert_eq!(t.ft_total_supply(), 1000);
}

#[test]
fn drift_is_bounded() {
    let mut t = token_with(&[("a", 1), ("b", 1), ("c", 1)]);
    assert_eq!(t.rebase(&s("factory"), 1, 4), Ok(()));
    assert_eq!(t.ft_total_supply(), 4);
    let sum: u128 = ["a", "b", "c"].iter().map(|id| t.ft_balance_of(&s(id))).sum();
    assert_eq!(sum, 3);
    assert!(4 - sum <= 2);
}

#[test]
fn shrinking_rounds_each_cut_down() {
    let mut t = token_with(&[("a", 5), ("b", 5)]);
    assert_eq!(t.rebase(&s("factory"), 1, 7), Ok(()));
    // cut = floor(5 * 3 / 10) = 1 for each
    assert_eq!(t.ft_balance_of(&s("a")), 4);
    assert_eq!(t.ft_balance_of(&s("b")), 4);
    assert_eq!(t.ft_total_supply(), 7);
}

#[test]
fn large_negative_adjustment_clamps_to_zero() {
    let mut t = token_with(&[("a", 700), ("b", 300)]);
    assert_eq!(t.apply_rebase(&s("factory"), &detailed_log(1, -2000)), Ok(()));
    assert_eq!(t.ft_balance_of(&s("a")), 0);
    assert_eq!(t.ft_balance_of(&s("b")), 0);
    assert_eq!(t.ft_total_supply(), 0);
}

#[test]
fn detailed_adjustment_moves_supply() {
    let mut t = token_with(&[("a", 700), ("b", 300)]);
    assert_eq!(t.apply_rebase(&s("factory"), &detailed_log(1, -100)), Ok(()));
    assert_eq!(t.ft_balance_of(&s("a")), 630);
    assert_eq!(t.ft_balance_of(&s("b")), 270);
    assert_eq!(t.ft_total_supply(), 900);
}

#[test]
fn detailed_target_overflow() {
    let mut t = token_with(&[("a", u128::MAX)]);
    assert_eq!(
        t.apply_rebase(&s("factory"), &detailed_log(1, 1)),
        Err(RebaseError::ArithmeticOverflow)
    );
    assert_eq!(t.ft_total_supply(), u128::MAX);
}

#[test]
fn non_controller_is_unauthorized() {
    let mut t = token_with(&[("a", 700), ("b", 300)]);
    assert_eq!(
        t.apply_rebase(&s("mallory"), &simplified_log(1, 5000)),
        Err(RebaseError::Unauthorized)
    );
    assert_eq!(
        t.rebase(&s("mallory"), 1, 5000),
        Err(RebaseError::Unauthorized)
    );
    assert_eq!(t.ft_balance_of(&s("a")), 700);
    assert_eq!(t.ft_total_supply(), 1000);
}

#[test]
fn paused_rebase_is_refused() {
    let mut t = token_with(&[("a", 700), ("b", 300)]);
    assert_eq!(t.set_paused(&s("factory"), &s("token"), PAUSE_REBASE), Ok(()));
    assert!(t.is_paused(PAUSE_REBASE));
    assert_eq!(
        t.apply_rebase(&s("factory"), &simplified_log(1, 1100)),
        Err(RebaseError::Paused)
    );
    assert_eq!(t.ft_balance_of(&s("a")), 700);
    assert_eq!(t.ft_total_supply(), 1000);
}

#[test]
fn older_epoch_is_stale() {
    let mut t = token_with(&[("a", 700), ("b", 300)]);
    assert_eq!(t.apply_rebase(&s("factory"), &simplified_log(5, 1100)), Ok(()));
    assert_eq!(
        t.apply_rebase(&s("factory"), &simplified_log(3, 2000)),
        Err(RebaseError::StaleEpoch)
    );
    assert_eq!(
        t.apply_rebase(&s("factory"), &simplified_log(5, 2000)),
        Err(RebaseError::StaleEpoch)
    );
    assert_eq!(t.ft_balance_of(&s("a")), 770);
    assert_eq!(t.ft_balance_of(&s("b")), 330);
    assert_eq!(t.ft_total_supply(), 1100);
}

#[test]
fn malformed_log_is_refused() {
    let mut t = token_with(&[("a", 700)]);
    assert_eq!(
        t.apply_rebase(&s("factory"), &[0u8; 50]),
        Err(RebaseError::MalformedLog)
    );
    assert_eq!(t.ft_total_supply(), 700);
}

#[test]
fn mint_and_withdraw() {
    let mut t = BridgeToken::new(s("factory"));
    assert_eq!(t.mint(&s("alice"), &s("a"), 5), Err(TokenError::Unauthorized));
    assert_eq!(t.mint(&s("factory"), &s("a"), 5), Ok(()));
    assert_eq!(t.mint(&s("factory"), &s("a"), 6), Ok(()));
    assert_eq!(t.ft_balance_of(&s("a")), 11);
    assert_eq!(t.accounts(), vec![s("a")]);
    assert_eq!(
        t.mint(&s("factory"), &s("b"), u128::MAX),
        Err(TokenError::ArithmeticOverflow)
    );
    assert_eq!(
        t.withdraw(&s("a"), 0, 3, s("0xabc")),
        Err(TokenError::RequiresOneYocto)
    );
    assert_eq!(
        t.withdraw(&s("a"), 1, 30, s("0xabc")),
        Err(TokenError::InsufficientBalance)
    );
    assert_eq!(
        t.withdraw(&s("z"), 1, 0, s("0xabc")),
        Err(TokenError::NotRegistered)
    );
    assert_eq!(
        t.withdraw(&s("a"), 1, 3, s("Not An Account")),
        Err(TokenError::InvalidRecipient)
    );
    assert_eq!(t.ft_balance_of(&s("a")), 11);
    let call = t.withdraw(&s("a"), 1, 3, s("0xabc")).unwrap();
    assert_eq!(call.factory, "factory");
    assert_eq!(call.gas, FINISH_WITHDRAW_GAS);
    assert_eq!(call.gas, 50_000_000_000_000);
    assert_eq!(call.refund_to, "a");
    assert_eq!(call.refund, 1);
    assert_eq!(call.amount, 3);
    assert_eq!(call.recipient, "0xabc");
    assert_eq!(t.ft_balance_of(&s("a")), 8);
    assert_eq!(t.ft_total_supply(), 8);
}

#[test]
fn paused_withdraw_is_refused() {
    let mut t = token_with(&[("a", 10)]);
    assert_eq!(
        t.set_paused(&s("mallory"), &s("token"), PAUSE_WITHDRAW),
        Err(TokenError::Unauthorized)
    );
    assert_eq!(t.set_paused(&s("token"), &s("token"), PAUSE_WITHDRAW), Ok(()));
    assert_eq!(t.get_paused(), PAUSE_WITHDRAW);
    assert_eq!(t.withdraw(&s("a"), 1, 1, s("0xabc")), Err(TokenError::Paused));
    assert_eq!(t.ft_balance_of(&s("a")), 10);
}

#[test]
fn controller_or_self_check() {
    let t = BridgeToken::new(s("factory"));
    assert!(t.controller_or_self(&s("factory"), &s("token")));
    assert!(t.controller_or_self(&s("token"), &s("token")));
    assert!(!t.controller_or_self(&s("mallory"), &s("token")));
}

#[test]
fn mul_div_exact() {
    assert_eq!(mul_div(700, 100, 1000), Some(70));
    assert_eq!(mul_div(u128::MAX, u128::MAX, u128::MAX), Some(u128::MAX));
    assert_eq!(mul_div(u128::MAX, 3, 4), Some(u128::MAX / 4 * 3 + 2));
    assert_eq!(mul_div(1 << 127, 4, 2), None);
    assert_eq!(mul_div(0, u128::MAX, 7), Some(0));
    assert_eq!(mul_div(10u128.pow(30), 10u128.pow(29), 10u128.pow(30)), Some(10u128.pow(29)));
}

#[test]
fn balance_step_and_sequence() {
    assert_eq!(rebase_balance(700, 1000, 1100), Some(770));
    assert_eq!(rebase_balance(700, 1000, 0), Some(0));
    assert_eq!(rebase_balance(700, 0, 50), Some(700));
    assert_eq!(rebase_balance(u128::MAX, 1, 2), None);
    assert_eq!(rebase_balances(&vec![700, 300], 1000, 900), Ok(vec![630, 270]));
    assert_eq!(
        rebase_balances(&vec![1, u128::MAX], 1, 2),
        Err(RebaseError::ArithmeticOverflow)
    );
}

#[test]
fn ledger_direct() {
    let mut l = Ledger::new();
    assert_eq!(l.deposit(&s("x"), 9), Ok(()));
    assert_eq!(l.rebase(18), Ok(()));
    assert_eq!(l.balance_of(&s("x")), 18);
    assert_eq!(l.withdraw(&s("x"), 20), Err(TokenError::InsufficientBalance));
    assert_eq!(l.total_supply(), 18);
    assert_eq!(l.account_ids(), vec![s("x")]);
}

#[test]
fn signed_words() {
    assert_eq!(word_int(&int_word(-2)), Some(-2));
    assert_eq!(int_word(-2)[31], 0xfe);
    assert_eq!(int_word(300)[30], 1);
    assert_eq!(word_int(&[0xffu8; 32]), Some(-1));
    let mut w = [0u8; 32];
    w[0] = 0x80;
    assert_eq!(word_int(&w), None);
}

#[test]
fn mint_of_zero_registers() {
    let mut t = BridgeToken::new(s("factory"));
    assert_eq!(t.mint(&s("factory"), &s("fresh"), 0), Ok(()));
    assert_eq!(t.accounts(), vec![s("fresh")]);
    assert_eq!(t.ft_balance_of(&s("fresh")), 0);
}

#[test]
fn account_ids() {
    for ok in ["ab", "alice.near", "a-b_c.d", "0x1234", "bridge.factory.near"] {
        assert!(valid_account_id(ok), "{}", ok);
    }
    let long = "a".repeat(65);
    for bad in ["a", "", "Alice", "a..b", ".ab", "ab.", "a b", "a-_b", "ünï", long.as_str()] {
        assert!(!valid_account_id(bad), "{}", bad);
    }
    assert!(valid_account_id(&"a".repeat(64)));
}
