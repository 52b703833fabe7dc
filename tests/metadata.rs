use bridge_token::event::{EthDetailedRebaseEvent, EthRebasedEvent, FieldKind};
use bridge_token::ledger::{Ledger, TokenError};
use bridge_token::token::{BridgeToken, BridgeTokenV0};

fn s(x: &str) -> String {
    x.to_string()
}

#[test]
fn schemas_are_fixed() {
    let p = EthRebasedEvent::event_params();
    assert_eq!(p.len(), 3);
    assert_eq!(p[0].name, "token");
    assert_eq!(p[0].kind, FieldKind::Address);
    assert!(p[0].indexed);
    assert_eq!(p[1].name, "epoch");
    assert_eq!(p[1].kind, FieldKind::Uint(256));
    assert!(p[1].indexed);
    assert_eq!(p[2].name, "total_supply");
    assert!(!p[2].indexed);
    let d = EthDetailedRebaseEvent::event_params();
    assert_eq!(d.len(), 6);
    assert_eq!(d[4].name, "requested_adjustment");
    assert_eq!(d[4].kind, FieldKind::Int(256));
    assert!(!d[5].indexed);
}

#[test]
fn describe_large_numbers() {
    let e = EthRebasedEvent {
        rebaser_address: [0u8; 20],
        token: s("t"),
        epoch: 0,
        total_supply: u128::MAX,
    };
    assert_eq!(
        e.describe(),
        "token: t; epoch: 0; total_supply: 340282366920938463463374607431768211455"
    );
}

#[test]
fn describe_event() {
    let e = EthRebasedEvent {
        rebaser_address: [0u8; 20],
        token: "ab".repeat(20),
        epoch: 3,
        total_supply: 1100,
    };
    assert_eq!(
        e.describe(),
        format!("token: {}; epoch: 3; total_supply: 1100", "ab".repeat(20))
    );
}

#[test]
fn fresh_metadata_is_empty() {
    let m = BridgeToken::new(s("factory")).ft_metadata();
    assert_eq!(m.name, "");
    assert_eq!(m.symbol, "");
    assert_eq!(m.reference, Some(s("")));
    assert_eq!(m.reference_hash, Some(vec![]));
    assert_eq!(m.decimals, 0);
    assert_eq!(m.icon, None);
}

#[test]
fn metadata_updates() {
    let mut t = BridgeToken::new(s("factory"));
    assert_eq!(
        t.set_metadata(&s("mallory"), &s("token"), Some(s("X")), None, None, None, None, None),
        Err(TokenError::Unauthorized)
    );
    assert_eq!(
        t.set_metadata(
            &s("factory"),
            &s("token"),
            Some(s("Ampleforth")),
            Some(s("AMPL")),
            None,
            Some(vec![1, 2, 3]),
            Some(9),
            Some(s("data:icon")),
        ),
        Ok(())
    );
    let m = t.ft_metadata();
    assert_eq!(m.spec, "ft-1.0.0");
    assert_eq!(m.name, "Ampleforth");
    assert_eq!(m.symbol, "AMPL");
    assert_eq!(m.reference, Some(s("")));
    assert_eq!(m.reference_hash, Some(vec![1, 2, 3]));
    assert_eq!(m.decimals, 9);
    assert_eq!(m.icon, Some(s("data:icon")));
    assert_eq!(
        t.set_metadata(&s("token"), &s("token"), None, Some(s("XAMPL")), None, None, None, None),
        Ok(())
    );
    let m = t.ft_metadata();
    assert_eq!(m.name, "Ampleforth");
    assert_eq!(m.symbol, "XAMPL");
}

fn v0(controller: &str) -> BridgeTokenV0 {
    let mut token = Ledger::new();
    token.deposit(&s("a"), 40).unwrap();
    BridgeTokenV0 {
        controller: s(controller),
        token,
        name: s("Old"),
        symbol: s("OLD"),
        reference: s("ref"),
        reference_hash: vec![9],
        decimals: 6,
        paused: 1,
    }
}

#[test]
fn migration_keeps_state() {
    let t = BridgeToken::from(v0("factory"));
    assert_eq!(t.ft_balance_of(&s("a")), 40);
    assert_eq!(t.get_paused(), 1);
    let m = t.ft_metadata();
    assert_eq!(m.name, "Old");
    assert_eq!(m.icon, None);
    assert_eq!(m.decimals, 6);
    assert!(BridgeToken::migrate_nep_148_add_icon(v0("factory"), &s("factory"), &s("token")).is_ok());
    assert!(BridgeToken::migrate_nep_148_add_icon(v0("factory"), &s("token"), &s("token")).is_ok());
    assert_eq!(
        BridgeToken::migrate_nep_148_add_icon(v0("factory"), &s("mallory"), &s("token")).err(),
        Some(TokenError::Unauthorized)
    );
}
