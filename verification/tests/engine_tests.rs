use fee_config::addr::{Addr, AddressValidator, BasicValidator};
use fee_config::asset::{Asset, AssetInfo, AssetList};
use fee_config::coins::{Coin, Coins};
use fee_config::decimal::{Decimal, DECIMAL_FRACTIONAL};
use fee_config::fee_config::{FeeConfig, FeeError, TransferMsg};

fn native(denom: &str, amount: u128) -> Asset {
    Asset {
        info: AssetInfo::Native(denom.to_string()),
        amount,
    }
}

fn addr(s: &str) -> Addr {
    Addr::unchecked(s.to_string())
}

#[test]
fn percent_builds_the_exact_atomic_count() {
    assert_eq!(Decimal::percent(1).atomics, 10_000_000_000_000_000);
    assert_eq!(Decimal::percent(100), Decimal::one());
    assert_eq!(Decimal::one().atomics, DECIMAL_FRACTIONAL);
    assert!(Decimal::zero().is_zero());
}

#[test]
fn self_payment_is_elided_from_the_instructions() {
    let own = addr("cosmos2contract");
    let cfg = FeeConfig::<Addr> {
        fee_rate: Decimal::percent(1),
        fee_recipients: vec![
            (own.clone(), Decimal::percent(50)),
            (addr("addr2"), Decimal::percent(50)),
        ],
    };
    let assets = AssetList {
        assets: vec![native("uusdc", 1000)],
    };
    let (msgs, remainder) = cfg.fee_msgs_from_assets(&assets, &own).unwrap();
    assert_eq!(msgs.len(), 1);
    assert_eq!(
        msgs[0],
        TransferMsg {
            recipient: addr("addr2"),
            assets: vec![native("uusdc", 5)],
        }
    );
    // The whole fee was still reserved, whatever actually left
    assert_eq!(remainder.to_vec(), vec![native("uusdc", 990)]);
}

#[test]
fn tiny_amounts_produce_no_instruction_at_all() {
    // 1% of 50 rounds down to zero: no fee, balances untouched
    let cfg = FeeConfig::<Addr> {
        fee_rate: Decimal::percent(1),
        fee_recipients: vec![(addr("addr1"), Decimal::percent(100))],
    };
    let assets = AssetList {
        assets: vec![native("uusdc", 50)],
    };
    let (msgs, remainder) = cfg.fee_msgs_from_assets(&assets, &addr("cosmos2contract")).unwrap();
    assert_eq!(msgs.len(), 0);
    assert_eq!(remainder.to_vec(), vec![native("uusdc", 50)]);
}

#[test]
fn recipient_truncation_loses_dust_but_never_overpays() {
    // Fee of 9 uusdc split three ways: each recipient gets floor(3) = 3;
    // with weights 0.4/0.3/0.3 the shares 3, 2, 2 leave dust unpaid
    let cfg = FeeConfig::<Addr> {
        fee_rate: Decimal::percent(1),
        fee_recipients: vec![
            (addr("addr1"), Decimal::percent(40)),
            (addr("addr2"), Decimal::percent(30)),
            (addr("addr3"), Decimal::percent(30)),
        ],
    };
    let assets = AssetList {
        assets: vec![native("uusdc", 900)],
    };
    let (msgs, remainder) = cfg.fee_msgs_from_assets(&assets, &addr("cosmos2contract")).unwrap();
    assert_eq!(msgs.len(), 3);
    assert_eq!(msgs[0].assets, vec![native("uusdc", 3)]);
    assert_eq!(msgs[1].assets, vec![native("uusdc", 2)]);
    assert_eq!(msgs[2].assets, vec![native("uusdc", 2)]);
    assert_eq!(remainder.to_vec(), vec![native("uusdc", 891)]);
}

#[test]
fn whole_amount_consumed_drops_the_entry_from_the_remainder() {
    let cfg = FeeConfig::<Addr> {
        fee_rate: Decimal::percent(100),
        fee_recipients: vec![(addr("addr1"), Decimal::percent(100))],
    };
    let assets = AssetList {
        assets: vec![native("uusdc", 7)],
    };
    let (msgs, remainder) = cfg.fee_msgs_from_assets(&assets, &addr("cosmos2contract")).unwrap();
    assert_eq!(msgs.len(), 1);
    assert_eq!(msgs[0].assets, vec![native("uusdc", 7)]);
    assert_eq!(remainder.to_vec(), vec![]);
}

#[test]
fn duplicate_denominations_are_refused() {
    let err = Coins::try_from_vec(vec![
        Coin::new(1, "uusdc".to_string()),
        Coin::new(2, "uusdc".to_string()),
    ])
    .unwrap_err();
    assert_eq!(err, FeeError::DuplicateDenom);
    assert_eq!(err.message(), "Duplicate denom");
}

#[test]
fn zero_amounts_are_dropped_when_building_coins() {
    let coins = Coins::try_from_vec(vec![
        Coin::new(0, "uusdc".to_string()),
        Coin::new(3, "uatom".to_string()),
        Coin::new(0, "uusdc".to_string()),
    ])
    .unwrap();
    assert_eq!(coins.len(), 1);
    assert_eq!(coins.amount_of(&"uatom".to_string()), 3);
    assert_eq!(coins.amount_of(&"uusdc".to_string()), 0);
}

#[test]
fn a_zero_amount_coin_comes_back_unchanged() {
    let cfg = FeeConfig::<Addr> {
        fee_rate: Decimal::percent(1),
        fee_recipients: vec![(addr("addr1"), Decimal::percent(100))],
    };
    let (msgs, after) = cfg
        .fee_msgs_from_coin(Coin::new(0, "uusdc".to_string()), &addr("cosmos2contract"))
        .unwrap();
    assert_eq!(msgs.len(), 0);
    assert_eq!(after, Coin::new(0, "uusdc".to_string()));
}

#[test]
fn error_messages_carry_the_exact_rule() {
    assert_eq!(
        FeeError::InvalidFeeRate.message(),
        "Fee rate can't be higher than 100%"
    );
    assert_eq!(
        FeeError::InvalidRecipientWeightSum.message(),
        "Sum of fee recipient percentages must be 100%"
    );
    assert_eq!(
        FeeError::ZeroRecipientWeight.message(),
        "Fee recipient percentages must be greater than zero"
    );
}

#[test]
fn zero_weights_are_refused_even_for_a_zero_rate() {
    let cfg = FeeConfig::<String> {
        fee_rate: Decimal::zero(),
        fee_recipients: vec![("addr1".to_string(), Decimal::zero())],
    };
    let err = cfg.check(&BasicValidator).unwrap_err();
    assert_eq!(err, FeeError::ZeroRecipientWeight);
}

#[test]
fn the_basic_validator_keeps_the_address_text() {
    let ok = BasicValidator
        .validate_address(&"addr1".to_string())
        .unwrap();
    assert_eq!(ok.as_str(), "addr1");
    assert!(BasicValidator.validate_address(&"".to_string()).is_err());
    assert!(BasicValidator
        .validate_address(&"UPPER".to_string())
        .is_err());
}

#[test]
fn check_wf_accepts_exactly_the_well_formed_configs() {
    // Well-formed: bounded rate, positive weights summing to one
    let good = FeeConfig::<Addr> {
        fee_rate: Decimal::percent(1),
        fee_recipients: vec![
            (addr("addr1"), Decimal::percent(60)),
            (addr("addr2"), Decimal::percent(40)),
        ],
    };
    assert!(good.check_wf().is_ok());

    // A zero rate needs nothing of the recipients
    let zero_rate = FeeConfig::<Addr> {
        fee_rate: Decimal::zero(),
        fee_recipients: vec![(addr("addr1"), Decimal::zero())],
    };
    assert!(zero_rate.check_wf().is_ok());

    let high_rate = FeeConfig::<Addr> {
        fee_rate: Decimal::percent(101),
        fee_recipients: vec![],
    };
    assert_eq!(high_rate.check_wf().unwrap_err(), FeeError::InvalidFeeRate);

    let bad_sum = FeeConfig::<Addr> {
        fee_rate: Decimal::percent(1),
        fee_recipients: vec![(addr("addr1"), Decimal::percent(70))],
    };
    assert_eq!(
        bad_sum.check_wf().unwrap_err(),
        FeeError::InvalidRecipientWeightSum
    );

    let zero_weight = FeeConfig::<Addr> {
        fee_rate: Decimal::percent(1),
        fee_recipients: vec![
            (addr("addr1"), Decimal::percent(100)),
            (addr("addr2"), Decimal::zero()),
        ],
    };
    assert_eq!(
        zero_weight.check_wf().unwrap_err(),
        FeeError::ZeroRecipientWeight
    );
}

#[test]
fn check_rejects_an_invalid_recipient_address() {
    let cfg = FeeConfig::<String> {
        fee_rate: Decimal::percent(1),
        fee_recipients: vec![("UPPER".to_string(), Decimal::percent(100))],
    };
    let err = cfg.check(&BasicValidator).unwrap_err();
    assert!(matches!(err, FeeError::InvalidRecipientAddress { .. }));
}

#[test]
fn checking_a_valid_config_validates_every_address() {
    let cfg = FeeConfig::<String> {
        fee_rate: Decimal::percent(1),
        fee_recipients: vec![
            ("addr1".to_string(), Decimal::percent(60)),
            ("addr2".to_string(), Decimal::percent(40)),
        ],
    };
    let checked = cfg.check(&BasicValidator).unwrap();
    assert_eq!(checked.fee_rate, Decimal::percent(1));
    assert_eq!(checked.fee_recipients.len(), 2);
    assert_eq!(checked.fee_recipients[0].0, addr("addr1"));
    assert_eq!(checked.fee_recipients[1].0, addr("addr2"));
}
