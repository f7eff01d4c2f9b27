use fee_config::addr::{Addr, BasicValidator};
use fee_config::asset::{Asset, AssetInfo, AssetList};
use fee_config::coins::{Coin, Coins};
use fee_config::decimal::Decimal;
use fee_config::fee_config::{FeeConfig, TransferMsg};

fn native(denom: &str, amount: u128) -> Asset {
    Asset {
        info: AssetInfo::Native(denom.to_string()),
        amount,
    }
}

fn addr(s: &str) -> Addr {
    Addr::unchecked(s.to_string())
}

fn contract() -> Addr {
    addr("cosmos2contract")
}

fn coin(amount: u128, denom: &str) -> Coin {
    Coin::new(amount, denom.to_string())
}

#[test]
fn fee_config_fee_config_rate_cannot_be_larger_than_one() {
    let cfg = FeeConfig::<String> {
        fee_rate: Decimal::percent(101),
        fee_recipients: vec![],
    };
    let err = cfg.check(&BasicValidator).unwrap_err();
    assert!(err.message().contains("Fee rate can't be higher than 100%"));
}

#[test]
fn fee_config_fee_config_recipients_must_sum_to_one() {
    let cfg = FeeConfig::<String> {
        fee_rate: Decimal::percent(1),
        fee_recipients: vec![
            ("addr1".to_string(), Decimal::percent(20)),
            ("addr2".to_string(), Decimal::percent(50)),
        ],
    };
    let err = cfg.check(&BasicValidator).unwrap_err();
    assert!(err
        .message()
        .contains("Sum of fee recipient percentages must be 100%"));
}

#[test]
fn fee_config_fee_config_recipient_weights_must_be_greater_than_zero() {
    let cfg = FeeConfig::<String> {
        fee_rate: Decimal::percent(1),
        fee_recipients: vec![
            ("addr1".to_string(), Decimal::percent(100)),
            ("addr2".to_string(), Decimal::zero()),
        ],
    };
    let err = cfg.check(&BasicValidator).unwrap_err();
    assert!(err
        .message()
        .contains("Fee recipient percentages must be greater than zero"));
}

#[test]
fn fee_config_fee_msgs_from_asset_works() {
    let cfg = FeeConfig::<Addr> {
        fee_rate: Decimal::percent(1),
        fee_recipients: vec![(addr("addr1"), Decimal::percent(100))],
    };
    let asset = native("uusdc", 100);
    let (msgs, asset_after_fee) = cfg.fee_msgs_from_asset(asset, &contract()).unwrap();
    assert_eq!(msgs.len(), 1);
    assert_eq!(
        msgs[0],
        TransferMsg {
            recipient: addr("addr1"),
            assets: vec![native("uusdc", 1)],
        }
    );
    assert_eq!(asset_after_fee.amount, 99);
}

#[test]
fn fee_config_fee_msgs_from_asset_works_with_zero_fee_rate() {
    let cfg = FeeConfig::<Addr> {
        fee_rate: Decimal::zero(),
        fee_recipients: vec![],
    };
    let asset = native("uusdc", 100);
    let (msgs, asset_after_fee) = cfg.fee_msgs_from_asset(asset, &contract()).unwrap();
    assert_eq!(msgs.len(), 0);
    assert_eq!(asset_after_fee.amount, 100);
}

#[test]
fn fee_config_fee_msgs_from_assets_works() {
    let cfg = FeeConfig::<Addr> {
        fee_rate: Decimal::percent(1),
        fee_recipients: vec![(addr("addr1"), Decimal::percent(100))],
    };
    let assets = AssetList {
        assets: vec![native("uusdc", 100), native("uatom", 200)],
    };
    let (msgs, assets_after_fee) = cfg.fee_msgs_from_assets(&assets, &contract()).unwrap();
    println!("{:?}", msgs);
    assert_eq!(msgs.len(), 1);
    assert_eq!(
        msgs[0],
        TransferMsg {
            recipient: addr("addr1"),
            assets: vec![native("uusdc", 1), native("uatom", 2)],
        }
    );
    assert_eq!(assets_after_fee.to_vec()[0].amount, 99);
    assert_eq!(assets_after_fee.to_vec()[1].amount, 198);
}

#[test]
fn fee_config_fee_msgs_from_assets_works_with_multiple_recipients() {
    let cfg = FeeConfig::<Addr> {
        fee_rate: Decimal::percent(1),
        fee_recipients: vec![
            (addr("addr1"), Decimal::percent(50)),
            (addr("addr2"), Decimal::percent(50)),
        ],
    };
    let assets = AssetList {
        assets: vec![native("uusdc", 1000), native("uatom", 2000)],
    };
    let (msgs, assets_after_fee) = cfg.fee_msgs_from_assets(&assets, &contract()).unwrap();
    assert_eq!(msgs.len(), 2);
    assert_eq!(
        msgs[0],
        TransferMsg {
            recipient: addr("addr1"),
            assets: vec![native("uusdc", 5), native("uatom", 10)],
        }
    );
    assert_eq!(
        msgs[1],
        TransferMsg {
            recipient: addr("addr2"),
            assets: vec![native("uusdc", 5), native("uatom", 10)],
        }
    );
    assert_eq!(assets_after_fee.to_vec()[0].amount, 990);
    assert_eq!(assets_after_fee.to_vec()[1].amount, 1980);
}

#[test]
fn fee_config_fee_msgs_from_assets_works_with_zero_fee_rate() {
    let cfg = FeeConfig::<Addr> {
        fee_rate: Decimal::zero(),
        fee_recipients: vec![],
    };
    let assets = AssetList {
        assets: vec![native("uusdc", 100), native("uatom", 200)],
    };
    let (msgs, assets_after_fee) = cfg.fee_msgs_from_assets(&assets, &contract()).unwrap();
    assert_eq!(msgs.len(), 0);
    assert_eq!(assets_after_fee.to_vec()[0].amount, 100);
    assert_eq!(assets_after_fee.to_vec()[1].amount, 200);
}

#[test]
fn lib_fee_config_rate_cannot_be_larger_than_one() {
    let cfg = FeeConfig::<String> {
        fee_rate: Decimal::percent(101),
        fee_recipients: vec![],
    };
    let err = cfg.check(&BasicValidator).unwrap_err();
    assert!(err.message().contains("Fee rate can't be higher than 100%"));
}

#[test]
fn lib_fee_config_recipients_must_sum_to_one() {
    let cfg = FeeConfig::<String> {
        fee_rate: Decimal::percent(1),
        fee_recipients: vec![
            ("addr1".to_string(), Decimal::percent(20)),
            ("addr2".to_string(), Decimal::percent(50)),
        ],
    };
    let err = cfg.check(&BasicValidator).unwrap_err();
    assert!(err
        .message()
        .contains("Sum of fee recipient percentages must be 100%"));
}

#[test]
fn lib_fee_config_recipient_weights_must_be_greater_than_zero() {
    let cfg = FeeConfig::<String> {
        fee_rate: Decimal::percent(1),
        fee_recipients: vec![
            ("addr1".to_string(), Decimal::percent(100)),
            ("addr2".to_string(), Decimal::zero()),
        ],
    };
    let err = cfg.check(&BasicValidator).unwrap_err();
    assert!(err
        .message()
        .contains("Fee recipient percentages must be greater than zero"));
}

#[test]
fn lib_fee_msgs_from_asset_works() {
    let cfg = FeeConfig::<Addr> {
        fee_rate: Decimal::percent(1),
        fee_recipients: vec![(addr("addr1"), Decimal::percent(100))],
    };
    let asset = native("uusdc", 100);
    let (msgs, asset_after_fee) = cfg.fee_msgs_from_asset(asset, &contract()).unwrap();
    assert_eq!(msgs.len(), 1);
    assert_eq!(
        msgs[0],
        TransferMsg {
            recipient: addr("addr1"),
            assets: vec![native("uusdc", 1)],
        }
    );
    assert_eq!(asset_after_fee.amount, 99);
}

#[test]
fn fee_msgs_from_coin_works() {
    let cfg = FeeConfig::<Addr> {
        fee_rate: Decimal::percent(1),
        fee_recipients: vec![(addr("addr1"), Decimal::percent(100))],
    };
    let (msgs, coin_after_fee) = cfg
        .fee_msgs_from_coin(coin(100, "uusdc"), &contract())
        .unwrap();
    assert_eq!(msgs.len(), 1);
    assert_eq!(
        msgs[0],
        TransferMsg {
            recipient: addr("addr1"),
            assets: vec![native("uusdc", 1)],
        }
    );
    assert_eq!(coin_after_fee, coin(99, "uusdc"));
}

#[test]
fn fee_msg_from_coins_works() {
    let cfg = FeeConfig::<Addr> {
        fee_rate: Decimal::percent(1),
        fee_recipients: vec![(addr("addr1"), Decimal::percent(100))],
    };
    let coins = Coins::try_from_vec(vec![coin(100, "uusdc")]).unwrap();
    let (msgs, coins_after_fee) = cfg.fee_msgs_from_coins(&coins, &contract()).unwrap();
    assert_eq!(msgs.len(), 1);
    assert_eq!(
        msgs[0],
        TransferMsg {
            recipient: addr("addr1"),
            assets: vec![native("uusdc", 1)],
        }
    );
    assert_eq!(
        coins_after_fee,
        Coins::try_from_vec(vec![coin(99, "uusdc")]).unwrap()
    );
}

#[test]
fn lib_fee_msgs_from_asset_works_with_zero_fee_rate() {
    let cfg = FeeConfig::<Addr> {
        fee_rate: Decimal::zero(),
        fee_recipients: vec![],
    };
    let asset = native("uusdc", 100);
    let (msgs, asset_after_fee) = cfg.fee_msgs_from_asset(asset, &contract()).unwrap();
    assert_eq!(msgs.len(), 0);
    assert_eq!(asset_after_fee.amount, 100);
}

#[test]
fn fee_msg_from_coins_works_with_zero_fee_rate() {
    let cfg = FeeConfig::<Addr> {
        fee_rate: Decimal::zero(),
        fee_recipients: vec![],
    };
    let coins = Coins::try_from_vec(vec![coin(100, "uusdc")]).unwrap();
    let (msgs, coins_after_fee) = cfg.fee_msgs_from_coins(&coins, &contract()).unwrap();
    assert_eq!(msgs.len(), 0);
    assert_eq!(
        coins_after_fee,
        Coins::try_from_vec(vec![coin(100, "uusdc")]).unwrap()
    );
}

#[test]
fn lib_fee_msgs_from_assets_works() {
    let cfg = FeeConfig::<Addr> {
        fee_rate: Decimal::percent(1),
        fee_recipients: vec![(addr("addr1"), Decimal::percent(100))],
    };
    let assets = AssetList {
        assets: vec![native("uusdc", 100), native("uatom", 200)],
    };
    let (msgs, assets_after_fee) = cfg.fee_msgs_from_assets(&assets, &contract()).unwrap();
    println!("{:?}", msgs);
    assert_eq!(msgs.len(), 1);
    assert_eq!(
        msgs[0],
        TransferMsg {
            recipient: addr("addr1"),
            assets: vec![native("uusdc", 1), native("uatom", 2)],
        }
    );
    assert_eq!(assets_after_fee.to_vec()[0].amount, 99);
    assert_eq!(assets_after_fee.to_vec()[1].amount, 198);
}

#[test]
fn lib_fee_msgs_from_assets_works_with_multiple_recipients() {
    let cfg = FeeConfig::<Addr> {
        fee_rate: Decimal::percent(1),
        fee_recipients: vec![
            (addr("addr1"), Decimal::percent(50)),
            (addr("addr2"), Decimal::percent(50)),
        ],
    };
    let assets = AssetList {
        assets: vec![native("uusdc", 1000), native("uatom", 2000)],
    };
    let (msgs, assets_after_fee) = cfg.fee_msgs_from_assets(&assets, &contract()).unwrap();
    assert_eq!(msgs.len(), 2);
    assert_eq!(
        msgs[0],
        TransferMsg {
            recipient: addr("addr1"),
            assets: vec![native("uusdc", 5), native("uatom", 10)],
        }
    );
    assert_eq!(
        msgs[1],
        TransferMsg {
            recipient: addr("addr2"),
            assets: vec![native("uusdc", 5), native("uatom", 10)],
        }
    );
    assert_eq!(assets_after_fee.to_vec()[0].amount, 990);
    assert_eq!(assets_after_fee.to_vec()[1].amount, 1980);
}

#[test]
fn fee_msgs_from_coins_works_with_multiple_recipients() {
    let cfg = FeeConfig::<Addr> {
        fee_rate: Decimal::percent(1),
        fee_recipients: vec![
            (addr("addr1"), Decimal::percent(50)),
            (addr("addr2"), Decimal::percent(50)),
        ],
    };
    let coins = Coins::try_from_vec(vec![coin(1000, "uusdc"), coin(2000, "uatom")]).unwrap();
    let (msgs, coins_after_fee) = cfg.fee_msgs_from_coins(&coins, &contract()).unwrap();
    assert_eq!(msgs.len(), 2);
    assert!(msgs.contains(&TransferMsg {
        recipient: addr("addr1"),
        assets: vec![native("uusdc", 5), native("uatom", 10)],
    }));
    assert!(msgs.contains(&TransferMsg {
        recipient: addr("addr2"),
        assets: vec![native("uusdc", 5), native("uatom", 10)],
    }));
    assert_eq!(
        coins_after_fee,
        Coins::try_from_vec(vec![coin(990, "uusdc"), coin(1980, "uatom")]).unwrap()
    );
}

#[test]
fn lib_fee_msgs_from_assets_works_with_zero_fee_rate() {
    let cfg = FeeConfig::<Addr> {
        fee_rate: Decimal::zero(),
        fee_recipients: vec![],
    };
    let assets = AssetList {
        assets: vec![native("uusdc", 100), native("uatom", 200)],
    };
    let (msgs, assets_after_fee) = cfg.fee_msgs_from_assets(&assets, &contract()).unwrap();
    assert_eq!(msgs.len(), 0);
    assert_eq!(assets_after_fee.to_vec()[0].amount, 100);
    assert_eq!(assets_after_fee.to_vec()[1].amount, 200);
}

#[test]
fn fee_msgs_from_assets_works_when_asset_list_contains_zero_amounts() {
    let cfg = FeeConfig::<Addr> {
        fee_rate: Decimal::percent(1),
        fee_recipients: vec![(addr("addr1"), Decimal::percent(100))],
    };
    let assets = AssetList {
        assets: vec![native("uusdc", 100), native("uatom", 0)],
    };
    let (msgs, assets_after_fee) = cfg.fee_msgs_from_assets(&assets, &contract()).unwrap();
    assert_eq!(msgs.len(), 1);
    assert_eq!(
        msgs[0],
        TransferMsg {
            recipient: addr("addr1"),
            assets: vec![native("uusdc", 1)],
        }
    );
    assert_eq!(
        assets_after_fee,
        AssetList {
            assets: vec![native("uusdc", 99)],
        }
    );
}
