use anvil_arbitrum::address::Address;
use anvil_arbitrum::config::ArbitrumConfig;

#[test]
fn test_default_config() {
    let config = ArbitrumConfig::default();
    assert_eq!(config.chain_id, 42161);
    assert_eq!(config.arb_os_version, 20);
    assert_eq!(config.l1_base_fee, 20_000_000_000);
    assert!(config.tx7e_enabled);
    assert_eq!(config.mock_l1_bridge, "0x0000000000000000000000000000000000000064");
}

#[test]
fn test_new_config() {
    let config = ArbitrumConfig::new(421613, 21, 15_000_000_000);
    assert_eq!(config.chain_id, 421613);
    assert_eq!(config.arb_os_version, 21);
    assert_eq!(config.l1_base_fee, 15_000_000_000);
}

#[test]
fn test_precompile_config() {
    let config = ArbitrumConfig::default();
    assert!(config.is_precompile_enabled(
        &Address::from_hex("0x0000000000000000000000000000000000000064").unwrap()
    ));
    assert!(config.is_precompile_enabled(
        &Address::from_hex("0x000000000000000000000000000000000000006c").unwrap()
    ));
    assert!(!config.is_precompile_enabled(
        &Address::from_hex("0x0000000000000000000000000000000000000000").unwrap()
    ));
}

#[test]
fn test_l1_gas_calculation() {
    let config = ArbitrumConfig::default();
    let calldata_size = 1000;
    let gas_cost = config.calculate_l1_gas_cost(calldata_size);
    assert_eq!(gas_cost, 16000); // 1000 * 16

    let wei_cost = config.calculate_l1_gas_cost_wei(calldata_size);
    assert_eq!(wei_cost, 320_000_000_000_000); // 16000 * 20_000_000_000
}

#[test]
fn test_config_validation() {
    let mut config = ArbitrumConfig::default();
    assert!(config.validate().is_ok());

    config.chain_id = 0;
    assert!(config.validate().is_err());

    config.chain_id = 42161;
    config.arb_os_version = 0;
    assert!(config.validate().is_err());

    config.arb_os_version = 20;
    config.l1_base_fee = 0;
    assert!(config.validate().is_err());
}

#[test]
fn test_config_validation_messages() {
    let mut config = ArbitrumConfig::default();
    config.chain_id = 0;
    assert_eq!(config.validate().unwrap_err(), "Chain ID cannot be 0");
    config.chain_id = 1;
    config.gas_price_components.l2_base_fee = 0;
    assert_eq!(config.validate().unwrap_err(), "L2 base fee cannot be 0");
    config.gas_price_components.l2_base_fee = 1;
    config.gas_price_components.l1_calldata_cost = 0;
    assert_eq!(config.validate().unwrap_err(), "L1 calldata cost cannot be 0");
}

#[test]
fn test_get_precompile_fields() {
    let config = ArbitrumConfig::default();
    let sys = config
        .get_precompile(&Address::from_hex("0x0000000000000000000000000000000000000064").unwrap())
        .unwrap();
    assert_eq!(sys.name, "ArbSys");
    assert!(sys.enabled);
    let gas = config
        .get_precompile(&Address::from_hex("0x000000000000000000000000000000000000006c").unwrap())
        .unwrap();
    assert_eq!(gas.name, "ArbGasInfo");
    assert!(config
        .get_precompile(&Address::from_hex("0x0000000000000000000000000000000000000001").unwrap())
        .is_none());
}
