use anvil_arbitrum::address::Address;
use anvil_arbitrum::config::ArbitrumConfig;
use anvil_arbitrum::errors::{AddressError, PrecompileError};
use anvil_arbitrum::precompiles::{ArbGasInfoHandler, ArbSysHandler, PrecompileRegistry};
use anvil_arbitrum::u256::U256;

#[test]
fn test_address_from_hex() {
    let addr = Address::from_hex("0x1234567890123456789012345678901234567890").unwrap();
    assert_eq!(addr.as_bytes()[0], 0x12);
    assert_eq!(addr.as_bytes()[19], 0x90);
}

#[test]
fn test_u256_from_u64() {
    let value = U256::from_u64(255);
    let bytes = value.to_big_endian();
    assert_eq!(bytes[31], 255);
}

#[test]
fn test_arbsys_handler() {
    let handler = ArbSysHandler::new();
    assert_eq!(handler.name(), "ArbSys");
    assert_eq!(
        handler.address(),
        Address::from_hex("0x0000000000000000000000000000000000000064").unwrap()
    );
}

#[test]
fn test_arbgasinfo_handler() {
    let handler = ArbGasInfoHandler::new();
    assert_eq!(handler.name(), "ArbGasInfo");
    assert_eq!(
        handler.address(),
        Address::from_hex("0x000000000000000000000000000000000000006c").unwrap()
    );
}

#[test]
fn test_precompile_registry() {
    let registry = PrecompileRegistry::default();
    assert!(registry
        .has_handler(&Address::from_hex("0x0000000000000000000000000000000000000064").unwrap()));
    assert!(registry
        .has_handler(&Address::from_hex("0x000000000000000000000000000000000000006c").unwrap()));
    assert!(!registry
        .has_handler(&Address::from_hex("0x0000000000000000000000000000000000000000").unwrap()));
}

#[test]
fn test_arbsys_calls() {
    let handler = ArbSysHandler::new();
    let config = ArbitrumConfig::new(42161, 20, 20_000_000_000);

    // arbChainID()
    let input = hex::decode("d127f54a").unwrap();
    let result = handler.handle_call(&input, &config).unwrap();
    let chain_id = U256::from_big_endian(&result);
    assert_eq!(chain_id, U256::from_u64(42161));

    // arbOSVersion()
    let input = hex::decode("051038f2").unwrap();
    let result = handler.handle_call(&input, &config).unwrap();
    let version = U256::from_big_endian(&result);
    assert_eq!(version, U256::from_u64(20));
}

#[test]
fn test_arbgasinfo_calls() {
    let handler = ArbGasInfoHandler::new();
    let config = ArbitrumConfig::new(42161, 20, 20_000_000_000);

    // getCurrentTxL1GasFees() on a four-byte, all-nonzero input:
    // rawGas = 4 * 16 = 64, discounted = 64 * 9 / 10 = 57,
    // fee = 57 * 20_000_000_000
    let input = hex::decode("c6f7de0e").unwrap();
    let result = handler.handle_call(&input, &config).unwrap();
    let fee = U256::from_big_endian(&result);
    assert_eq!(fee, U256::from_u64(1_140_000_000_000));
}

#[test]
fn test_arbsys_block_number_is_mock() {
    let handler = ArbSysHandler::new();
    let config = ArbitrumConfig::default();
    let input = hex::decode("a3b1b31d").unwrap();
    let result = handler.handle_call(&input, &config).unwrap();
    assert_eq!(U256::from_big_endian(&result), U256::from_u64(1));
}

#[test]
fn test_gas_fee_counts_zero_bytes() {
    // selector plus four zero payload bytes: 4 nonzero + 4 zero bytes;
    // rawGas = 4*16 + 4*4 = 80, discounted = 72, fee = 72 * 20_000_000_000
    let handler = ArbGasInfoHandler::new();
    let config = ArbitrumConfig::default();
    let mut input = hex::decode("c6f7de0e").unwrap();
    input.extend_from_slice(&[0u8, 0, 0, 0]);
    let result = handler.handle_call(&input, &config).unwrap();
    assert_eq!(U256::from_big_endian(&result), U256::from_u64(1_440_000_000_000));
}

#[test]
fn test_prices_in_wei_words() {
    let handler = ArbGasInfoHandler::new();
    let config = ArbitrumConfig::default();
    let input = hex::decode("41b247a8").unwrap();
    let result = handler.handle_call(&input, &config).unwrap();
    assert_eq!(result.len(), 192);
    let words: Vec<U256> = result.chunks(32).map(U256::from_big_endian).collect();
    assert_eq!(words[0], U256::from_u64(1_000_000_000)); // l2 base fee
    assert_eq!(words[1], U256::from_u64(16)); // l1 calldata cost
    assert_eq!(words[2], U256::from_u64(320_000_000_000)); // l1 byte price
    assert_eq!(words[3], U256::from_u64(1_000_000_000)); // l2 base fee again
    assert_eq!(words[4], U256::from_u64(0)); // congestion fee
    assert_eq!(words[5], U256::from_u64(1_000_000_000)); // minimum gas price
}

#[test]
fn test_prices_in_wei_aggregator_alias() {
    let handler = ArbGasInfoHandler::new();
    let config = ArbitrumConfig::default();
    let base = handler.handle_call(&hex::decode("41b247a8").unwrap(), &config).unwrap();
    let alias = handler.handle_call(&hex::decode("ba9c916e").unwrap(), &config).unwrap();
    assert_eq!(base, alias);
}

#[test]
fn test_prices_in_arb_gas_words() {
    let handler = ArbGasInfoHandler::new();
    let config = ArbitrumConfig::default();
    let result = handler.handle_call(&hex::decode("02199f34").unwrap(), &config).unwrap();
    assert_eq!(result.len(), 96);
    let words: Vec<U256> = result.chunks(32).map(U256::from_big_endian).collect();
    assert_eq!(words[0], U256::from_u64(1_000_000_000));
    assert_eq!(words[1], U256::from_u64(16));
    assert_eq!(words[2], U256::from_u64(0));
    let alias = handler.handle_call(&hex::decode("7a1ea732").unwrap(), &config).unwrap();
    assert_eq!(result, alias);
}

#[test]
fn test_gas_accounting_params() {
    let handler = ArbGasInfoHandler::new();
    let config = ArbitrumConfig::default();
    let result = handler.handle_call(&hex::decode("612af178").unwrap(), &config).unwrap();
    let words: Vec<U256> = result.chunks(32).map(U256::from_big_endian).collect();
    assert_eq!(words[0], U256::from_u64(120_000_000));
    assert_eq!(words[1], U256::from_u64(32_000_000));
    assert_eq!(words[2], U256::from_u64(32_000_000));
}

#[test]
fn test_single_word_selectors() {
    let handler = ArbGasInfoHandler::new();
    let config = ArbitrumConfig::default();
    let base_fee = handler.handle_call(&hex::decode("f5d6ded7").unwrap(), &config).unwrap();
    assert_eq!(U256::from_big_endian(&base_fee), U256::from_u64(20_000_000_000));
    let l2_fee = handler.handle_call(&hex::decode("d5b89ac1").unwrap(), &config).unwrap();
    assert_eq!(U256::from_big_endian(&l2_fee), U256::from_u64(1_000_000_000));
    let min_price = handler.handle_call(&hex::decode("f918379a").unwrap(), &config).unwrap();
    assert_eq!(U256::from_big_endian(&min_price), U256::from_u64(1_000_000_000));
    let bips = handler.handle_call(&hex::decode("7741647c").unwrap(), &config).unwrap();
    assert_eq!(U256::from_big_endian(&bips), U256::from_u64(10_000));
    let blob = handler.handle_call(&hex::decode("1f6d6ef7").unwrap(), &config).unwrap();
    assert_eq!(U256::from_big_endian(&blob), U256::from_u64(1));
}

#[test]
fn test_precompile_errors() {
    let registry = PrecompileRegistry::default();
    let config = ArbitrumConfig::default();
    let sys = Address::from_hex("0x0000000000000000000000000000000000000064").unwrap();
    let absent = Address::from_hex("0x00000000000000000000000000000000000000ff").unwrap();

    let r = registry.handle_call(absent, &[0xd1, 0x27, 0xf5, 0x4a], &config);
    assert_eq!(r.unwrap_err(), PrecompileError::NotFound);

    let r = registry.handle_call(sys.clone(), &[0xd1, 0x27], &config);
    assert_eq!(r.unwrap_err(), PrecompileError::InputTooShort);

    let r = registry.handle_call(sys, &[0xff, 0xff, 0xff, 0xff], &config);
    assert_eq!(r.unwrap_err(), PrecompileError::UnknownSelector);
}

#[test]
fn test_handle_call_deterministic() {
    let registry = PrecompileRegistry::default();
    let config = ArbitrumConfig::default();
    let addr = Address::from_hex("0x000000000000000000000000000000000000006c").unwrap();
    let input = hex::decode("c6f7de0e0011223344").unwrap();
    let first = registry.handle_call(addr.clone(), &input, &config).unwrap();
    let second = registry.handle_call(addr, &input, &config).unwrap();
    assert_eq!(first, second);
}

#[test]
fn test_registry_addresses() {
    let registry = PrecompileRegistry::default();
    let addresses = registry.get_addresses();
    assert_eq!(addresses.len(), 2);
    assert_eq!(
        addresses[0],
        Address::from_hex("0x0000000000000000000000000000000000000064").unwrap()
    );
    assert_eq!(
        addresses[1],
        Address::from_hex("0x000000000000000000000000000000000000006c").unwrap()
    );
}

#[test]
fn test_address_from_hex_lengths() {
    // 39 and 41 hex characters are rejected, with or without the prefix
    assert_eq!(
        Address::from_hex("0x123456789012345678901234567890123456789").unwrap_err(),
        AddressError::InvalidLength
    );
    assert_eq!(
        Address::from_hex("0x12345678901234567890123456789012345678901").unwrap_err(),
        AddressError::InvalidLength
    );
    assert_eq!(Address::from_hex("").unwrap_err(), AddressError::InvalidLength);
    // exactly 40 without the prefix parses
    let addr = Address::from_hex("1234567890123456789012345678901234567890").unwrap();
    assert_eq!(addr.as_bytes()[0], 0x12);
    // a non-hex character among 40 is a digit error
    assert_eq!(
        Address::from_hex("0x123456789012345678901234567890123456789g").unwrap_err(),
        AddressError::InvalidDigit
    );
}

#[test]
fn test_address_to_hex_string() {
    let addr = Address::from_hex("0x1234567890ABCDEF89012345678901234567890a").unwrap();
    assert_eq!(addr.to_hex_string(), "0x1234567890abcdef89012345678901234567890a");
}

#[test]
fn test_u256_saturating_arithmetic() {
    // the saturating sum agrees with the wrapping sum while the true sum fits
    let a = U256::from_u64(6);
    let b = U256::from_u64(7);
    assert_eq!(a.add(&b), U256::from_u64(13));
    assert_eq!(a.saturating_add(&b), U256::from_u64(13));
    assert_eq!(a.saturating_mul(&b), U256::from_u64(42));

    // past the top, wrapping rolls over and saturating sticks at the maximum
    let one = U256::from_u64(1);
    assert_eq!(U256::max().add(&one), U256::zero());
    assert_eq!(U256::max().saturating_add(&one), U256::max());
    assert_eq!(U256::max().saturating_mul(&U256::from_u64(2)), U256::max());

    // a product of two large halves saturates
    let mut big = [0u8; 32];
    big[15] = 1; // 2^128
    let big = U256::new(big);
    assert_eq!(big.saturating_mul(&big), U256::max());
}

#[test]
fn test_u256_conversions() {
    // from_big_endian left-pads short input and keeps the first 32 bytes of
    // long input
    let v = U256::from_big_endian(&[0x01, 0x02]);
    let bytes = v.to_big_endian();
    assert_eq!(bytes[30], 0x01);
    assert_eq!(bytes[31], 0x02);
    assert_eq!(v, U256::from_u64(0x0102));

    let mut long = vec![0u8; 33];
    long[0] = 0xaa;
    long[32] = 0xbb; // dropped: only the first 32 bytes are kept
    let v = U256::from_big_endian(&long);
    assert_eq!(v.to_big_endian()[0], 0xaa);
    assert_eq!(v.to_big_endian()[31], 0x00);

    assert_eq!(U256::zero(), U256::from_u64(0));
    assert_eq!(U256::new([0xffu8; 32]), U256::max());
}

#[test]
fn test_u256_div_by_u64() {
    assert_eq!(U256::from_u64(576).div_by_u64(10), U256::from_u64(57));
    assert_eq!(U256::from_u64(575).div_by_u64(10), U256::from_u64(57));
    assert_eq!(U256::zero().div_by_u64(7), U256::zero());
    assert_eq!(U256::max().div_by_u64(1), U256::max());
}

#[test]
fn test_address_hex_round_trip() {
    let text = "0xabcdefabcdefabcdefabcdefabcdefabcdefabcd";
    let addr = Address::from_hex(text).unwrap();
    assert_eq!(addr.to_hex_string(), text);
    let again = Address::from_hex(&addr.to_hex_string()).unwrap();
    assert_eq!(addr, again);
}
