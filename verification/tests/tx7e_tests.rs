use anvil_arbitrum::address::Address;
use anvil_arbitrum::errors::Tx7eError;
use anvil_arbitrum::tx7e::{Tx7eParser, Tx7eProcessor, Tx7eTransaction, TX_TYPE_0X7E};
use anvil_arbitrum::u256::U256;

fn create_mock_transaction() -> Tx7eTransaction {
    Tx7eTransaction::new(
        42161, // Arbitrum One chain ID
        Address::from_hex("0x1234567890123456789012345678901234567890").unwrap(),
        U256::from_u64(1000000000000000000), // 1 ETH
        vec![0x60, 0x2b, 0x57, 0xfd],        // Some calldata
        100000,                              // Gas limit
        12345,                               // L1 block number
        1640995200,                          // L1 timestamp
        U256::from_u64(20000000000), // L1 base fee
        U256::from_u64(25000000000), // L1 gas price
        50000,                       // L1 gas used
        U256::from_u64(1000000000000000), // L1 fee
        Address::from_hex("0xabcdefabcdefabcdefabcdefabcdefabcdefabcd").unwrap(),
        vec![1u8; 32], // Source hash
    )
}

#[test]
fn test_transaction_creation() {
    let tx = create_mock_transaction();
    assert_eq!(tx.chain_id, 42161);
    assert_eq!(tx.gas_limit, 100000);
    assert_eq!(tx.l1_block_number, 12345);
}

#[test]
fn test_transaction_encoding_decoding() {
    let tx = create_mock_transaction();
    let encoded = tx.rlp_encode();
    let decoded = Tx7eTransaction::decode(&encoded).unwrap();
    assert_eq!(tx, decoded);
}

#[test]
fn test_transaction_validation() {
    let parser = Tx7eParser;
    let tx = create_mock_transaction();
    let validation = parser.validate_transaction(&tx);
    assert!(validation.isValid);
    assert!(validation.errors.is_empty());
}

#[test]
fn test_transaction_validation_errors() {
    let parser = Tx7eParser;
    let mut tx = create_mock_transaction();
    tx.chain_id = 0; // Invalid chain ID

    let validation = parser.validate_transaction(&tx);
    assert!(!validation.isValid);
    assert!(validation.errors.iter().any(|e| e.contains("chain ID")));
}

#[test]
fn test_transaction_parsing() {
    let parser = Tx7eParser;
    let tx = create_mock_transaction();
    let encoded = tx.rlp_encode();
    let mut raw_tx = vec![TX_TYPE_0X7E];
    raw_tx.extend_from_slice(&encoded);

    let parsed = parser.parse(&raw_tx).unwrap();
    assert_eq!(tx, parsed);
}

#[test]
fn test_transaction_parsing_invalid_type() {
    let parser = Tx7eParser;
    let tx = create_mock_transaction();
    let encoded = tx.rlp_encode();
    let mut raw_tx = vec![0x01]; // Wrong transaction type
    raw_tx.extend_from_slice(&encoded);

    let result = parser.parse(&raw_tx);
    assert!(result.is_err());
    assert!(result.unwrap_err().message().contains("Invalid transaction type"));
}

#[test]
fn test_transaction_processor() {
    let processor = Tx7eProcessor::new();
    let tx = create_mock_transaction();
    let encoded = tx.rlp_encode();
    let mut raw_tx = vec![TX_TYPE_0X7E];
    raw_tx.extend_from_slice(&encoded);

    let result = processor.process_transaction(&raw_tx);
    assert!(result.success);
    assert!(result.transaction.is_some());
    assert!(result.gas_used > 0);
}

#[test]
fn test_source_hash_generation() {
    let parser = Tx7eParser;
    let l1_tx_hash = vec![1u8; 32];
    let l1_block_number = 12345;
    let l1_log_index = 0;

    let source_hash = parser.generate_source_hash(&l1_tx_hash, l1_block_number, l1_log_index);
    assert_eq!(source_hash.len(), 32);
    assert_ne!(source_hash, vec![0u8; 32]);
}

#[test]
fn test_transaction_request_conversion() {
    let parser = Tx7eParser;
    let tx = create_mock_transaction();
    let request = parser.to_transaction_request(&tx);

    assert_eq!(request.to, Some(tx.target));
    assert_eq!(request.value, Some(tx.value));
    assert_eq!(request.chain_id, Some(tx.chain_id));
}

#[test]
fn test_processor_gas_usage() {
    // gasLimit 100000, 4 bytes of calldata, nonzero value:
    // gas = min(100000, 21000 + 4 * 16 + 9000) = 30064
    let processor = Tx7eProcessor::new();
    let tx = create_mock_transaction();
    assert_eq!(processor.calculate_gas_usage(&tx), 30064);

    let encoded = tx.rlp_encode();
    let mut raw_tx = vec![TX_TYPE_0X7E];
    raw_tx.extend_from_slice(&encoded);
    let result = processor.process_transaction(&raw_tx);
    assert!(result.success);
    assert_eq!(result.gas_used, 30064);
    assert_eq!(result.l1_cost, U256::from_u64(1000000000000000));
}

#[test]
fn test_processor_gas_capped_by_limit() {
    let mut tx = create_mock_transaction();
    tx.gas_limit = 25000;
    let processor = Tx7eProcessor::new();
    assert_eq!(processor.calculate_gas_usage(&tx), 25000);
}

#[test]
fn test_validator_chain_id_only_failure() {
    // an envelope with chain id zero and every other field valid earns
    // exactly one message, and it mentions the chain id
    let parser = Tx7eParser;
    let mut tx = create_mock_transaction();
    tx.chain_id = 0;
    let validation = parser.validate_transaction(&tx);
    assert!(!validation.isValid);
    assert_eq!(validation.errors.len(), 1);
    assert!(validation.errors[0].contains("chain ID"));
}

#[test]
fn test_validator_accumulates_all_failures() {
    let parser = Tx7eParser;
    let mut tx = create_mock_transaction();
    tx.chain_id = 0;
    tx.gas_limit = 0;
    tx.l1_timestamp = 0;
    tx.source_hash = vec![0u8; 32];
    let validation = parser.validate_transaction(&tx);
    assert!(!validation.isValid);
    assert_eq!(validation.errors.len(), 4);
}

#[test]
fn test_processor_reports_parse_failure() {
    let processor = Tx7eProcessor::new();
    let result = processor.process_transaction(&[]);
    assert!(!result.success);
    assert!(result.error.starts_with("Parsing failed: "));
    assert!(result.transaction.is_none());
    assert_eq!(result.gas_used, 0);
    assert_eq!(result.l1_cost, U256::zero());
}

#[test]
fn test_processor_reports_validation_failure() {
    let processor = Tx7eProcessor::new();
    let mut tx = create_mock_transaction();
    tx.chain_id = 0;
    let encoded = tx.rlp_encode();
    let mut raw_tx = vec![TX_TYPE_0X7E];
    raw_tx.extend_from_slice(&encoded);
    let result = processor.process_transaction(&raw_tx);
    assert!(!result.success);
    assert_eq!(result.error, "Validation failed: Invalid chain ID: cannot be zero");
    assert!(result.transaction.is_none());
}

#[test]
fn test_parse_empty_input() {
    let parser = Tx7eParser;
    assert_eq!(parser.parse(&[]).unwrap_err(), Tx7eError::Empty);
}

#[test]
fn test_parse_wrong_type_tag_ignores_rest() {
    // any first byte other than 0x7e fails with the type error, whatever the
    // rest of the bytes hold
    let parser = Tx7eParser;
    assert_eq!(parser.parse(&[0x02]).unwrap_err(), Tx7eError::WrongType);
    assert_eq!(parser.parse(&[0x00, 0x7e, 0x7e]).unwrap_err(), Tx7eError::WrongType);
    assert_eq!(parser.parse(&[0xff, 0x01, 0x02, 0x03]).unwrap_err(), Tx7eError::WrongType);
}

#[test]
fn test_decode_wrong_arity() {
    // a list of twelve empty strings, and one of fourteen, both fail with the
    // arity error
    let mut twelve = vec![0xc0u8 + 12];
    twelve.extend_from_slice(&[0x80u8; 12]);
    assert_eq!(Tx7eTransaction::decode(&twelve).unwrap_err(), Tx7eError::WrongArity);

    let mut fourteen = vec![0xc0u8 + 14];
    fourteen.extend_from_slice(&[0x80u8; 14]);
    assert_eq!(Tx7eTransaction::decode(&fourteen).unwrap_err(), Tx7eError::WrongArity);
}

#[test]
fn test_decode_field_length_errors() {
    // a 19-byte target address fails with the length error
    let mut tx = create_mock_transaction();
    let good = tx.rlp_encode();
    assert!(Tx7eTransaction::decode(&good).is_ok());

    // re-encode with a 19-byte target by hand: splice the target item
    // (21 bytes at offset 11 of the canonical encoding: 2 list header bytes,
    // then the 9-byte chain id item) down to 20 bytes
    tx.source_hash = vec![2u8; 32];
    let encoded = tx.rlp_encode();
    let mut bad = Vec::new();
    // list header for one byte less of payload
    assert_eq!(encoded[0], 0xf8);
    bad.push(0xf8);
    bad.push(encoded[1] - 1);
    // chain id item: 0x82 0xa4 0xb1
    bad.extend_from_slice(&encoded[2..5]);
    // target: 0x93 then 19 bytes instead of 0x94 then 20
    bad.push(0x93);
    bad.extend_from_slice(&encoded[6..25]);
    // everything after the target item unchanged
    bad.extend_from_slice(&encoded[26..]);
    assert_eq!(Tx7eTransaction::decode(&bad).unwrap_err(), Tx7eError::InvalidLength);
}

#[test]
fn test_decode_integer_format_error() {
    // a chain id with a leading zero byte is rejected
    let mut bad = vec![0xc0u8 + 13 + 2];
    bad.push(0x82); // two-byte integer
    bad.push(0x00); // leading zero
    bad.push(0x01);
    bad.extend_from_slice(&[0x80u8; 12]);
    assert_eq!(Tx7eTransaction::decode(&bad).unwrap_err(), Tx7eError::IntegerFormat);
}

#[test]
fn test_decode_malformed() {
    assert_eq!(Tx7eTransaction::decode(&[0x81]).unwrap_err(), Tx7eError::Malformed);
    assert_eq!(Tx7eTransaction::decode(&[0x80]).unwrap_err(), Tx7eError::Malformed);
    // trailing bytes after the list are rejected
    let tx = create_mock_transaction();
    let mut encoded = tx.rlp_encode();
    encoded.push(0x00);
    assert_eq!(Tx7eTransaction::decode(&encoded).unwrap_err(), Tx7eError::Malformed);
}

#[test]
fn test_round_trip_minimal_fields() {
    // zero integers and empty calldata still round-trip
    let tx = Tx7eTransaction::new(
        0,
        Address::new([0u8; 20]),
        U256::zero(),
        vec![],
        0,
        0,
        0,
        U256::zero(),
        U256::zero(),
        0,
        U256::zero(),
        Address::new([0u8; 20]),
        vec![0u8; 32],
    );
    let encoded = tx.rlp_encode();
    let decoded = Tx7eTransaction::decode(&encoded).unwrap();
    assert_eq!(tx, decoded);
}

#[test]
fn test_round_trip_long_calldata() {
    // calldata beyond 55 bytes exercises the long-form item header
    let mut tx = create_mock_transaction();
    tx.data = (0..300u32).map(|i| (i % 251) as u8).collect();
    let encoded = tx.rlp_encode();
    let decoded = Tx7eTransaction::decode(&encoded).unwrap();
    assert_eq!(tx, decoded);
}

#[test]
fn test_effective_gas_price() {
    let mut tx = create_mock_transaction();
    assert_eq!(tx.effective_gas_price(), U256::from_u64(20000000000));
    tx.l1_gas_used = 0;
    assert_eq!(tx.effective_gas_price(), U256::zero());
    assert_eq!(tx.total_l1_cost(), U256::from_u64(1000000000000000));
}
