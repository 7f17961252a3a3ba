use anvil_arbitrum::address::Address;
use anvil_arbitrum::cli::{u64_to_dec, AnvilArbitrumArgs};
use anvil_arbitrum::tx7e::{Tx7eParser, Tx7eTransaction, TX_TYPE_0X7E};
use anvil_arbitrum::u256::U256;
use sha3::Digest;

fn mock_transaction() -> Tx7eTransaction {
    Tx7eTransaction::new(
        42161,
        Address::from_hex("0x1234567890123456789012345678901234567890").unwrap(),
        U256::from_u64(1000000000000000000),
        vec![0x60, 0x2b, 0x57, 0xfd],
        100000,
        12345,
        1640995200,
        U256::from_u64(20000000000),
        U256::from_u64(25000000000),
        50000,
        U256::from_u64(1000000000000000),
        Address::from_hex("0xabcdefabcdefabcdefabcdefabcdefabcdefabcd").unwrap(),
        vec![1u8; 32],
    )
}

#[test]
fn test_encoding_matches_reference_codec() {
    // the canonical list encoding is bit-exact with the reference RLP codec
    let tx = mock_transaction();
    let ours = tx.rlp_encode();

    let mut stream = rlp::RlpStream::new();
    stream.begin_list(13);
    stream.append(&tx.chain_id);
    stream.append(&tx.target.as_bytes().to_vec());
    stream.append(&tx.value.to_big_endian());
    stream.append(&tx.data);
    stream.append(&tx.gas_limit);
    stream.append(&tx.l1_block_number);
    stream.append(&tx.l1_timestamp);
    stream.append(&tx.l1_base_fee.to_big_endian());
    stream.append(&tx.l1_gas_price.to_big_endian());
    stream.append(&tx.l1_gas_used);
    stream.append(&tx.l1_fee.to_big_endian());
    stream.append(&tx.refund_address.as_bytes().to_vec());
    stream.append(&tx.source_hash);
    let reference = stream.out().to_vec();

    assert_eq!(ours, reference);
}

#[test]
fn test_reference_codec_decodes_our_bytes() {
    let tx = mock_transaction();
    let encoded = tx.rlp_encode();
    let parsed = rlp::Rlp::new(&encoded);
    assert_eq!(parsed.item_count().unwrap(), 13);
    assert_eq!(parsed.val_at::<u64>(0).unwrap(), 42161);
    assert_eq!(parsed.val_at::<Vec<u8>>(1).unwrap(), tx.target.as_bytes().clone());
    assert_eq!(parsed.val_at::<u64>(4).unwrap(), 100000);
    assert_eq!(parsed.val_at::<Vec<u8>>(12).unwrap(), vec![1u8; 32]);
}

#[test]
fn test_hash_is_keccak_of_wire_bytes() {
    // the transaction hash is the Keccak-256 digest of the tag plus the
    // canonical encoding
    let tx = mock_transaction();
    let mut wire = vec![TX_TYPE_0X7E];
    wire.extend_from_slice(&tx.rlp_encode());
    let expected: [u8; 32] = sha3::Keccak256::digest(&wire).into();
    assert_eq!(tx.hash(), expected.to_vec());
}

#[test]
fn test_source_hash_matches_direct_digest() {
    let parser = Tx7eParser;
    let l1_tx_hash = vec![7u8; 32];
    let got = parser.generate_source_hash(&l1_tx_hash, 12345, 3);
    let mut buf = Vec::new();
    buf.extend_from_slice(&l1_tx_hash);
    buf.extend_from_slice(&12345u64.to_be_bytes());
    buf.extend_from_slice(&3u64.to_be_bytes());
    let expected: [u8; 32] = sha3::Keccak256::digest(&buf).into();
    assert_eq!(got, expected.to_vec());
}

fn default_args() -> AnvilArbitrumArgs {
    AnvilArbitrumArgs {
        arbitrum: false,
        chain_id: Some(42161),
        arb_os_version: Some(20),
        l1_base_fee: Some(20000000000),
        gas_config: None,
        enable_tx7e: false,
        mock_l1_bridge: false,
        host: "127.0.0.1".to_string(),
        port: 8545,
        accounts: 10,
        balance: 10000,
        gas_limit: 30000000,
        gas_price: 20000000000,
        block_time: 0,
        anvil_chain_id: 31337,
        base_fee: 1000000000,
        timestamp: None,
        fork: None,
        fork_block_number: None,
        no_mining: false,
        silent: false,
        verbose: false,
        help: false,
    }
}

#[test]
fn test_get_anvil_args_base_flags() {
    let args = default_args().get_anvil_args();
    assert_eq!(
        args,
        vec![
            "--host=127.0.0.1",
            "--port=8545",
            "--accounts=10",
            "--balance=10000",
            "--gas-limit=30000000",
            "--gas-price=20000000000",
            "--block-time=0",
            "--chain-id=31337",
            "--base-fee=1000000000",
        ]
    );
}

#[test]
fn test_get_anvil_args_optional_flags() {
    let mut a = default_args();
    a.timestamp = Some(1640995200);
    a.fork = Some("http://localhost:8545".to_string());
    a.fork_block_number = Some(42);
    a.no_mining = true;
    a.silent = true;
    a.verbose = true;
    let args = a.get_anvil_args();
    assert_eq!(args.len(), 15);
    assert_eq!(args[9], "--timestamp=1640995200");
    assert_eq!(args[10], "--fork=http://localhost:8545");
    assert_eq!(args[11], "--fork-block-number=42");
    assert_eq!(args[12], "--no-mining");
    assert_eq!(args[13], "--silent");
    assert_eq!(args[14], "--verbose");
}

#[test]
fn test_u64_to_dec() {
    assert_eq!(u64_to_dec(0), "0");
    assert_eq!(u64_to_dec(7), "7");
    assert_eq!(u64_to_dec(30064), "30064");
    assert_eq!(u64_to_dec(u64::MAX), "18446744073709551615");
}
