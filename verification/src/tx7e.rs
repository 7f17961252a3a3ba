//! The type `0x7e` deposit transaction: the 13-field envelope, its canonical
//! binary codec with the round-trip law, wire parsing, validation, and the
//! gas/cost processing pipeline.

use vstd::prelude::*;

use crate::address::Address;
use crate::codec::{
    append_str_item, append_uint_item, be_bytes_to_u64, enc_list, enc_str, enc_uint, parse_header,
    scan_items, spec_items, spec_parse_header, uint_ok, wrap_list,
};
use crate::errors::Tx7eError;
use crate::u256::{pad32, U256};
use crate::words::{
    be_fixed, be_val, lemma_be_val_bound, lemma_min_be_len, lemma_min_be_val, lemma_u64_bound_pow,
    min_be, pow256,
};

verus! {

/// The wire type tag of a deposit transaction.
pub const TX_TYPE_0X7E: u8 = 0x7e;

/// The mathematical content of an envelope: every byte field as a sequence.
pub struct TxView {
    pub chain_id: u64,
    pub target: Seq<u8>,
    pub value: Seq<u8>,
    pub data: Seq<u8>,
    pub gas_limit: u64,
    pub l1_block_number: u64,
    pub l1_timestamp: u64,
    pub l1_base_fee: Seq<u8>,
    pub l1_gas_price: Seq<u8>,
    pub l1_gas_used: u64,
    pub l1_fee: Seq<u8>,
    pub refund_address: Seq<u8>,
    pub source_hash: Seq<u8>,
}

/// A valid envelope: fixed-size fields at their fixed sizes, and calldata
/// that a machine can hold.
pub open spec fn tx_wf(t: TxView) -> bool {
    &&& t.target.len() == 20
    &&& t.value.len() == 32
    &&& t.l1_base_fee.len() == 32
    &&& t.l1_gas_price.len() == 32
    &&& t.l1_fee.len() == 32
    &&& t.refund_address.len() == 20
    &&& t.source_hash.len() == 32
    &&& t.data.len() < pow256(8)
}

/// A deposit transaction of type `0x7e`, with its 13 canonical fields.
#[derive(Debug)]
pub struct Tx7eTransaction {
    pub chain_id: u64,
    pub target: Address,
    pub value: U256,
    pub data: Vec<u8>,
    pub gas_limit: u64,
    pub l1_block_number: u64,
    pub l1_timestamp: u64,
    pub l1_base_fee: U256,
    pub l1_gas_price: U256,
    pub l1_gas_used: u64,
    pub l1_fee: U256,
    pub refund_address: Address,
    pub source_hash: Vec<u8>,
}

impl View for Tx7eTransaction {
    type V = TxView;

    open spec fn view(&self) -> TxView {
        TxView {
            chain_id: self.chain_id,
            target: self.target@,
            value: self.value@,
            data: self.data@,
            gas_limit: self.gas_limit,
            l1_block_number: self.l1_block_number,
            l1_timestamp: self.l1_timestamp,
            l1_base_fee: self.l1_base_fee@,
            l1_gas_price: self.l1_gas_price@,
            l1_gas_used: self.l1_gas_used,
            l1_fee: self.l1_fee@,
            refund_address: self.refund_address@,
            source_hash: self.source_hash@,
        }
    }
}

/// The canonical list payload: the 13 fields' item encodings in order.
pub open spec fn spec_payload(t: TxView) -> Seq<u8> {
    enc_uint(t.chain_id as nat) + enc_str(t.target) + enc_str(t.value) + enc_str(t.data) + enc_uint(
        t.gas_limit as nat,
    ) + enc_uint(t.l1_block_number as nat) + enc_uint(t.l1_timestamp as nat) + enc_str(
        t.l1_base_fee,
    ) + enc_str(t.l1_gas_price) + enc_uint(t.l1_gas_used as nat) + enc_str(t.l1_fee) + enc_str(
        t.refund_address,
    ) + enc_str(t.source_hash)
}

/// The canonical encoding of an envelope: its payload behind a list header.
pub open spec fn spec_encode(t: TxView) -> Seq<u8> {
    enc_list(spec_payload(t))
}

/// Decoding of the field items of a 13-item list, with the errors each bad
/// field earns, checked in field order.
pub open spec fn spec_decode_fields(items: Seq<(bool, Seq<u8>)>) -> Result<TxView, Tx7eError>
    recommends
        items.len() == 13,
{
    if items[0].0 {
        Err(Tx7eError::Malformed)
    } else if !uint_ok(items[0].1) {
        Err(Tx7eError::IntegerFormat)
    } else if items[1].0 {
        Err(Tx7eError::Malformed)
    } else if items[2].0 {
        Err(Tx7eError::Malformed)
    } else if items[3].0 {
        Err(Tx7eError::Malformed)
    } else if items[4].0 {
        Err(Tx7eError::Malformed)
    } else if !uint_ok(items[4].1) {
        Err(Tx7eError::IntegerFormat)
    } else if items[5].0 {
        Err(Tx7eError::Malformed)
    } else if !uint_ok(items[5].1) {
        Err(Tx7eError::IntegerFormat)
    } else if items[6].0 {
        Err(Tx7eError::Malformed)
    } else if !uint_ok(items[6].1) {
        Err(Tx7eError::IntegerFormat)
    } else if items[7].0 {
        Err(Tx7eError::Malformed)
    } else if items[8].0 {
        Err(Tx7eError::Malformed)
    } else if items[9].0 {
        Err(Tx7eError::Malformed)
    } else if !uint_ok(items[9].1) {
        Err(Tx7eError::IntegerFormat)
    } else if items[10].0 {
        Err(Tx7eError::Malformed)
    } else if items[11].0 {
        Err(Tx7eError::Malformed)
    } else if items[12].0 {
        Err(Tx7eError::Malformed)
    } else if items[1].1.len() != 20 {
        Err(Tx7eError::InvalidLength)
    } else if items[11].1.len() != 20 {
        Err(Tx7eError::InvalidLength)
    } else if items[12].1.len() != 32 {
        Err(Tx7eError::InvalidLength)
    } else {
        Ok(
            TxView {
                chain_id: be_val(items[0].1) as u64,
                target: items[1].1,
                value: pad32(items[2].1),
                data: items[3].1,
                gas_limit: be_val(items[4].1) as u64,
                l1_block_number: be_val(items[5].1) as u64,
                l1_timestamp: be_val(items[6].1) as u64,
                l1_base_fee: pad32(items[7].1),
                l1_gas_price: pad32(items[8].1),
                l1_gas_used: be_val(items[9].1) as u64,
                l1_fee: pad32(items[10].1),
                refund_address: items[11].1,
                source_hash: items[12].1,
            },
        )
    }
}

/// Decoding of canonical list bytes into an envelope: the bytes must hold a
/// single list of exactly 13 items with well-formed fields.
pub open spec fn spec_decode(bytes: Seq<u8>) -> Result<TxView, Tx7eError> {
    match spec_parse_header(bytes, 0) {
        None => Err(Tx7eError::Malformed),
        Some((is_list, ps, pl)) => {
            if !is_list {
                Err(Tx7eError::Malformed)
            } else if ps + pl != bytes.len() {
                Err(Tx7eError::Malformed)
            } else {
                match spec_items(bytes, ps, ps + pl) {
                    None => Err(Tx7eError::Malformed),
                    Some(items) => {
                        if items.len() != 13 {
                            Err(Tx7eError::WrongArity)
                        } else {
                            spec_decode_fields(items)
                        }
                    },
                }
            }
        },
    }
}

impl Tx7eTransaction {
    /// Builds an envelope from its 13 fields, in canonical order.
    pub fn new(
        chain_id: u64,
        target: Address,
        value: U256,
        data: Vec<u8>,
        gas_limit: u64,
        l1_block_number: u64,
        l1_timestamp: u64,
        l1_base_fee: U256,
        l1_gas_price: U256,
        l1_gas_used: u64,
        l1_fee: U256,
        refund_address: Address,
        source_hash: Vec<u8>,
    ) -> (r: Self)
        requires
            source_hash@.len() == 32,
        ensures
            r@.chain_id == chain_id,
            r@.target == target@,
            r@.value == value@,
            r@.data == data@,
            r@.gas_limit == gas_limit,
            r@.l1_block_number == l1_block_number,
            r@.l1_timestamp == l1_timestamp,
            r@.l1_base_fee == l1_base_fee@,
            r@.l1_gas_price == l1_gas_price@,
            r@.l1_gas_used == l1_gas_used,
            r@.l1_fee == l1_fee@,
            r@.refund_address == refund_address@,
            r@.source_hash == source_hash@,
            tx_wf(r@),
    {
        proof {
            use_type_invariant(&target);
            use_type_invariant(&value);
            use_type_invariant(&l1_base_fee);
            use_type_invariant(&l1_gas_price);
            use_type_invariant(&l1_fee);
            use_type_invariant(&refund_address);
        }
        let data_len = data.len();
        proof {
            lemma_u64_bound_pow(data_len as u64);
        }
        Tx7eTransaction {
            chain_id,
            target,
            value,
            data,
            gas_limit,
            l1_block_number,
            l1_timestamp,
            l1_base_fee,
            l1_gas_price,
            l1_gas_used,
            l1_fee,
            refund_address,
            source_hash,
        }
    }

    /// Encodes the envelope into its canonical list bytes.
    pub fn rlp_encode(&self) -> (r: Vec<u8>)
        ensures
            r@ == spec_encode(self@),
    {
        proof {
            use_type_invariant(&self.target);
            use_type_invariant(&self.value);
            use_type_invariant(&self.l1_base_fee);
            use_type_invariant(&self.l1_gas_price);
            use_type_invariant(&self.l1_fee);
            use_type_invariant(&self.refund_address);
        }
        let mut payload: Vec<u8> = Vec::new();
        append_uint_item(&mut payload, self.chain_id);
        append_str_item(&mut payload, self.target.as_bytes());
        let value_bytes = self.value.to_big_endian();
        append_str_item(&mut payload, &value_bytes);
        append_str_item(&mut payload, &self.data);
        append_uint_item(&mut payload, self.gas_limit);
        append_uint_item(&mut payload, self.l1_block_number);
        append_uint_item(&mut payload, self.l1_timestamp);
        let base_fee_bytes = self.l1_base_fee.to_big_endian();
        append_str_item(&mut payload, &base_fee_bytes);
        let gas_price_bytes = self.l1_gas_price.to_big_endian();
        append_str_item(&mut payload, &gas_price_bytes);
        append_uint_item(&mut payload, self.l1_gas_used);
        let fee_bytes = self.l1_fee.to_big_endian();
        append_str_item(&mut payload, &fee_bytes);
        append_str_item(&mut payload, self.refund_address.as_bytes());
        append_str_item(&mut payload, &self.source_hash);
        proof {
            assert(payload@ =~= spec_payload(self@));
        }
        wrap_list(payload)
    }

    /// Decodes canonical list bytes into an envelope, with the errors of
    /// `spec_decode`.
    pub fn decode(bytes: &[u8]) -> (r: Result<Self, Tx7eError>)
        ensures
            match r {
                Ok(tx) => spec_decode(bytes@) == Ok::<TxView, Tx7eError>(tx@) && tx_wf(tx@),
                Err(e) => spec_decode(bytes@) == Err::<TxView, Tx7eError>(e),
            },
    {
        let n = bytes.len();
        let h = match parse_header(bytes, 0) {
            Some(h) => h,
            None => {
                return Err(Tx7eError::Malformed);
            },
        };
        let (is_list, ps, pl) = h;
        if !is_list {
            return Err(Tx7eError::Malformed);
        }
        if ps + pl != n {
            return Err(Tx7eError::Malformed);
        }
        let scanned = match scan_items(bytes, ps, ps + pl) {
            Some(p) => p,
            None => {
                return Err(Tx7eError::Malformed);
            },
        };
        let (flags, payloads) = scanned;
        if flags.len() != 13 {
            return Err(Tx7eError::WrongArity);
        }
        let ghost items = spec_items(bytes@, ps as int, (ps + pl) as int).unwrap();
        if flags[0] {
            return Err(Tx7eError::Malformed);
        }
        if !check_uint(&payloads[0]) {
            return Err(Tx7eError::IntegerFormat);
        }
        if flags[1] {
            return Err(Tx7eError::Malformed);
        }
        if flags[2] {
            return Err(Tx7eError::Malformed);
        }
        if flags[3] {
            return Err(Tx7eError::Malformed);
        }
        if flags[4] {
            return Err(Tx7eError::Malformed);
        }
        if !check_uint(&payloads[4]) {
            return Err(Tx7eError::IntegerFormat);
        }
        if flags[5] {
            return Err(Tx7eError::Malformed);
        }
        if !check_uint(&payloads[5]) {
            return Err(Tx7eError::IntegerFormat);
        }
        if flags[6] {
            return Err(Tx7eError::Malformed);
        }
        if !check_uint(&payloads[6]) {
            return Err(Tx7eError::IntegerFormat);
        }
        if flags[7] {
            return Err(Tx7eError::Malformed);
        }
        if flags[8] {
            return Err(Tx7eError::Malformed);
        }
        if flags[9] {
            return Err(Tx7eError::Malformed);
        }
        if !check_uint(&payloads[9]) {
            return Err(Tx7eError::IntegerFormat);
        }
        if flags[10] {
            return Err(Tx7eError::Malformed);
        }
        if flags[11] {
            return Err(Tx7eError::Malformed);
        }
        if flags[12] {
            return Err(Tx7eError::Malformed);
        }
        if payloads[1].len() != 20 {
            return Err(Tx7eError::InvalidLength);
        }
        if payloads[11].len() != 20 {
            return Err(Tx7eError::InvalidLength);
        }
        if payloads[12].len() != 32 {
            return Err(Tx7eError::InvalidLength);
        }
        proof {
            lemma_uint_val_fits(items[0].1);
            lemma_uint_val_fits(items[4].1);
            lemma_uint_val_fits(items[5].1);
            lemma_uint_val_fits(items[6].1);
            lemma_uint_val_fits(items[9].1);
        }
        let chain_id = be_bytes_to_u64(&payloads[0]);
        let target = Address::from_bytes(vstd::slice::slice_to_vec(payloads[1].as_slice()));
        let value = U256::from_big_endian(payloads[2].as_slice());
        let data = vstd::slice::slice_to_vec(payloads[3].as_slice());
        let gas_limit = be_bytes_to_u64(&payloads[4]);
        let l1_block_number = be_bytes_to_u64(&payloads[5]);
        let l1_timestamp = be_bytes_to_u64(&payloads[6]);
        let l1_base_fee = U256::from_big_endian(payloads[7].as_slice());
        let l1_gas_price = U256::from_big_endian(payloads[8].as_slice());
        let l1_gas_used = be_bytes_to_u64(&payloads[9]);
        let l1_fee = U256::from_big_endian(payloads[10].as_slice());
        let refund_address = Address::from_bytes(
            vstd::slice::slice_to_vec(payloads[11].as_slice()),
        );
        let source_hash = vstd::slice::slice_to_vec(payloads[12].as_slice());
        let data_len = data.len();
        proof {
            lemma_u64_bound_pow(data_len as u64);
        }
        let tx = Tx7eTransaction {
            chain_id,
            target,
            value,
            data,
            gas_limit,
            l1_block_number,
            l1_timestamp,
            l1_base_fee,
            l1_gas_price,
            l1_gas_used,
            l1_fee,
            refund_address,
            source_hash,
        };
        proof {
            assert(spec_decode_fields(items) matches Ok(v) && v == tx@);
        }
        Ok(tx)
    }
}

/// Parsing of wire bytes: the `0x7e` type tag, then the canonical list.
pub open spec fn spec_parse(raw: Seq<u8>) -> Result<TxView, Tx7eError> {
    if raw.len() == 0 {
        Err(Tx7eError::Empty)
    } else if raw[0] != TX_TYPE_0X7E {
        Err(Tx7eError::WrongType)
    } else {
        spec_decode(raw.skip(1))
    }
}

/// The validation messages an envelope earns, in check order: chain id,
/// target, gas limit, L1 block number, L1 timestamp, L1 base fee, source
/// hash; each check is independent and all failures accumulate.
pub open spec fn spec_validation_errors(t: TxView) -> Seq<Seq<char>> {
    let e0 = Seq::<Seq<char>>::empty();
    let e1 = if t.chain_id == 0 {
        e0.push("Invalid chain ID: cannot be zero"@)
    } else {
        e0
    };
    let e2 = if be_val(t.target) == 0 {
        e1.push("Invalid target address: cannot be zero address"@)
    } else {
        e1
    };
    let e3 = if t.gas_limit == 0 {
        e2.push("Invalid gas limit: cannot be zero"@)
    } else {
        e2
    };
    let e4 = if t.l1_block_number == 0 {
        e3.push("Invalid L1 block number: cannot be zero"@)
    } else {
        e3
    };
    let e5 = if t.l1_timestamp == 0 {
        e4.push("Invalid L1 timestamp: cannot be zero"@)
    } else {
        e4
    };
    let e6 = if be_val(t.l1_base_fee) == 0 {
        e5.push("Invalid L1 base fee: cannot be zero"@)
    } else {
        e5
    };
    if be_val(t.source_hash) == 0 {
        e6.push("Invalid source hash: cannot be zero"@)
    } else {
        e6
    }
}

/// Whether an envelope passes every validation check.
pub open spec fn spec_valid(t: TxView) -> bool {
    &&& t.chain_id != 0
    &&& be_val(t.target) != 0
    &&& t.gas_limit != 0
    &&& t.l1_block_number != 0
    &&& t.l1_timestamp != 0
    &&& be_val(t.l1_base_fee) != 0
    &&& be_val(t.source_hash) != 0
}

/// The messages joined by a comma and a space.
pub open spec fn spec_join(msgs: Seq<Seq<char>>) -> Seq<char>
    decreases msgs.len(),
{
    if msgs.len() == 0 {
        Seq::empty()
    } else if msgs.len() == 1 {
        msgs[0]
    } else {
        spec_join(msgs.drop_last()) + ", "@ + msgs.last()
    }
}

/// The gas charged for an envelope: a base cost, a per-byte cost on nonempty
/// calldata, a surcharge for value transfers, all capped by the gas limit.
pub open spec fn spec_gas_usage(t: TxView) -> nat {
    let g = 21000 + (if t.data.len() > 0 {
        t.data.len() * 16
    } else {
        0
    }) + (if be_val(t.value) != 0 {
        9000nat
    } else {
        0
    });
    if g <= t.gas_limit {
        g
    } else {
        t.gas_limit as nat
    }
}

impl Tx7eTransaction {
    /// The transaction's canonical identifier: the digest of the entire
    /// wire-framed byte string, type tag included.
    pub fn hash(&self) -> (r: Vec<u8>)
        ensures
            r@ == crate::digest::keccak256_of(seq![TX_TYPE_0X7E] + spec_encode(self@)),
            r@.len() == 32,
    {
        let encoded = self.rlp_encode();
        let mut wire: Vec<u8> = Vec::new();
        wire.push(TX_TYPE_0X7E);
        crate::codec::push_all(&mut wire, &encoded);
        proof {
            assert(wire@ =~= seq![TX_TYPE_0X7E] + spec_encode(self@));
        }
        crate::digest::keccak256(&wire)
    }

    /// The total L1 cost of the deposit: the carried fee, passed through.
    pub fn total_l1_cost(&self) -> (r: U256)
        ensures
            r@ == self@.l1_fee,
    {
        self.l1_fee.clone()
    }

    /// The effective gas price: zero when no L1 gas was used, otherwise the
    /// carried L1 base fee, a documented placeholder.
    pub fn effective_gas_price(&self) -> (r: U256)
        ensures
            r@ == if self.l1_gas_used == 0 {
                be_fixed(0, 32)
            } else {
                self@.l1_base_fee
            },
    {
        if self.l1_gas_used == 0 {
            U256::zero()
        } else {
            self.l1_base_fee.clone()
        }
    }
}

impl PartialEq for Tx7eTransaction {
    fn eq(&self, other: &Self) -> (r: bool) {
        let r = self.chain_id == other.chain_id && self.target == other.target && self.value
            == other.value && self.data == other.data && self.gas_limit == other.gas_limit
            && self.l1_block_number == other.l1_block_number && self.l1_timestamp
            == other.l1_timestamp && self.l1_base_fee == other.l1_base_fee && self.l1_gas_price
            == other.l1_gas_price && self.l1_gas_used == other.l1_gas_used && self.l1_fee
            == other.l1_fee && self.refund_address == other.refund_address && self.source_hash
            == other.source_hash;
        proof {
            if r {
                assert(self.data@ =~= other.data@);
                assert(self.source_hash@ =~= other.source_hash@);
                assert(self@ == other@);
            } else {
                if self@ == other@ {
                    assert(forall|i: int|
                        0 <= i < self.data@.len() ==> self.data@[i] == other.data@[i]);
                    assert(forall|i: int|
                        0 <= i < self.source_hash@.len() ==> self.source_hash@[i]
                            == other.source_hash@[i]);
                    assert(false);
                }
            }
        }
        r
    }
}

impl Eq for Tx7eTransaction {

}

impl vstd::std_specs::cmp::PartialEqSpecImpl for Tx7eTransaction {
    open spec fn obeys_eq_spec() -> bool {
        true
    }

    open spec fn eq_spec(&self, other: &Self) -> bool {
        self@ == other@
    }
}

/// The stateless wire parser and validator for type `0x7e` transactions.
pub struct Tx7eParser;

impl Tx7eParser {
    /// Parses raw wire bytes: the type tag must be `0x7e`, and the rest must
    /// decode as the canonical 13-field list.
    pub fn parse(&self, raw_tx: &[u8]) -> (r: Result<Tx7eTransaction, Tx7eError>)
        ensures
            match r {
                Ok(tx) => spec_parse(raw_tx@) == Ok::<TxView, Tx7eError>(tx@) && tx_wf(tx@),
                Err(e) => spec_parse(raw_tx@) == Err::<TxView, Tx7eError>(e),
            },
    {
        let n = raw_tx.len();
        if n == 0 {
            return Err(Tx7eError::Empty);
        }
        if *vstd::slice::slice_index_get(raw_tx, 0) != TX_TYPE_0X7E {
            return Err(Tx7eError::WrongType);
        }
        let body = vstd::slice::slice_subrange(raw_tx, 1, n);
        proof {
            assert(body@ =~= raw_tx@.skip(1));
        }
        Tx7eTransaction::decode(body)
    }

    /// Validates an envelope: every check runs, and all failures accumulate
    /// into the message list.
    pub fn validate_transaction(&self, tx: &Tx7eTransaction) -> (r: TransactionValidation)
        ensures
            r.errors.deep_view() == spec_validation_errors(tx@),
            r.isValid == spec_valid(tx@),
            r.isValid <==> spec_validation_errors(tx@).len() == 0,
    {
        let mut errors: Vec<String> = Vec::new();
        if tx.chain_id == 0 {
            errors.push("Invalid chain ID: cannot be zero".to_owned());
        }
        if is_all_zero(tx.target.as_bytes()) {
            errors.push("Invalid target address: cannot be zero address".to_owned());
        }
        if tx.gas_limit == 0 {
            errors.push("Invalid gas limit: cannot be zero".to_owned());
        }
        if tx.l1_block_number == 0 {
            errors.push("Invalid L1 block number: cannot be zero".to_owned());
        }
        if tx.l1_timestamp == 0 {
            errors.push("Invalid L1 timestamp: cannot be zero".to_owned());
        }
        if tx.l1_base_fee.is_zero() {
            errors.push("Invalid L1 base fee: cannot be zero".to_owned());
        }
        if is_all_zero(&tx.source_hash) {
            errors.push("Invalid source hash: cannot be zero".to_owned());
        }
        let is_valid = errors.len() == 0;
        proof {
            assert(errors.deep_view() =~= spec_validation_errors(tx@));
        }
        TransactionValidation { isValid: is_valid, errors }
    }

    /// Converts an envelope into a standard transaction request.
    pub fn to_transaction_request(&self, tx: &Tx7eTransaction) -> (r: TransactionRequest)
        ensures
            r.to matches Some(a) && a@ == tx@.target,
            r.value matches Some(v) && v@ == tx@.value,
            r.data matches Some(d) && d@ == tx@.data,
            r.gas == Some(tx.gas_limit),
            r.gas_price matches Some(g) && g@ == (if tx.l1_gas_used == 0 {
                be_fixed(0, 32)
            } else {
                tx@.l1_base_fee
            }),
            r.nonce is None,
            r.chain_id == Some(tx.chain_id),
    {
        TransactionRequest {
            to: Some(tx.target.clone()),
            value: Some(tx.value.clone()),
            data: Some(vstd::slice::slice_to_vec(tx.data.as_slice())),
            gas: Some(tx.gas_limit),
            gas_price: Some(tx.effective_gas_price()),
            nonce: None,
            chain_id: Some(tx.chain_id),
        }
    }

    /// Derives the source hash binding a deposit to its originating L1 event:
    /// the digest of the L1 transaction hash, block number, and log index.
    pub fn generate_source_hash(
        &self,
        l1_tx_hash: &Vec<u8>,
        l1_block_number: u64,
        l1_log_index: u64,
    ) -> (r: Vec<u8>)
        requires
            l1_tx_hash@.len() == 32,
        ensures
            r@ == crate::digest::keccak256_of(
                l1_tx_hash@ + crate::words::be_fixed(l1_block_number as nat, 8)
                    + crate::words::be_fixed(l1_log_index as nat, 8),
            ),
            r@.len() == 32,
    {
        let mut buf: Vec<u8> = Vec::new();
        crate::codec::push_all(&mut buf, l1_tx_hash);
        let block_bytes = crate::words::u64_to_be8(l1_block_number);
        crate::codec::push_all(&mut buf, &block_bytes);
        let index_bytes = crate::words::u64_to_be8(l1_log_index);
        crate::codec::push_all(&mut buf, &index_bytes);
        crate::digest::keccak256(&buf)
    }
}

/// The verdict of validation: the flag and the accumulated messages.
#[derive(Debug)]
#[allow(non_snake_case)]
pub struct TransactionValidation {
    pub isValid: bool,
    pub errors: Vec<String>,
}

/// A standard transaction request carrying the envelope's fields.
#[derive(Debug)]
pub struct TransactionRequest {
    pub to: Option<Address>,
    pub value: Option<U256>,
    pub data: Option<Vec<u8>>,
    pub gas: Option<u64>,
    pub gas_price: Option<U256>,
    pub nonce: Option<u64>,
    pub chain_id: Option<u64>,
}

/// The terminal outcome of processing one raw transaction.
#[derive(Debug)]
pub struct ProcessingResult {
    pub success: bool,
    pub error: String,
    pub transaction: Option<Tx7eTransaction>,
    pub gas_used: u64,
    pub l1_cost: U256,
}

/// The sequential decode, validate, and gas/cost pipeline.
pub struct Tx7eProcessor {
    parser: Tx7eParser,
}

impl Tx7eProcessor {
    pub fn new() -> Self {
        Tx7eProcessor { parser: Tx7eParser }
    }

    /// Runs the pipeline on raw wire bytes: decode, validate, compute gas,
    /// and pass the carried L1 fee through; any stage failure is terminal.
    pub fn process_transaction(&self, raw_tx: &[u8]) -> (r: ProcessingResult)
        ensures
            match spec_parse(raw_tx@) {
                Err(e) => !r.success && r.error@ == "Parsing failed: "@ + e.spec_message()
                    && r.transaction is None && r.gas_used == 0 && r.l1_cost@ == be_fixed(0, 32),
                Ok(t) => {
                    if spec_valid(t) {
                        &&& r.success
                        &&& r.error@ == Seq::<char>::empty()
                        &&& r.transaction matches Some(tx) && tx@ == t
                        &&& r.gas_used == spec_gas_usage(t)
                        &&& r.l1_cost@ == t.l1_fee
                    } else {
                        &&& !r.success
                        &&& r.error@ == "Validation failed: "@ + spec_join(
                            spec_validation_errors(t),
                        )
                        &&& r.transaction is None
                        &&& r.gas_used == 0
                        &&& r.l1_cost@ == be_fixed(0, 32)
                    }
                },
            },
    {
        let tx = match self.parser.parse(raw_tx) {
            Ok(tx) => tx,
            Err(e) => {
                let mut msg = "Parsing failed: ".to_owned();
                let detail = e.message();
                msg.append(detail.as_str());
                return ProcessingResult {
                    success: false,
                    error: msg,
                    transaction: None,
                    gas_used: 0,
                    l1_cost: U256::zero(),
                };
            },
        };
        let validation = self.parser.validate_transaction(&tx);
        if !validation.isValid {
            let mut msg = "Validation failed: ".to_owned();
            let joined = join_messages(&validation.errors);
            msg.append(joined.as_str());
            return ProcessingResult {
                success: false,
                error: msg,
                transaction: None,
                gas_used: 0,
                l1_cost: U256::zero(),
            };
        }
        let gas_used = self.calculate_gas_usage(&tx);
        let l1_cost = tx.total_l1_cost();
        ProcessingResult {
            success: true,
            error: String::new(),
            transaction: Some(tx),
            gas_used,
            l1_cost,
        }
    }

    /// The gas charged for an envelope, capped by its gas limit.
    pub fn calculate_gas_usage(&self, tx: &Tx7eTransaction) -> (r: u64)
        ensures
            r == spec_gas_usage(tx@),
    {
        let data_len = tx.data.len();
        let mut gas: u128 = 21000;
        if data_len > 0 {
            gas = gas + data_len as u128 * 16;
        }
        if !tx.value.is_zero() {
            gas = gas + 9000;
        }
        if gas <= tx.gas_limit as u128 {
            gas as u64
        } else {
            tx.gas_limit
        }
    }
}

/// Whether every byte of the vector is zero; for a big-endian value this
/// means the value is zero.
fn is_all_zero(v: &Vec<u8>) -> (r: bool)
    ensures
        r == (be_val(v@) == 0),
{
    proof {
        crate::words::lemma_be_val_zero_iff(v@);
    }
    let n = v.len();
    let mut i: usize = 0;
    while i < n
        invariant
            i <= n,
            n == v@.len(),
            forall|j: int| 0 <= j < i ==> v@[j] == 0,
        decreases n - i,
    {
        if v[i] != 0 {
            proof {
                crate::words::lemma_be_val_zero_iff(v@);
            }
            return false;
        }
        i = i + 1;
    }
    proof {
        crate::words::lemma_be_val_zero_iff(v@);
    }
    true
}

/// Joins the messages with a comma and a space.
fn join_messages(msgs: &Vec<String>) -> (r: String)
    ensures
        r@ == spec_join(msgs.deep_view()),
{
    let mut r = String::new();
    let n = msgs.len();
    let mut i: usize = 0;
    while i < n
        invariant
            i <= n,
            n == msgs@.len(),
            r@ == spec_join(msgs.deep_view().take(i as int)),
        decreases n - i,
    {
        proof {
            assert(msgs.deep_view().take(i + 1).drop_last() =~= msgs.deep_view().take(i as int));
            assert(msgs.deep_view().take(i + 1).last() == msgs.deep_view()[i as int]);
            assert(msgs.deep_view()[i as int] == msgs@[i as int]@);
        }
        if i > 0 {
            r.append(", ");
        }
        r.append(msgs[i].as_str());
        i = i + 1;
    }
    proof {
        assert(msgs.deep_view().take(n as int) =~= msgs.deep_view());
    }
    r
}

/// Whether the payload is a canonical unsigned-integer encoding that fits in
/// 64 bits.
fn check_uint(p: &Vec<u8>) -> (r: bool)
    ensures
        r == uint_ok(p@),
{
    p.len() <= 8 && (p.len() == 0 || p[0] != 0)
}

/// Combines header parsing and item prepending for one string item embedded
/// at `pos` of the buffer.
proof fn lemma_item_step(buf: Seq<u8>, pos: int, end: int, x: Seq<u8>, rest: Seq<(bool, Seq<u8>)>)
    requires
        x.len() < pow256(8),
        0 <= pos,
        pos + enc_str(x).len() <= end,
        end <= buf.len(),
        buf.subrange(pos, pos + enc_str(x).len() as int) == enc_str(x),
        spec_items(buf, pos + enc_str(x).len() as int, end) == Some(rest),
    ensures
        spec_items(buf, pos, end) == Some(seq![(false, x)] + rest),
{
    crate::codec::lemma_parse_enc_str(buf, pos, x);
    crate::codec::lemma_items_cons(
        buf,
        pos,
        end,
        pos + (enc_str(x).len() - x.len()),
        x,
        rest,
    );
}

/// The field items of an envelope, in canonical order.
pub open spec fn spec_field_items(t: TxView) -> Seq<(bool, Seq<u8>)> {
    seq![
        (false, min_be(t.chain_id as nat)),
        (false, t.target),
        (false, t.value),
        (false, t.data),
        (false, min_be(t.gas_limit as nat)),
        (false, min_be(t.l1_block_number as nat)),
        (false, min_be(t.l1_timestamp as nat)),
        (false, t.l1_base_fee),
        (false, t.l1_gas_price),
        (false, min_be(t.l1_gas_used as nat)),
        (false, t.l1_fee),
        (false, t.refund_address),
        (false, t.source_hash),
    ]
}

/// The encoded payload region of an envelope scans as exactly its 13 field
/// items.
#[verifier::rlimit(100)]
#[verifier::spinoff_prover]
proof fn lemma_encode_items(t: TxView)
    requires
        tx_wf(t),
        spec_payload(t).len() < pow256(8),
    ensures
        enc_list(spec_payload(t)).len() > spec_payload(t).len(),
        spec_items(
            spec_encode(t),
            spec_encode(t).len() - spec_payload(t).len(),
            spec_encode(t).len() as int,
        ) == Some(spec_field_items(t)),
{
    lemma_u64_bound_pow(0u64);
    let p = spec_payload(t);
    let buf = spec_encode(t);
    crate::codec::lemma_parse_enc_list(p);
    let hl = buf.len() - p.len();
    assert(buf.subrange(hl as int, buf.len() as int) == p);
    let x0 = min_be(t.chain_id as nat);
    let x4 = min_be(t.gas_limit as nat);
    let x5 = min_be(t.l1_block_number as nat);
    let x6 = min_be(t.l1_timestamp as nat);
    let x9 = min_be(t.l1_gas_used as nat);
    lemma_min_be_len(t.chain_id as nat, 8);
    lemma_min_be_len(t.gas_limit as nat, 8);
    lemma_min_be_len(t.l1_block_number as nat, 8);
    lemma_min_be_len(t.l1_timestamp as nat, 8);
    lemma_min_be_len(t.l1_gas_used as nat, 8);
    let e0 = enc_str(x0);
    let e1 = enc_str(t.target);
    let e2 = enc_str(t.value);
    let e3 = enc_str(t.data);
    let e4 = enc_str(x4);
    let e5 = enc_str(x5);
    let e6 = enc_str(x6);
    let e7 = enc_str(t.l1_base_fee);
    let e8 = enc_str(t.l1_gas_price);
    let e9 = enc_str(x9);
    let e10 = enc_str(t.l1_fee);
    let e11 = enc_str(t.refund_address);
    let e12 = enc_str(t.source_hash);
    let c0 = e0;
    let c1 = c0 + e1;
    let c2 = c1 + e2;
    let c3 = c2 + e3;
    let c4 = c3 + e4;
    let c5 = c4 + e5;
    let c6 = c5 + e6;
    let c7 = c6 + e7;
    let c8 = c7 + e8;
    let c9 = c8 + e9;
    let c10 = c9 + e10;
    let c11 = c10 + e11;
    let c12 = c11 + e12;
    assert(p == c12);
    // peel the payload from the back: each prefix and each item encoding is
    // the matching subrange of the payload
    lemma_concat_parts(p, c11, e12);
    lemma_concat_parts(c11, c10, e11);
    lemma_middle_subrange(p, 0, c11, c10.len() as int, c11.len() as int);
    lemma_middle_subrange(p, 0, c11, 0, c10.len() as int);
    lemma_concat_parts(c10, c9, e10);
    lemma_middle_subrange(p, 0, c10, c9.len() as int, c10.len() as int);
    lemma_middle_subrange(p, 0, c10, 0, c9.len() as int);
    lemma_concat_parts(c9, c8, e9);
    lemma_middle_subrange(p, 0, c9, c8.len() as int, c9.len() as int);
    lemma_middle_subrange(p, 0, c9, 0, c8.len() as int);
    lemma_concat_parts(c8, c7, e8);
    lemma_middle_subrange(p, 0, c8, c7.len() as int, c8.len() as int);
    lemma_middle_subrange(p, 0, c8, 0, c7.len() as int);
    lemma_concat_parts(c7, c6, e7);
    lemma_middle_subrange(p, 0, c7, c6.len() as int, c7.len() as int);
    lemma_middle_subrange(p, 0, c7, 0, c6.len() as int);
    lemma_concat_parts(c6, c5, e6);
    lemma_middle_subrange(p, 0, c6, c5.len() as int, c6.len() as int);
    lemma_middle_subrange(p, 0, c6, 0, c5.len() as int);
    lemma_concat_parts(c5, c4, e5);
    lemma_middle_subrange(p, 0, c5, c4.len() as int, c5.len() as int);
    lemma_middle_subrange(p, 0, c5, 0, c4.len() as int);
    lemma_concat_parts(c4, c3, e4);
    lemma_middle_subrange(p, 0, c4, c3.len() as int, c4.len() as int);
    lemma_middle_subrange(p, 0, c4, 0, c3.len() as int);
    lemma_concat_parts(c3, c2, e3);
    lemma_middle_subrange(p, 0, c3, c2.len() as int, c3.len() as int);
    lemma_middle_subrange(p, 0, c3, 0, c2.len() as int);
    lemma_concat_parts(c2, c1, e2);
    lemma_middle_subrange(p, 0, c2, c1.len() as int, c2.len() as int);
    lemma_middle_subrange(p, 0, c2, 0, c1.len() as int);
    lemma_concat_parts(c1, c0, e1);
    lemma_middle_subrange(p, 0, c1, c0.len() as int, c1.len() as int);
    lemma_middle_subrange(p, 0, c1, 0, c0.len() as int);
    let o0 = hl as int;
    let o1 = o0 + e0.len();
    let o2 = o1 + e1.len();
    let o3 = o2 + e2.len();
    let o4 = o3 + e3.len();
    let o5 = o4 + e4.len();
    let o6 = o5 + e5.len();
    let o7 = o6 + e6.len();
    let o8 = o7 + e7.len();
    let o9 = o8 + e8.len();
    let o10 = o9 + e9.len();
    let o11 = o10 + e10.len();
    let o12 = o11 + e11.len();
    let o13 = o12 + e12.len();
    assert(o13 == buf.len());
    lemma_middle_subrange(buf, hl as int, p, 0, e0.len() as int);
    lemma_middle_subrange(buf, hl as int, p, c0.len() as int, c1.len() as int);
    lemma_middle_subrange(buf, hl as int, p, c1.len() as int, c2.len() as int);
    lemma_middle_subrange(buf, hl as int, p, c2.len() as int, c3.len() as int);
    lemma_middle_subrange(buf, hl as int, p, c3.len() as int, c4.len() as int);
    lemma_middle_subrange(buf, hl as int, p, c4.len() as int, c5.len() as int);
    lemma_middle_subrange(buf, hl as int, p, c5.len() as int, c6.len() as int);
    lemma_middle_subrange(buf, hl as int, p, c6.len() as int, c7.len() as int);
    lemma_middle_subrange(buf, hl as int, p, c7.len() as int, c8.len() as int);
    lemma_middle_subrange(buf, hl as int, p, c8.len() as int, c9.len() as int);
    lemma_middle_subrange(buf, hl as int, p, c9.len() as int, c10.len() as int);
    lemma_middle_subrange(buf, hl as int, p, c10.len() as int, c11.len() as int);
    lemma_middle_subrange(buf, hl as int, p, c11.len() as int, c12.len() as int);
    assert(buf.subrange(o0, o1) == e0);
    assert(buf.subrange(o1, o2) == e1);
    assert(buf.subrange(o2, o3) == e2);
    assert(buf.subrange(o3, o4) == e3);
    assert(buf.subrange(o4, o5) == e4);
    assert(buf.subrange(o5, o6) == e5);
    assert(buf.subrange(o6, o7) == e6);
    assert(buf.subrange(o7, o8) == e7);
    assert(buf.subrange(o8, o9) == e8);
    assert(buf.subrange(o9, o10) == e9);
    assert(buf.subrange(o10, o11) == e10);
    assert(buf.subrange(o11, o12) == e11);
    assert(buf.subrange(o12, o13) == e12);
    lemma_fold_items(
        t,
        buf,
        o0,
        o1,
        o2,
        o3,
        o4,
        o5,
        o6,
        o7,
        o8,
        o9,
        o10,
        o11,
        o12,
        o13,
    );
}

/// Folds the 13 item encodings, from the last to the first, into the item
/// sequence of the whole payload region.
#[verifier::rlimit(100)]
proof fn lemma_fold_items(
    t: TxView,
    buf: Seq<u8>,
    o0: int,
    o1: int,
    o2: int,
    o3: int,
    o4: int,
    o5: int,
    o6: int,
    o7: int,
    o8: int,
    o9: int,
    o10: int,
    o11: int,
    o12: int,
    o13: int,
)
    requires
        tx_wf(t),
        0 <= o0,
        o13 <= buf.len(),
        o1 == o0 + enc_str(min_be(t.chain_id as nat)).len(),
        o2 == o1 + enc_str(t.target).len(),
        o3 == o2 + enc_str(t.value).len(),
        o4 == o3 + enc_str(t.data).len(),
        o5 == o4 + enc_str(min_be(t.gas_limit as nat)).len(),
        o6 == o5 + enc_str(min_be(t.l1_block_number as nat)).len(),
        o7 == o6 + enc_str(min_be(t.l1_timestamp as nat)).len(),
        o8 == o7 + enc_str(t.l1_base_fee).len(),
        o9 == o8 + enc_str(t.l1_gas_price).len(),
        o10 == o9 + enc_str(min_be(t.l1_gas_used as nat)).len(),
        o11 == o10 + enc_str(t.l1_fee).len(),
        o12 == o11 + enc_str(t.refund_address).len(),
        o13 == o12 + enc_str(t.source_hash).len(),
        buf.subrange(o0, o1) == enc_str(min_be(t.chain_id as nat)),
        buf.subrange(o1, o2) == enc_str(t.target),
        buf.subrange(o2, o3) == enc_str(t.value),
        buf.subrange(o3, o4) == enc_str(t.data),
        buf.subrange(o4, o5) == enc_str(min_be(t.gas_limit as nat)),
        buf.subrange(o5, o6) == enc_str(min_be(t.l1_block_number as nat)),
        buf.subrange(o6, o7) == enc_str(min_be(t.l1_timestamp as nat)),
        buf.subrange(o7, o8) == enc_str(t.l1_base_fee),
        buf.subrange(o8, o9) == enc_str(t.l1_gas_price),
        buf.subrange(o9, o10) == enc_str(min_be(t.l1_gas_used as nat)),
        buf.subrange(o10, o11) == enc_str(t.l1_fee),
        buf.subrange(o11, o12) == enc_str(t.refund_address),
        buf.subrange(o12, o13) == enc_str(t.source_hash),
        min_be(t.chain_id as nat).len() <= 8,
        min_be(t.gas_limit as nat).len() <= 8,
        min_be(t.l1_block_number as nat).len() <= 8,
        min_be(t.l1_timestamp as nat).len() <= 8,
        min_be(t.l1_gas_used as nat).len() <= 8,
    ensures
        spec_items(buf, o0, o13) == Some(spec_field_items(t)),
{
    lemma_u64_bound_pow(0u64);
    let x0 = min_be(t.chain_id as nat);
    let x4 = min_be(t.gas_limit as nat);
    let x5 = min_be(t.l1_block_number as nat);
    let x6 = min_be(t.l1_timestamp as nat);
    let x9 = min_be(t.l1_gas_used as nat);
    assert(spec_items(buf, o13, o13) == Some(Seq::<(bool, Seq<u8>)>::empty()));
    let s12 = seq![(false, t.source_hash)];
    lemma_item_step(buf, o12, o13, t.source_hash, Seq::empty());
    assert(s12 + Seq::empty() =~= s12);
    let s11 = seq![(false, t.refund_address)] + s12;
    lemma_item_step(buf, o11, o13, t.refund_address, s12);
    let s10 = seq![(false, t.l1_fee)] + s11;
    lemma_item_step(buf, o10, o13, t.l1_fee, s11);
    let s9 = seq![(false, x9)] + s10;
    lemma_item_step(buf, o9, o13, x9, s10);
    let s8 = seq![(false, t.l1_gas_price)] + s9;
    lemma_item_step(buf, o8, o13, t.l1_gas_price, s9);
    let s7 = seq![(false, t.l1_base_fee)] + s8;
    lemma_item_step(buf, o7, o13, t.l1_base_fee, s8);
    let s6 = seq![(false, x6)] + s7;
    lemma_item_step(buf, o6, o13, x6, s7);
    let s5 = seq![(false, x5)] + s6;
    lemma_item_step(buf, o5, o13, x5, s6);
    let s4 = seq![(false, x4)] + s5;
    lemma_item_step(buf, o4, o13, x4, s5);
    let s3 = seq![(false, t.data)] + s4;
    lemma_item_step(buf, o3, o13, t.data, s4);
    let s2 = seq![(false, t.value)] + s3;
    lemma_item_step(buf, o2, o13, t.value, s3);
    let s1 = seq![(false, t.target)] + s2;
    lemma_item_step(buf, o1, o13, t.target, s2);
    let s0 = seq![(false, x0)] + s1;
    lemma_item_step(buf, o0, o13, x0, s1);
    assert(spec_items(buf, o0, o13) == Some(s0));
    assert(s0 =~= spec_field_items(t));
}

/// The two halves of a concatenation are its subranges.
proof fn lemma_concat_parts(p: Seq<u8>, a: Seq<u8>, b: Seq<u8>)
    requires
        p == a + b,
    ensures
        p.subrange(0, a.len() as int) == a,
        p.subrange(a.len() as int, p.len() as int) == b,
{
    assert(p.subrange(0, a.len() as int) =~= a);
    assert(p.subrange(a.len() as int, p.len() as int) =~= b);
}

/// A middle subrange of an embedded region equals that subrange of the region.
proof fn lemma_middle_subrange(buf: Seq<u8>, off: int, p: Seq<u8>, a: int, b: int)
    requires
        0 <= off,
        off + p.len() <= buf.len(),
        buf.subrange(off, off + p.len() as int) == p,
        0 <= a <= b <= p.len(),
    ensures
        buf.subrange(off + a, off + b) == p.subrange(a, b),
{
    assert(buf.subrange(off + a, off + b) =~= p.subrange(a, b)) by {
        assert(forall|i: int|
            0 <= i < p.len() ==> #[trigger] p[i] == buf.subrange(off, off + p.len() as int)[i]);
    }
}

/// Law: decoding inverts encoding. Every valid envelope whose encoding fits
/// the 64-bit length space comes back from `spec_decode` exactly as it went
/// into `spec_encode`.
pub proof fn lemma_round_trip(t: TxView)
    requires
        tx_wf(t),
        spec_payload(t).len() < pow256(8),
    ensures
        spec_decode(spec_encode(t)) == Ok::<TxView, Tx7eError>(t),
{
    lemma_u64_bound_pow(0u64);
    let p = spec_payload(t);
    let buf = spec_encode(t);
    crate::codec::lemma_parse_enc_list(p);
    let hl = buf.len() - p.len();
    lemma_encode_items(t);
    let items = spec_field_items(t);
    assert(spec_items(buf, hl as int, buf.len() as int) == Some(items));
    lemma_min_be_len(t.chain_id as nat, 8);
    lemma_min_be_len(t.gas_limit as nat, 8);
    lemma_min_be_len(t.l1_block_number as nat, 8);
    lemma_min_be_len(t.l1_timestamp as nat, 8);
    lemma_min_be_len(t.l1_gas_used as nat, 8);
    lemma_min_be_val(t.chain_id as nat);
    lemma_min_be_val(t.gas_limit as nat);
    lemma_min_be_val(t.l1_block_number as nat);
    lemma_min_be_val(t.l1_timestamp as nat);
    lemma_min_be_val(t.l1_gas_used as nat);
    assert(items.len() == 13);
    assert(uint_ok(items[0].1));
    assert(uint_ok(items[4].1));
    assert(uint_ok(items[5].1));
    assert(uint_ok(items[6].1));
    assert(uint_ok(items[9].1));
    assert(pad32(t.value) =~= t.value);
    assert(pad32(t.l1_base_fee) =~= t.l1_base_fee);
    assert(pad32(t.l1_gas_price) =~= t.l1_gas_price);
    assert(pad32(t.l1_fee) =~= t.l1_fee);
    assert(spec_decode_fields(items) matches Ok(v) && v == t);
    assert(spec_parse_header(buf, 0) == Some((true, hl as int, p.len() as nat)));
    assert(hl + p.len() == buf.len());
    assert(spec_decode(buf) == Ok::<TxView, Tx7eError>(t));
}

/// Law: decoding a list of any arity other than 13 fails with the arity
/// error, whatever the items hold.
pub proof fn lemma_wrong_arity(payload: Seq<u8>, items: Seq<(bool, Seq<u8>)>)
    requires
        payload.len() < pow256(8),
        spec_items(
            enc_list(payload),
            enc_list(payload).len() - payload.len(),
            enc_list(payload).len() as int,
        ) == Some(items),
        items.len() != 13,
    ensures
        spec_decode(enc_list(payload)) == Err::<TxView, Tx7eError>(Tx7eError::WrongArity),
{
    crate::codec::lemma_parse_enc_list(payload);
}

/// A canonical unsigned-integer payload of at most 8 bytes denotes a value
/// below `pow256(8)`, so it fits in 64 bits.
proof fn lemma_uint_val_fits(p: Seq<u8>)
    requires
        uint_ok(p),
    ensures
        be_val(p) < pow256(8),
        (be_val(p) as u64) as nat == be_val(p),
{
    lemma_be_val_bound(p);
    crate::words::lemma_pow256_monotone(p.len(), 8);
    lemma_u64_bound_pow(0u64);
}

} // verus!
