//! The fixed-address precompiles: a system-information handler and a
//! gas-information handler, each dispatching on a four-byte selector and
//! answering deterministically from the shared configuration.

use vstd::prelude::*;

use crate::address::Address;
use crate::config::{low_byte_address, spec_arb_gas_info_address, spec_arb_sys_address, ArbitrumConfig};
use crate::errors::PrecompileError;
use crate::u256::U256;
use crate::words::{
    be_fixed, be_val, lemma_pow256_add, lemma_pow256_monotone, lemma_u64_bound_pow, pow256,
};

verus! {

/// Selector of `arbChainID()`.
pub const SEL_ARB_CHAIN_ID: u32 = 0xd127f54a;

/// Selector of `arbBlockNumber()`.
pub const SEL_ARB_BLOCK_NUMBER: u32 = 0xa3b1b31d;

/// Selector of `arbOSVersion()`.
pub const SEL_ARB_OS_VERSION: u32 = 0x051038f2;

/// Selector of `getCurrentTxL1GasFees()`.
pub const SEL_GET_CURRENT_TX_L1_GAS_FEES: u32 = 0xc6f7de0e;

/// Selector of `getPricesInWei()`.
pub const SEL_GET_PRICES_IN_WEI: u32 = 0x41b247a8;

/// Selector of `getPricesInWeiWithAggregator(address)`, answered as an alias
/// of `getPricesInWei()`.
pub const SEL_GET_PRICES_IN_WEI_WITH_AGGREGATOR: u32 = 0xba9c916e;

/// Selector of `getPricesInArbGas()`.
pub const SEL_GET_PRICES_IN_ARB_GAS: u32 = 0x02199f34;

/// Selector of `getPricesInArbGasWithAggregator(address)`, answered as an
/// alias of `getPricesInArbGas()`.
pub const SEL_GET_PRICES_IN_ARB_GAS_WITH_AGGREGATOR: u32 = 0x7a1ea732;

/// Selector of `getGasAccountingParams()`.
pub const SEL_GET_GAS_ACCOUNTING_PARAMS: u32 = 0x612af178;

/// Selector of `getMinimumGasPrice()`.
pub const SEL_GET_MINIMUM_GAS_PRICE: u32 = 0xf918379a;

/// Selector of `getL1BaseFeeEstimate()`.
pub const SEL_GET_L1_BASE_FEE_ESTIMATE: u32 = 0xf5d6ded7;

/// Selector of `getL1BlobBaseFeeEstimate()`, answered with a fixed stub.
pub const SEL_GET_L1_BLOB_BASE_FEE_ESTIMATE: u32 = 0x1f6d6ef7;

/// Selector of `getL2BaseFeeEstimate()`.
pub const SEL_GET_L2_BASE_FEE_ESTIMATE: u32 = 0xd5b89ac1;

/// Selector of `getAmortizedCostCapBips()`.
pub const SEL_GET_AMORTIZED_COST_CAP_BIPS: u32 = 0x7741647c;

/// The speed limit accounting constant, in gas per second.
pub const SPEED_LIMIT_PER_SECOND: u64 = 120_000_000;

/// The gas pool maximum accounting constant.
pub const GAS_POOL_MAX: u64 = 32_000_000;

/// The per-transaction gas limit accounting constant.
pub const MAX_TX_GAS_LIMIT: u64 = 32_000_000;

/// The amortized cost cap, in basis points.
pub const AMORTIZED_COST_CAP_BIPS: u64 = 10_000;

/// The mock block number answered for `arbBlockNumber()`: a documented
/// stand-in for live chain height, which only the host engine can supply.
pub const MOCK_BLOCK_NUMBER: u64 = 1;

/// The fixed stub answered for `getL1BlobBaseFeeEstimate()`, in wei.
pub const MOCK_BLOB_BASE_FEE: u64 = 1;

/// The function selector: the first four input bytes, big-endian.
pub open spec fn selector_of(input: Seq<u8>) -> nat {
    be_val(input.take(4))
}

/// The 32-byte word encoding of a value.
pub open spec fn word(n: nat) -> Seq<u8> {
    be_fixed(n, 32)
}

/// How many bytes of the string are nonzero.
pub open spec fn count_nonzero(s: Seq<u8>) -> nat
    decreases s.len(),
{
    if s.len() == 0 {
        0
    } else {
        count_nonzero(s.drop_last()) + if s.last() != 0 {
            1nat
        } else {
            0nat
        }
    }
}

/// The L1 fee charged for the whole call input: nonzero bytes cost the L1
/// calldata price, zero bytes cost 4 gas, a flat tenth is discounted for
/// compression, and the rest is priced at the L1 base fee.
pub open spec fn spec_l1_gas_fee(input: Seq<u8>, c: ArbitrumConfig) -> nat {
    let nz = count_nonzero(input);
    let z = (input.len() - nz) as nat;
    let raw = nz * (c.gas_price_components.l1_calldata_cost as nat) + z * 4;
    let disc = (raw * 9) / 10;
    disc * (c.l1_base_fee as nat)
}

/// What the system-information handler answers for a selector.
pub open spec fn spec_sys_output(sel: nat, c: ArbitrumConfig) -> Result<Seq<u8>, PrecompileError> {
    if sel == SEL_ARB_CHAIN_ID {
        Ok(word(c.chain_id as nat))
    } else if sel == SEL_ARB_BLOCK_NUMBER {
        Ok(word(MOCK_BLOCK_NUMBER as nat))
    } else if sel == SEL_ARB_OS_VERSION {
        Ok(word(c.arb_os_version as nat))
    } else {
        Err(PrecompileError::UnknownSelector)
    }
}

/// What the gas-information handler answers for a selector and input.
pub open spec fn spec_gas_info_output(sel: nat, input: Seq<u8>, c: ArbitrumConfig) -> Result<
    Seq<u8>,
    PrecompileError,
> {
    let l2 = c.gas_price_components.l2_base_fee as nat;
    let cost = c.gas_price_components.l1_calldata_cost as nat;
    let storage = c.gas_price_components.l1_storage_cost as nat;
    let congestion = c.gas_price_components.congestion_fee as nat;
    let base = c.l1_base_fee as nat;
    if sel == SEL_GET_CURRENT_TX_L1_GAS_FEES {
        Ok(word(spec_l1_gas_fee(input, c)))
    } else if sel == SEL_GET_PRICES_IN_WEI || sel == SEL_GET_PRICES_IN_WEI_WITH_AGGREGATOR {
        Ok(
            word(l2) + word(cost) + word(base * cost) + word(l2) + word(congestion) + word(
                l2 + congestion,
            ),
        )
    } else if sel == SEL_GET_PRICES_IN_ARB_GAS || sel
        == SEL_GET_PRICES_IN_ARB_GAS_WITH_AGGREGATOR {
        Ok(word(l2) + word(cost) + word(storage))
    } else if sel == SEL_GET_GAS_ACCOUNTING_PARAMS {
        Ok(
            word(SPEED_LIMIT_PER_SECOND as nat) + word(GAS_POOL_MAX as nat) + word(
                MAX_TX_GAS_LIMIT as nat,
            ),
        )
    } else if sel == SEL_GET_MINIMUM_GAS_PRICE {
        Ok(word(l2))
    } else if sel == SEL_GET_L1_BASE_FEE_ESTIMATE {
        Ok(word(base))
    } else if sel == SEL_GET_L1_BLOB_BASE_FEE_ESTIMATE {
        Ok(word(MOCK_BLOB_BASE_FEE as nat))
    } else if sel == SEL_GET_L2_BASE_FEE_ESTIMATE {
        Ok(word(l2))
    } else if sel == SEL_GET_AMORTIZED_COST_CAP_BIPS {
        Ok(word(AMORTIZED_COST_CAP_BIPS as nat))
    } else {
        Err(PrecompileError::UnknownSelector)
    }
}

/// What the system-information handler answers for a whole call.
pub open spec fn spec_sys_call(input: Seq<u8>, c: ArbitrumConfig) -> Result<
    Seq<u8>,
    PrecompileError,
> {
    if input.len() < 4 {
        Err(PrecompileError::InputTooShort)
    } else {
        spec_sys_output(selector_of(input), c)
    }
}

/// What the gas-information handler answers for a whole call.
pub open spec fn spec_gas_info_call(input: Seq<u8>, c: ArbitrumConfig) -> Result<
    Seq<u8>,
    PrecompileError,
> {
    if input.len() < 4 {
        Err(PrecompileError::InputTooShort)
    } else {
        spec_gas_info_output(selector_of(input), input, c)
    }
}

/// Reads the four-byte selector from the call input.
fn read_selector(input: &[u8]) -> (r: u32)
    requires
        input@.len() >= 4,
    ensures
        (r as nat) == selector_of(input@),
{
    proof {
        assert(input@.take(4).subrange(0, 0) =~= Seq::<u8>::empty());
        assert(be_val(Seq::<u8>::empty()) == 0);
        assert(pow256(0) == 1);
    }
    let mut acc: u32 = 0;
    let mut j: usize = 0;
    while j < 4
        invariant
            j <= 4,
            input@.len() >= 4,
            (acc as nat) == be_val(input@.take(4).subrange(0, j as int)),
            (acc as nat) < pow256(j as nat),
        decreases 4 - j,
    {
        proof {
            let s = input@.take(4).subrange(0, j + 1);
            assert(s.drop_last() =~= input@.take(4).subrange(0, j as int));
            assert(s.last() == input@[j as int]);
            lemma_pow256_monotone((j + 1) as nat, 4);
            assert(pow256(0) == 1);
            assert(pow256(1) == 256);
            assert(pow256(2) == 0x10000);
            assert(pow256(3) == 0x1000000);
            assert(pow256(4) == 0x100000000);
            crate::words::lemma_pow256_mul(j as nat);
            vstd::arithmetic::mul::lemma_mul_inequality(acc as int, pow256(j as nat) - 1, 256);
        }
        acc = acc * 256 + (*vstd::slice::slice_index_get(input, j) as u32);
        j = j + 1;
    }
    proof {
        assert(input@.take(4).subrange(0, 4) =~= input@.take(4));
    }
    acc
}

/// The 32-byte word of a 64-bit value.
fn word_of_u64(x: u64) -> (r: Vec<u8>)
    ensures
        r@ == word(x as nat),
        r@.len() == 32,
{
    U256::from_u64(x).to_big_endian()
}

/// Products of values bounded by powers of 256 stay bounded and in range.
proof fn lemma_mul_bound(a: nat, b: nat, k1: nat, k2: nat)
    requires
        a < pow256(k1),
        b < pow256(k2),
        k1 + k2 <= 32,
    ensures
        a * b < pow256(k1 + k2),
        a * b <= U256::max_value(),
{
    lemma_pow256_add(k1, k2);
    lemma_pow256_monotone(k1 + k2, 32);
    crate::words::lemma_pow256_positive(k1);
    crate::words::lemma_pow256_positive(k2);
    crate::words::lemma_pow256_positive(k1 + k2);
    assert(a * b < pow256(k1) * pow256(k2)) by (nonlinear_arith)
        requires
            0 <= a < pow256(k1),
            0 <= b < pow256(k2),
            pow256(k1) >= 1,
            pow256(k2) >= 1,
    ;
}

/// The system-information precompile, at the fixed address ending in 0x64.
#[derive(Debug)]
pub struct ArbSysHandler {
    address: Address,
}

impl ArbSysHandler {
    /// The address this handler serves.
    pub closed spec fn spec_address(self) -> Seq<u8> {
        self.address@
    }

    pub fn new() -> (r: Self)
        ensures
            r.spec_address() == spec_arb_sys_address(),
    {
        ArbSysHandler { address: low_byte_address(0x64) }
    }

    pub fn address(&self) -> (r: Address)
        ensures
            r@ == self.spec_address(),
    {
        self.address.clone()
    }

    pub fn name(&self) -> (r: &'static str)
        ensures
            r@ == "ArbSys"@,
    {
        "ArbSys"
    }

    /// The advisory gas cost of a call; never enforced against any budget.
    pub fn gas_cost(&self, _input: &[u8]) -> (r: u64)
        ensures
            r == 3,
    {
        3
    }

    /// Answers a call from the selector and the configuration.
    pub fn handle_call(&self, input: &[u8], config: &ArbitrumConfig) -> (r: Result<
        Vec<u8>,
        PrecompileError,
    >)
        ensures
            match r {
                Ok(out) => spec_sys_call(input@, *config) == Ok::<Seq<u8>, PrecompileError>(out@),
                Err(e) => spec_sys_call(input@, *config) == Err::<Seq<u8>, PrecompileError>(e),
            },
    {
        if input.len() < 4 {
            return Err(PrecompileError::InputTooShort);
        }
        let sel = read_selector(input);
        if sel == SEL_ARB_CHAIN_ID {
            Ok(word_of_u64(config.chain_id))
        } else if sel == SEL_ARB_BLOCK_NUMBER {
            Ok(word_of_u64(MOCK_BLOCK_NUMBER))
        } else if sel == SEL_ARB_OS_VERSION {
            Ok(word_of_u64(config.arb_os_version as u64))
        } else {
            Err(PrecompileError::UnknownSelector)
        }
    }
}

/// The gas-information precompile, at the fixed address ending in 0x6c.
#[derive(Debug)]
pub struct ArbGasInfoHandler {
    address: Address,
}

impl ArbGasInfoHandler {
    /// The address this handler serves.
    pub closed spec fn spec_address(self) -> Seq<u8> {
        self.address@
    }

    pub fn new() -> (r: Self)
        ensures
            r.spec_address() == spec_arb_gas_info_address(),
    {
        ArbGasInfoHandler { address: low_byte_address(0x6c) }
    }

    pub fn address(&self) -> (r: Address)
        ensures
            r@ == self.spec_address(),
    {
        self.address.clone()
    }

    pub fn name(&self) -> (r: &'static str)
        ensures
            r@ == "ArbGasInfo"@,
    {
        "ArbGasInfo"
    }

    /// The advisory gas cost of a call: a base cost plus a per-byte charge,
    /// capped at the largest 64-bit value; never enforced against any budget.
    pub fn gas_cost(&self, input: &[u8]) -> (r: u64)
        ensures
            (r as nat) == if 8 + input@.len() * 16 <= u64::MAX {
                8 + input@.len() * 16
            } else {
                u64::MAX as nat
            },
    {
        let c: u128 = 8 + (input.len() as u128) * 16;
        if c > u64::MAX as u128 {
            u64::MAX
        } else {
            c as u64
        }
    }

    /// Answers a call from the selector, the input, and the configuration.
    pub fn handle_call(&self, input: &[u8], config: &ArbitrumConfig) -> (r: Result<
        Vec<u8>,
        PrecompileError,
    >)
        ensures
            match r {
                Ok(out) => spec_gas_info_call(input@, *config) == Ok::<Seq<u8>, PrecompileError>(
                    out@,
                ),
                Err(e) => spec_gas_info_call(input@, *config) == Err::<Seq<u8>, PrecompileError>(e),
            },
    {
        if input.len() < 4 {
            return Err(PrecompileError::InputTooShort);
        }
        let sel = read_selector(input);
        let l2 = config.gas_price_components.l2_base_fee;
        let cost = config.gas_price_components.l1_calldata_cost;
        let storage = config.gas_price_components.l1_storage_cost;
        let congestion = config.gas_price_components.congestion_fee;
        let base = config.l1_base_fee;
        if sel == SEL_GET_CURRENT_TX_L1_GAS_FEES {
            Ok(self.current_tx_l1_gas_fees(input, config))
        } else if sel == SEL_GET_PRICES_IN_WEI || sel == SEL_GET_PRICES_IN_WEI_WITH_AGGREGATOR {
            let mut out = word_of_u64(l2);
            let w_cost = word_of_u64(cost);
            crate::codec::push_all(&mut out, &w_cost);
            proof {
                lemma_u64_bound_pow(base);
                lemma_u64_bound_pow(cost);
                lemma_mul_bound(base as nat, cost as nat, 8, 8);
            }
            let byte_price = U256::from_u64(base).saturating_mul(&U256::from_u64(cost));
            let w_byte_price = byte_price.to_big_endian();
            crate::codec::push_all(&mut out, &w_byte_price);
            let w_l2 = word_of_u64(l2);
            crate::codec::push_all(&mut out, &w_l2);
            let w_congestion = word_of_u64(congestion);
            crate::codec::push_all(&mut out, &w_congestion);
            proof {
                lemma_u64_bound_pow(l2);
                lemma_u64_bound_pow(congestion);
                lemma_pow256_monotone(9, 32);
                crate::words::lemma_pow256_positive(8);
                assert((l2 as nat) + (congestion as nat) < pow256(9)) by {
                    assert(pow256(9) == 256 * pow256(8));
                }
            }
            let min_price = U256::from_u64(l2).saturating_add(&U256::from_u64(congestion));
            let w_min_price = min_price.to_big_endian();
            crate::codec::push_all(&mut out, &w_min_price);
            proof {
                assert(out@ =~= word(l2 as nat) + word(cost as nat) + word(
                    (base as nat) * (cost as nat),
                ) + word(l2 as nat) + word(congestion as nat) + word((l2 + congestion) as nat));
            }
            Ok(out)
        } else if sel == SEL_GET_PRICES_IN_ARB_GAS || sel
            == SEL_GET_PRICES_IN_ARB_GAS_WITH_AGGREGATOR {
            let mut out = word_of_u64(l2);
            let w_cost = word_of_u64(cost);
            crate::codec::push_all(&mut out, &w_cost);
            let w_storage = word_of_u64(storage);
            crate::codec::push_all(&mut out, &w_storage);
            proof {
                assert(out@ =~= word(l2 as nat) + word(cost as nat) + word(storage as nat));
            }
            Ok(out)
        } else if sel == SEL_GET_GAS_ACCOUNTING_PARAMS {
            let mut out = word_of_u64(SPEED_LIMIT_PER_SECOND);
            let w_pool = word_of_u64(GAS_POOL_MAX);
            crate::codec::push_all(&mut out, &w_pool);
            let w_limit = word_of_u64(MAX_TX_GAS_LIMIT);
            crate::codec::push_all(&mut out, &w_limit);
            proof {
                assert(out@ =~= word(SPEED_LIMIT_PER_SECOND as nat) + word(GAS_POOL_MAX as nat)
                    + word(MAX_TX_GAS_LIMIT as nat));
            }
            Ok(out)
        } else if sel == SEL_GET_MINIMUM_GAS_PRICE {
            Ok(word_of_u64(l2))
        } else if sel == SEL_GET_L1_BASE_FEE_ESTIMATE {
            Ok(word_of_u64(base))
        } else if sel == SEL_GET_L1_BLOB_BASE_FEE_ESTIMATE {
            Ok(word_of_u64(MOCK_BLOB_BASE_FEE))
        } else if sel == SEL_GET_L2_BASE_FEE_ESTIMATE {
            Ok(word_of_u64(l2))
        } else if sel == SEL_GET_AMORTIZED_COST_CAP_BIPS {
            Ok(word_of_u64(AMORTIZED_COST_CAP_BIPS))
        } else {
            Err(PrecompileError::UnknownSelector)
        }
    }

    /// The discounted L1 fee of the whole call input, as one 32-byte word.
    fn current_tx_l1_gas_fees(&self, input: &[u8], config: &ArbitrumConfig) -> (r: Vec<u8>)
        ensures
            r@ == word(spec_l1_gas_fee(input@, *config)),
            r@.len() == 32,
    {
        let cost = config.gas_price_components.l1_calldata_cost;
        let base = config.l1_base_fee;
        let n = input.len();
        let mut nz: usize = 0;
        let mut i: usize = 0;
        proof {
            assert(input@.take(0) =~= Seq::<u8>::empty());
        }
        while i < n
            invariant
                i <= n,
                n == input@.len(),
                nz <= i,
                (nz as nat) == count_nonzero(input@.take(i as int)),
            decreases n - i,
        {
            proof {
                assert(input@.take(i + 1).drop_last() =~= input@.take(i as int));
                assert(input@.take(i + 1).last() == input@[i as int]);
            }
            if *vstd::slice::slice_index_get(input, i) != 0 {
                nz = nz + 1;
            }
            i = i + 1;
        }
        proof {
            assert(input@.take(n as int) =~= input@);
        }
        let z = n - nz;
        proof {
            lemma_u64_bound_pow(nz as u64);
            lemma_u64_bound_pow(z as u64);
            lemma_u64_bound_pow(cost);
            lemma_u64_bound_pow(base);
            lemma_u64_bound_pow(4u64);
            lemma_u64_bound_pow(9u64);
            lemma_mul_bound(nz as nat, cost as nat, 8, 8);
            lemma_mul_bound(z as nat, 4, 8, 8);
        }
        let prod_nz = U256::from_u64(nz as u64).saturating_mul(&U256::from_u64(cost));
        let prod_z = U256::from_u64(z as u64).saturating_mul(&U256::from_u64(4));
        proof {
            lemma_pow256_monotone(16, 32);
            lemma_pow256_monotone(17, 32);
            crate::words::lemma_pow256_positive(16);
            assert(prod_nz.value() + prod_z.value() < pow256(17)) by {
                assert(pow256(17) == 256 * pow256(16));
            }
            vstd::arithmetic::div_mod::lemma_small_mod(
                prod_nz.value() + prod_z.value(),
                pow256(32),
            );
            crate::words::lemma_pow256_positive(32);
        }
        let raw = prod_nz.add(&prod_z);
        proof {
            assert(pow256(0) == 1);
            assert(pow256(1) == 256);
            lemma_mul_bound(raw.value(), 9, 17, 1);
        }
        let raw9 = raw.saturating_mul(&U256::from_u64(9));
        let disc = raw9.div_by_u64(10);
        proof {
            vstd::arithmetic::div_mod::lemma_div_nonincreasing(raw9.value() as int, 10);
            lemma_mul_bound(disc.value(), base as nat, 18, 8);
            lemma_pow256_monotone(18, 32);
        }
        let fee = disc.saturating_mul(&U256::from_u64(base));
        proof {
            assert(fee.value() == spec_l1_gas_fee(input@, *config));
        }
        fee.to_big_endian()
    }
}

/// A registered handler: one of the two precompile kinds.
#[derive(Debug)]
pub enum PrecompileHandler {
    SystemInfo(ArbSysHandler),
    GasInfo(ArbGasInfoHandler),
}

/// The address a handler serves.
pub open spec fn spec_handler_address(h: PrecompileHandler) -> Seq<u8> {
    match h {
        PrecompileHandler::SystemInfo(s) => s.spec_address(),
        PrecompileHandler::GasInfo(g) => g.spec_address(),
    }
}

/// What a handler answers for a call.
pub open spec fn spec_handler_call(h: PrecompileHandler, input: Seq<u8>, c: ArbitrumConfig) -> Result<
    Seq<u8>,
    PrecompileError,
> {
    match h {
        PrecompileHandler::SystemInfo(s) => spec_sys_call(input, c),
        PrecompileHandler::GasInfo(g) => spec_gas_info_call(input, c),
    }
}

impl PrecompileHandler {
    pub fn address(&self) -> (r: Address)
        ensures
            r@ == spec_handler_address(*self),
    {
        match self {
            PrecompileHandler::SystemInfo(s) => s.address(),
            PrecompileHandler::GasInfo(g) => g.address(),
        }
    }

    pub fn name(&self) -> (r: &'static str)
        ensures
            *self is SystemInfo ==> r@ == "ArbSys"@,
            *self is GasInfo ==> r@ == "ArbGasInfo"@,
    {
        match self {
            PrecompileHandler::SystemInfo(s) => s.name(),
            PrecompileHandler::GasInfo(g) => g.name(),
        }
    }

    pub fn handle_call(&self, input: &[u8], config: &ArbitrumConfig) -> (r: Result<
        Vec<u8>,
        PrecompileError,
    >)
        ensures
            match r {
                Ok(out) => spec_handler_call(*self, input@, *config) == Ok::<
                    Seq<u8>,
                    PrecompileError,
                >(out@),
                Err(e) => spec_handler_call(*self, input@, *config) == Err::<
                    Seq<u8>,
                    PrecompileError,
                >(e),
            },
    {
        match self {
            PrecompileHandler::SystemInfo(s) => s.handle_call(input, config),
            PrecompileHandler::GasInfo(g) => g.handle_call(input, config),
        }
    }
}

/// The first registered handler serving the address, if any.
pub open spec fn spec_find_handler(hs: Seq<PrecompileHandler>, addr: Seq<u8>) -> Option<
    PrecompileHandler,
>
    decreases hs.len(),
{
    if hs.len() == 0 {
        None
    } else if spec_handler_address(hs[0]) == addr {
        Some(hs[0])
    } else {
        spec_find_handler(hs.skip(1), addr)
    }
}

/// What a call routed through a handler set answers.
pub open spec fn spec_registry_call(
    hs: Seq<PrecompileHandler>,
    addr: Seq<u8>,
    input: Seq<u8>,
    c: ArbitrumConfig,
) -> Result<Seq<u8>, PrecompileError> {
    match spec_find_handler(hs, addr) {
        None => Err(PrecompileError::NotFound),
        Some(h) => spec_handler_call(h, input, c),
    }
}

/// The fixed collection of precompile handlers, built once at startup.
#[derive(Debug)]
pub struct PrecompileRegistry {
    handlers: Vec<PrecompileHandler>,
}

impl PrecompileRegistry {
    /// The registered handlers.
    pub closed spec fn spec_handlers(self) -> Seq<PrecompileHandler> {
        self.handlers@
    }

    pub fn new() -> (r: Self)
        ensures
            r.spec_handlers() == Seq::<PrecompileHandler>::empty(),
    {
        let handlers: Vec<PrecompileHandler> = Vec::new();
        proof {
            assert(handlers@ =~= Seq::<PrecompileHandler>::empty());
        }
        PrecompileRegistry { handlers }
    }

    /// Registers one more handler, behind any already registered.
    pub fn register(&mut self, handler: PrecompileHandler)
        ensures
            final(self).spec_handlers() == old(self).spec_handlers().push(handler),
    {
        self.handlers.push(handler);
    }

    /// The handler serving the address, if any.
    pub fn get_handler(&self, address: &Address) -> (r: Option<&PrecompileHandler>)
        ensures
            match r {
                Some(h) => spec_find_handler(self.spec_handlers(), address@) == Some(*h),
                None => spec_find_handler(self.spec_handlers(), address@) is None,
            },
    {
        let n = self.handlers.len();
        proof {
            assert(self.handlers@.skip(0) =~= self.handlers@);
        }
        let mut i: usize = 0;
        while i < n
            invariant
                i <= n,
                n == self.handlers@.len(),
                spec_find_handler(self.spec_handlers(), address@) == spec_find_handler(
                    self.handlers@.skip(i as int),
                    address@,
                ),
                self.spec_handlers() == self.handlers@,
            decreases n - i,
        {
            proof {
                assert(self.handlers@.skip(i as int)[0] == self.handlers@[i as int]);
                assert(self.handlers@.skip(i as int).skip(1) =~= self.handlers@.skip(i + 1));
            }
            let candidate = self.handlers[i].address();
            if &candidate == address {
                return Some(&self.handlers[i]);
            }
            i = i + 1;
        }
        proof {
            assert(self.handlers@.skip(n as int) =~= Seq::<PrecompileHandler>::empty());
        }
        None
    }

    /// Whether some handler serves the address.
    pub fn has_handler(&self, address: &Address) -> (r: bool)
        ensures
            r == (spec_find_handler(self.spec_handlers(), address@) is Some),
    {
        match self.get_handler(address) {
            Some(_) => true,
            None => false,
        }
    }

    /// The addresses of every registered handler, in registration order.
    pub fn get_addresses(&self) -> (r: Vec<Address>)
        ensures
            r@.len() == self.spec_handlers().len(),
            forall|i: int|
                0 <= i < r@.len() ==> (#[trigger] r@[i])@ == spec_handler_address(
                    self.spec_handlers()[i],
                ),
    {
        let n = self.handlers.len();
        let mut out: Vec<Address> = Vec::new();
        let mut i: usize = 0;
        while i < n
            invariant
                i <= n,
                n == self.handlers@.len(),
                self.spec_handlers() == self.handlers@,
                out@.len() == i,
                forall|j: int|
                    0 <= j < i ==> (#[trigger] out@[j])@ == spec_handler_address(
                        self.handlers@[j],
                    ),
            decreases n - i,
        {
            out.push(self.handlers[i].address());
            i = i + 1;
        }
        out
    }

    /// Routes a call to the handler at the address; reports the absence of a
    /// handler rather than defaulting to any answer.
    pub fn handle_call(&self, address: Address, input: &[u8], config: &ArbitrumConfig) -> (r:
        Result<Vec<u8>, PrecompileError>)
        ensures
            match r {
                Ok(out) => spec_registry_call(self.spec_handlers(), address@, input@, *config)
                    == Ok::<Seq<u8>, PrecompileError>(out@),
                Err(e) => spec_registry_call(self.spec_handlers(), address@, input@, *config)
                    == Err::<Seq<u8>, PrecompileError>(e),
            },
    {
        match self.get_handler(&address) {
            Some(handler) => handler.handle_call(input, config),
            None => Err(PrecompileError::NotFound),
        }
    }
}

impl Default for PrecompileRegistry {
    /// The default registry: the system-information handler, then the
    /// gas-information handler.
    fn default() -> (r: Self)
        ensures
            r.spec_handlers().len() == 2,
            r.spec_handlers()[0] is SystemInfo,
            r.spec_handlers()[1] is GasInfo,
            spec_handler_address(r.spec_handlers()[0]) == spec_arb_sys_address(),
            spec_handler_address(r.spec_handlers()[1]) == spec_arb_gas_info_address(),
    {
        let mut registry = PrecompileRegistry::new();
        registry.register(PrecompileHandler::SystemInfo(ArbSysHandler::new()));
        registry.register(PrecompileHandler::GasInfo(ArbGasInfoHandler::new()));
        registry
    }
}

/// Law: a precompile call is deterministic. Whatever two results the
/// contract of `handle_call` admits for one address, input, and
/// configuration are the same bytes.
pub proof fn lemma_handle_call_deterministic(
    hs: Seq<PrecompileHandler>,
    addr: Seq<u8>,
    input: Seq<u8>,
    c: ArbitrumConfig,
    r1: Result<Seq<u8>, PrecompileError>,
    r2: Result<Seq<u8>, PrecompileError>,
)
    requires
        r1 == spec_registry_call(hs, addr, input, c),
        r2 == spec_registry_call(hs, addr, input, c),
    ensures
        r1 == r2,
{
}

} // verus!
