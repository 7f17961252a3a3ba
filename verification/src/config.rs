//! The shared configuration: chain parameters, fee components, and the
//! per-precompile descriptors, built once at startup and then read-only.

use vstd::prelude::*;

use crate::address::Address;

verus! {

/// Gas price components.
#[derive(Debug)]
pub struct GasPriceComponents {
    /// L2 base fee in wei.
    pub l2_base_fee: u64,
    /// L1 calldata cost per byte, in gas.
    pub l1_calldata_cost: u64,
    /// L1 storage cost in gas.
    pub l1_storage_cost: u64,
    /// Congestion fee in wei.
    pub congestion_fee: u64,
}

impl Default for GasPriceComponents {
    fn default() -> (r: Self)
        ensures
            r.l2_base_fee == 1_000_000_000,
            r.l1_calldata_cost == 16,
            r.l1_storage_cost == 0,
            r.congestion_fee == 0,
    {
        GasPriceComponents {
            l2_base_fee: 1_000_000_000,
            l1_calldata_cost: 16,
            l1_storage_cost: 0,
            congestion_fee: 0,
        }
    }
}

/// The descriptor of one precompile: keyed by its own address, with a name,
/// an enabled flag, and an opaque key-to-value configuration map.
#[derive(Debug)]
pub struct PrecompileConfig {
    pub address: Address,
    pub name: String,
    pub enabled: bool,
    pub config: Vec<(String, String)>,
}

/// The 20-byte address of the system-information precompile, ending in 0x64.
pub open spec fn spec_arb_sys_address() -> Seq<u8> {
    Seq::new(20, |i: int| if i == 19 { 0x64u8 } else { 0u8 })
}

/// The 20-byte address of the gas-information precompile, ending in 0x6c.
pub open spec fn spec_arb_gas_info_address() -> Seq<u8> {
    Seq::new(20, |i: int| if i == 19 { 0x6cu8 } else { 0u8 })
}

/// Builds the 20-byte address whose last byte is `last` and whose other
/// bytes are zero.
pub fn low_byte_address(last: u8) -> (r: Address)
    ensures
        r@ == Seq::new(20, |i: int| if i == 19 { last } else { 0u8 }),
        r@.len() == 20,
{
    let mut v: Vec<u8> = Vec::new();
    let mut i: usize = 0;
    while i < 19
        invariant
            i <= 19,
            v@.len() == i,
            forall|j: int| 0 <= j < i ==> v@[j] == 0u8,
        decreases 19 - i,
    {
        v.push(0u8);
        i = i + 1;
    }
    v.push(last);
    proof {
        assert(v@ =~= Seq::new(20, |i: int| if i == 19 { last } else { 0u8 }));
    }
    Address::from_bytes(v)
}

/// The first descriptor whose address matches, if any.
pub open spec fn spec_find_precompile(ps: Seq<PrecompileConfig>, addr: Seq<u8>) -> Option<
    PrecompileConfig,
>
    decreases ps.len(),
{
    if ps.len() == 0 {
        None
    } else if ps[0].address@ == addr {
        Some(ps[0])
    } else {
        spec_find_precompile(ps.skip(1), addr)
    }
}

/// The immutable parameter set of the extension layer.
#[derive(Debug)]
pub struct ArbitrumConfig {
    /// Chain id; nonzero in a valid configuration.
    pub chain_id: u64,
    /// ArbOS version; nonzero in a valid configuration.
    pub arb_os_version: u32,
    /// L1 base fee in wei; nonzero in a valid configuration.
    pub l1_base_fee: u64,
    /// Gas price components.
    pub gas_price_components: GasPriceComponents,
    /// Whether type `0x7e` transactions are supported.
    pub tx7e_enabled: bool,
    /// The mock L1 bridge address, as a hex string.
    pub mock_l1_bridge: String,
    /// The precompile descriptors, each keyed by its own address.
    pub precompiles: Vec<PrecompileConfig>,
}

impl Default for ArbitrumConfig {
    fn default() -> (r: Self)
        ensures
            r.chain_id == 42161,
            r.arb_os_version == 20,
            r.l1_base_fee == 20_000_000_000,
            r.gas_price_components.l2_base_fee == 1_000_000_000,
            r.gas_price_components.l1_calldata_cost == 16,
            r.gas_price_components.l1_storage_cost == 0,
            r.gas_price_components.congestion_fee == 0,
            r.tx7e_enabled,
            r.mock_l1_bridge@ == "0x0000000000000000000000000000000000000064"@,
            default_precompiles_wf(r.precompiles@),
    {
        ArbitrumConfig {
            chain_id: 42161,
            arb_os_version: 20,
            l1_base_fee: 20_000_000_000,
            gas_price_components: GasPriceComponents::default(),
            tx7e_enabled: true,
            mock_l1_bridge: "0x0000000000000000000000000000000000000064".to_owned(),
            precompiles: ArbitrumConfig::default_precompiles(),
        }
    }
}

/// The shape of the default descriptor set: the system-information and
/// gas-information precompiles, both enabled, keyed by their addresses.
pub open spec fn default_precompiles_wf(ps: Seq<PrecompileConfig>) -> bool {
    &&& ps.len() == 2
    &&& ps[0].address@ == spec_arb_sys_address()
    &&& ps[0].name@ == "ArbSys"@
    &&& ps[0].enabled
    &&& ps[1].address@ == spec_arb_gas_info_address()
    &&& ps[1].name@ == "ArbGasInfo"@
    &&& ps[1].enabled
}

impl ArbitrumConfig {
    /// A configuration with the given chain parameters and all other fields
    /// at their defaults.
    pub fn new(chain_id: u64, arb_os_version: u32, l1_base_fee: u64) -> (r: Self)
        ensures
            r.chain_id == chain_id,
            r.arb_os_version == arb_os_version,
            r.l1_base_fee == l1_base_fee,
            r.gas_price_components.l2_base_fee == 1_000_000_000,
            r.gas_price_components.l1_calldata_cost == 16,
            r.gas_price_components.l1_storage_cost == 0,
            r.gas_price_components.congestion_fee == 0,
            r.tx7e_enabled,
            r.mock_l1_bridge@ == "0x0000000000000000000000000000000000000064"@,
            default_precompiles_wf(r.precompiles@),
    {
        let mut config = ArbitrumConfig::default();
        config.chain_id = chain_id;
        config.arb_os_version = arb_os_version;
        config.l1_base_fee = l1_base_fee;
        config
    }

    /// The default descriptors: the two built-in precompiles.
    fn default_precompiles() -> (r: Vec<PrecompileConfig>)
        ensures
            default_precompiles_wf(r@),
    {
        let mut ps: Vec<PrecompileConfig> = Vec::new();
        ps.push(
            PrecompileConfig {
                address: low_byte_address(0x64),
                name: "ArbSys".to_owned(),
                enabled: true,
                config: Vec::new(),
            },
        );
        ps.push(
            PrecompileConfig {
                address: low_byte_address(0x6c),
                name: "ArbGasInfo".to_owned(),
                enabled: true,
                config: Vec::new(),
            },
        );
        ps
    }

    /// The descriptor stored for the address, if any.
    pub fn get_precompile(&self, address: &Address) -> (r: Option<&PrecompileConfig>)
        ensures
            match r {
                Some(p) => spec_find_precompile(self.precompiles@, address@) == Some(*p),
                None => spec_find_precompile(self.precompiles@, address@) is None,
            },
    {
        let n = self.precompiles.len();
        proof {
            assert(self.precompiles@.skip(0) =~= self.precompiles@);
        }
        let mut i: usize = 0;
        while i < n
            invariant
                i <= n,
                n == self.precompiles@.len(),
                spec_find_precompile(self.precompiles@, address@) == spec_find_precompile(
                    self.precompiles@.skip(i as int),
                    address@,
                ),
            decreases n - i,
        {
            proof {
                assert(self.precompiles@.skip(i as int)[0] == self.precompiles@[i as int]);
                assert(self.precompiles@.skip(i as int).skip(1) =~= self.precompiles@.skip(i + 1));
            }
            if &self.precompiles[i].address == address {
                return Some(&self.precompiles[i]);
            }
            i = i + 1;
        }
        proof {
            assert(self.precompiles@.skip(n as int) =~= Seq::<PrecompileConfig>::empty());
        }
        None
    }

    /// Whether the address has an enabled precompile; false when absent.
    pub fn is_precompile_enabled(&self, address: &Address) -> (r: bool)
        ensures
            r == match spec_find_precompile(self.precompiles@, address@) {
                Some(p) => p.enabled,
                None => false,
            },
    {
        match self.get_precompile(address) {
            Some(p) => p.enabled,
            None => false,
        }
    }

    /// The L1 gas cost of posting `calldata_size` bytes.
    pub fn calculate_l1_gas_cost(&self, calldata_size: usize) -> (r: u64)
        requires
            calldata_size * self.gas_price_components.l1_calldata_cost <= u64::MAX,
        ensures
            r == calldata_size * self.gas_price_components.l1_calldata_cost,
    {
        (calldata_size as u64) * self.gas_price_components.l1_calldata_cost
    }

    /// The L1 gas cost of posting `calldata_size` bytes, in wei.
    pub fn calculate_l1_gas_cost_wei(&self, calldata_size: usize) -> (r: u64)
        requires
            calldata_size * self.gas_price_components.l1_calldata_cost <= u64::MAX,
            calldata_size * self.gas_price_components.l1_calldata_cost * self.l1_base_fee
                <= u64::MAX,
        ensures
            r == calldata_size * self.gas_price_components.l1_calldata_cost * self.l1_base_fee,
    {
        self.calculate_l1_gas_cost(calldata_size) * self.l1_base_fee
    }

    /// Checks the configuration: the chain id, ArbOS version, L1 base fee,
    /// L2 base fee, and L1 calldata cost must all be nonzero.
    pub fn validate(&self) -> (r: Result<(), String>)
        ensures
            r is Ok <==> (self.chain_id != 0 && self.arb_os_version != 0 && self.l1_base_fee != 0
                && self.gas_price_components.l2_base_fee != 0
                && self.gas_price_components.l1_calldata_cost != 0),
            r matches Err(m) ==> m@ == spec_validate_message(*self),
    {
        if self.chain_id == 0 {
            return Err("Chain ID cannot be 0".to_owned());
        }
        if self.arb_os_version == 0 {
            return Err("ArbOS version cannot be 0".to_owned());
        }
        if self.l1_base_fee == 0 {
            return Err("L1 base fee cannot be 0".to_owned());
        }
        if self.gas_price_components.l2_base_fee == 0 {
            return Err("L2 base fee cannot be 0".to_owned());
        }
        if self.gas_price_components.l1_calldata_cost == 0 {
            return Err("L1 calldata cost cannot be 0".to_owned());
        }
        Ok(())
    }
}

/// The message of the first failing configuration check.
pub open spec fn spec_validate_message(c: ArbitrumConfig) -> Seq<char> {
    if c.chain_id == 0 {
        "Chain ID cannot be 0"@
    } else if c.arb_os_version == 0 {
        "ArbOS version cannot be 0"@
    } else if c.l1_base_fee == 0 {
        "L1 base fee cannot be 0"@
    } else if c.gas_price_components.l2_base_fee == 0 {
        "L2 base fee cannot be 0"@
    } else {
        "L1 calldata cost cannot be 0"@
    }
}

} // verus!
