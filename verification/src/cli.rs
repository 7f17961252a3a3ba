//! The launch arguments: the extension's own switches and the standard node
//! flags that are forwarded to the host engine.

use vstd::prelude::*;

use crate::address::{hex_char_of, hex_digit_str};

verus! {

/// The decimal spelling of an unsigned number, most significant digit first.
pub open spec fn dec_str(n: nat) -> Seq<char>
    decreases n,
{
    if n < 10 {
        seq![hex_char_of(n)]
    } else {
        dec_str(n / 10).push(hex_char_of(n % 10))
    }
}

/// Converts a number to its decimal spelling.
pub fn u64_to_dec(n: u64) -> (r: String)
    ensures
        r@ == dec_str(n as nat),
    decreases n,
{
    if n < 10 {
        hex_digit_str((n % 10) as u8).to_owned()
    } else {
        let mut s = u64_to_dec(n / 10);
        s.append(hex_digit_str((n % 10) as u8));
        proof {
            assert(dec_str((n / 10) as nat) + seq![hex_char_of((n % 10) as nat)] =~= dec_str(
                (n / 10) as nat,
            ).push(hex_char_of((n % 10) as nat)));
        }
        s
    }
}

/// The launch arguments, as plain values.
#[derive(Debug)]
pub struct AnvilArbitrumArgs {
    /// Whether the rollup extension layer is switched on.
    pub arbitrum: bool,
    /// Rollup chain id.
    pub chain_id: Option<u64>,
    /// ArbOS version.
    pub arb_os_version: Option<u32>,
    /// L1 base fee in wei.
    pub l1_base_fee: Option<u64>,
    /// Gas price configuration, as structured text.
    pub gas_config: Option<String>,
    /// Whether type `0x7e` transaction processing is switched on.
    pub enable_tx7e: bool,
    /// Whether the mock L1 bridge is switched on.
    pub mock_l1_bridge: bool,
    /// Host to bind to.
    pub host: String,
    /// Port to bind to.
    pub port: u16,
    /// Number of accounts to generate.
    pub accounts: u32,
    /// Balance of each account.
    pub balance: u64,
    /// Block gas limit.
    pub gas_limit: u64,
    /// Gas price.
    pub gas_price: u64,
    /// Block time in seconds.
    pub block_time: u64,
    /// The host node's own chain id.
    pub anvil_chain_id: u64,
    /// Base fee.
    pub base_fee: u64,
    /// Timestamp of the genesis block.
    pub timestamp: Option<u64>,
    /// Remote endpoint to fork from.
    pub fork: Option<String>,
    /// Block number to fork at.
    pub fork_block_number: Option<u64>,
    /// No mining.
    pub no_mining: bool,
    /// Silent mode.
    pub silent: bool,
    /// Verbose output.
    pub verbose: bool,
    /// Show help.
    pub help: bool,
}

/// The standard node flags this argument set forwards, in order: the nine
/// always-present flags, then the optional ones that are set.
pub open spec fn spec_anvil_args(a: AnvilArbitrumArgs) -> Seq<Seq<char>> {
    let base = seq![
        "--host="@ + a.host@,
        "--port="@ + dec_str(a.port as nat),
        "--accounts="@ + dec_str(a.accounts as nat),
        "--balance="@ + dec_str(a.balance as nat),
        "--gas-limit="@ + dec_str(a.gas_limit as nat),
        "--gas-price="@ + dec_str(a.gas_price as nat),
        "--block-time="@ + dec_str(a.block_time as nat),
        "--chain-id="@ + dec_str(a.anvil_chain_id as nat),
        "--base-fee="@ + dec_str(a.base_fee as nat),
    ];
    let s1 = match a.timestamp {
        Some(ts) => base.push("--timestamp="@ + dec_str(ts as nat)),
        None => base,
    };
    let s2 = match a.fork {
        Some(f) => s1.push("--fork="@ + f@),
        None => s1,
    };
    let s3 = match a.fork_block_number {
        Some(n) => s2.push("--fork-block-number="@ + dec_str(n as nat)),
        None => s2,
    };
    let s4 = if a.no_mining {
        s3.push("--no-mining"@)
    } else {
        s3
    };
    let s5 = if a.silent {
        s4.push("--silent"@)
    } else {
        s4
    };
    if a.verbose {
        s5.push("--verbose"@)
    } else {
        s5
    }
}

impl AnvilArbitrumArgs {
    /// The standard node arguments to hand to the host engine.
    pub fn get_anvil_args(&self) -> (r: Vec<String>)
        ensures
            r.deep_view() == spec_anvil_args(*self),
    {
        let mut args: Vec<String> = Vec::new();
        let mut s = "--host=".to_owned();
        s.append(self.host.as_str());
        args.push(s);
        let mut s = "--port=".to_owned();
        let d = u64_to_dec(self.port as u64);
        s.append(d.as_str());
        args.push(s);
        let mut s = "--accounts=".to_owned();
        let d = u64_to_dec(self.accounts as u64);
        s.append(d.as_str());
        args.push(s);
        let mut s = "--balance=".to_owned();
        let d = u64_to_dec(self.balance);
        s.append(d.as_str());
        args.push(s);
        let mut s = "--gas-limit=".to_owned();
        let d = u64_to_dec(self.gas_limit);
        s.append(d.as_str());
        args.push(s);
        let mut s = "--gas-price=".to_owned();
        let d = u64_to_dec(self.gas_price);
        s.append(d.as_str());
        args.push(s);
        let mut s = "--block-time=".to_owned();
        let d = u64_to_dec(self.block_time);
        s.append(d.as_str());
        args.push(s);
        let mut s = "--chain-id=".to_owned();
        let d = u64_to_dec(self.anvil_chain_id);
        s.append(d.as_str());
        args.push(s);
        let mut s = "--base-fee=".to_owned();
        let d = u64_to_dec(self.base_fee);
        s.append(d.as_str());
        args.push(s);
        if let Some(ts) = self.timestamp {
            let mut s = "--timestamp=".to_owned();
            let d = u64_to_dec(ts);
            s.append(d.as_str());
            args.push(s);
        }
        if let Some(f) = &self.fork {
            let mut s = "--fork=".to_owned();
            s.append(f.as_str());
            args.push(s);
        }
        if let Some(n) = self.fork_block_number {
            let mut s = "--fork-block-number=".to_owned();
            let d = u64_to_dec(n);
            s.append(d.as_str());
            args.push(s);
        }
        if self.no_mining {
            args.push("--no-mining".to_owned());
        }
        if self.silent {
            args.push("--silent".to_owned());
        }
        if self.verbose {
            args.push("--verbose".to_owned());
        }
        proof {
            assert(args.deep_view() =~= spec_anvil_args(*self));
        }
        args
    }
}

} // verus!
