//! Chain-id resolution and broker topic naming.
//!
//! Every topic is named `aptos.<network>.<kind>`, where the network name
//! comes from the chain id of the stream being indexed.  An unknown chain
//! id has no network name and is a fatal condition for a batch.

use vstd::prelude::*;

verus! {

use vstd::string::StringExecFns;

#[derive(Clone, Copy, PartialEq, Eq, Structural, Debug)]
pub enum Network {
    Mainnet,
    Testnet,
}

/// The network a chain id names: 1 is mainnet, 2 is testnet, anything
/// else is unknown.
pub open spec fn spec_from_chain_id(chain_id: u64) -> Option<Network> {
    if chain_id == 1 {
        Some(Network::Mainnet)
    } else if chain_id == 2 {
        Some(Network::Testnet)
    } else {
        None
    }
}

impl Network {
    /// The human name of the network, as it appears in topic names.
    pub open spec fn spec_name(self) -> Seq<char> {
        match self {
            Network::Mainnet => "mainnet"@,
            Network::Testnet => "testnet"@,
        }
    }

    pub fn from_chain_id(chain_id: u64) -> (r: Option<Network>)
        ensures
            r == spec_from_chain_id(chain_id),
    {
        match chain_id {
            1 => Some(Network::Mainnet),
            2 => Some(Network::Testnet),
            _ => None,
        }
    }

    pub fn name(&self) -> (r: String)
        ensures
            r@ == self.spec_name(),
    {
        match self {
            Network::Mainnet => "mainnet".to_owned(),
            Network::Testnet => "testnet".to_owned(),
        }
    }
}

/// The topic for one record kind on one network: `aptos.<network>.<kind>`.
pub open spec fn spec_topic(network: Network, kind: Seq<char>) -> Seq<char> {
    "aptos."@ + network.spec_name() + "."@ + kind
}

pub fn topic_name(network: Network, kind: &str) -> (r: String)
    ensures
        r@ == spec_topic(network, kind@),
{
    let name = network.name();
    let r = String::from_str("aptos.").concat(name.as_str()).concat(".").concat(kind);
    proof {
        assert(r@ =~= spec_topic(network, kind@));
    }
    r
}

} // verus!
