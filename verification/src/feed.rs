//! The periodic external data source's endpoints.
//!
//! The feed supplies a monotonically increasing sequence number on a fixed
//! interval; each new number spawns one world block. Polling it is I/O and
//! happens outside the crate — here stands only the choice of endpoint,
//! which the rest of the configuration is checked against.

use vstd::prelude::*;

verus! {

/// Which endpoint of the external feed to poll.
#[derive(Clone, Copy, Debug, PartialEq, Eq, Structural)]
pub enum SolanaRpcUrl {
    Localhost,
    Devnet,
    Mainnet,
}

impl SolanaRpcUrl {
    /// The endpoint to use when none is chosen.
    pub fn default() -> (r: Self)
        ensures
            r is Mainnet,
    {
        SolanaRpcUrl::Mainnet
    }

    /// The endpoint's URL.
    pub fn as_str(&self) -> (r: &'static str)
        ensures
            self is Localhost ==> r@ == "http://localhost:8899"@,
            self is Devnet ==> r@ == "https://api.devnet.solana.com"@,
            self is Mainnet ==> r@ == "https://api.mainnet-beta.solana.com"@,
    {
        match self {
            SolanaRpcUrl::Localhost => "http://localhost:8899",
            SolanaRpcUrl::Devnet => "https://api.devnet.solana.com",
            SolanaRpcUrl::Mainnet => "https://api.mainnet-beta.solana.com",
        }
    }
}

} // verus!
