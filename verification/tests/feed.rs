use replication::feed::SolanaRpcUrl;

#[test]
fn default_endpoint_is_mainnet() {
    assert_eq!(SolanaRpcUrl::default(), SolanaRpcUrl::Mainnet);
}

#[test]
fn each_endpoint_has_its_url() {
    assert_eq!(SolanaRpcUrl::Localhost.as_str(), "http://localhost:8899");
    assert_eq!(SolanaRpcUrl::Devnet.as_str(), "https://api.devnet.solana.com");
    assert_eq!(SolanaRpcUrl::Mainnet.as_str(), "https://api.mainnet-beta.solana.com");
}
