use evm_indexer::config::{
    parse_contract_address, validate_config, ChainConfig, CircuitBreakerConfig, Config,
    DatabaseConfig, GeneralConfig, HealthCheckConfig, RpcEndpoint, RpcType,
};
use evm_indexer::db::{mongodb_uri, resolve_credential, u64_to_decimal};
use evm_indexer::error::Error;

fn chain(address: &str, n_rpcs: usize) -> ChainConfig {
    let mut rpcs = Vec::new();
    for i in 0..n_rpcs {
        rpcs.push(RpcEndpoint {
            url: format!("ws://endpoint{}", i),
            rpc_type: RpcType::WebSocket,
            priority: i as u8,
            health_check: HealthCheckConfig {
                interval_secs: 30,
                timeout_secs: 5,
                min_peers: 1,
                max_blocks_behind: 10,
            },
            circuit_breaker: CircuitBreakerConfig {
                failure_threshold: 3,
                reset_timeout: 60,
                half_open_timeout: 10,
            },
        });
    }
    ChainConfig {
        name: "testchain".to_string(),
        contract_address: address.to_string(),
        rpcs,
        starting_block: None,
    }
}

fn config_with(chains: Vec<ChainConfig>) -> Config {
    Config {
        general: GeneralConfig { metrics_laddr: "127.0.0.1".to_string(), metrics_port: 9000 },
        database: DatabaseConfig {
            db_host: "localhost".to_string(),
            db_port: 27017,
            db_name: "indexer".to_string(),
            username: None,
            password: None,
        },
        chains,
    }
}

#[test]
fn valid_address_decodes_to_its_bytes() {
    let bytes = parse_contract_address("0x00000000000000000000000000000000000000ab").unwrap();
    assert_eq!(bytes.len(), 20);
    assert_eq!(bytes[19], 0xab);
    let mixed = parse_contract_address("0xDeadBeef00000000000000000000000000000001").unwrap();
    assert_eq!(mixed[0], 0xde);
    assert_eq!(mixed[1], 0xad);
    assert_eq!(mixed[2], 0xbe);
    assert_eq!(mixed[3], 0xef);
}

#[test]
fn malformed_addresses_are_invalid() {
    for bad in [
        "",
        "0x",
        "00000000000000000000000000000000000000ab",
        "0x0000000000000000000000000000000000000ab",
        "0x00000000000000000000000000000000000000abcd",
        "0x00000000000000000000000000000000000000ag",
        "0x000000000000000000000000000000000000münz",
    ] {
        assert_eq!(parse_contract_address(bad), Err(Error::InvalidAddress));
    }
}

#[test]
fn configs_validate_chain_invariants() {
    let good = config_with(vec![chain("0x00000000000000000000000000000000000000ab", 2)]);
    assert!(validate_config(&good).is_ok());

    let no_rpcs = config_with(vec![chain("0x00000000000000000000000000000000000000ab", 0)]);
    assert_eq!(
        validate_config(&no_rpcs),
        Err(Error::InvalidConfig("testchain".to_string()))
    );

    let bad_address = config_with(vec![chain("0xnothex", 1)]);
    assert_eq!(validate_config(&bad_address), Err(Error::InvalidAddress));
}

#[test]
fn decimal_rendering_is_exact() {
    assert_eq!(u64_to_decimal(0), "0");
    assert_eq!(u64_to_decimal(7), "7");
    assert_eq!(u64_to_decimal(27017), "27017");
    assert_eq!(u64_to_decimal(u64::MAX), "18446744073709551615");
}

#[test]
fn environment_credentials_win() {
    assert_eq!(
        resolve_credential(Some("envuser".to_string()), Some("cfguser".to_string())),
        Some("envuser".to_string())
    );
    assert_eq!(
        resolve_credential(None, Some("cfguser".to_string())),
        Some("cfguser".to_string())
    );
    assert_eq!(resolve_credential(None, None), None);
}

#[test]
fn connection_string_carries_credentials_only_when_complete() {
    let with = mongodb_uri(
        &Some("user".to_string()),
        &Some("pw".to_string()),
        "localhost",
        27017,
    );
    assert_eq!(with, "mongodb://user:pw@localhost:27017");
    let without = mongodb_uri(&None, &None, "localhost", 27017);
    assert_eq!(without, "mongodb://localhost:27017");
    let half = mongodb_uri(&Some("user".to_string()), &None, "dbhost", 1);
    assert_eq!(half, "mongodb://dbhost:1");
}
