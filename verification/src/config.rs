use vstd::prelude::*;

use crate::error::Error;

verus! {

/// The transport kind of one RPC endpoint.
#[derive(Clone, Copy, Debug, PartialEq, Eq, Structural)]
pub enum RpcType {
    WebSocket,
    Http,
}

/// How often an endpoint is probed and what counts as healthy.
#[derive(Clone, Debug)]
pub struct HealthCheckConfig {
    pub interval_secs: u64,
    pub timeout_secs: u64,
    pub min_peers: u32,
    pub max_blocks_behind: u64,
}

/// Circuit breaker settings as they stand in the configuration file:
/// timeouts in whole seconds.
#[derive(Clone, Debug)]
pub struct CircuitBreakerConfig {
    pub failure_threshold: u32,
    pub reset_timeout: u64,
    pub half_open_timeout: u64,
}

/// One JSON-RPC endpoint of a chain. Lower `priority` is preferred.
#[derive(Clone, Debug)]
pub struct RpcEndpoint {
    pub url: String,
    pub rpc_type: RpcType,
    pub priority: u8,
    pub health_check: HealthCheckConfig,
    pub circuit_breaker: CircuitBreakerConfig,
}

/// One chain to index: its contract, its endpoints in order of preference,
/// and an optional block to backfill from.
#[derive(Clone, Debug)]
pub struct ChainConfig {
    pub name: String,
    pub contract_address: String,
    pub rpcs: Vec<RpcEndpoint>,
    pub starting_block: Option<u64>,
}

impl ChainConfig {
    /// A chain configuration must name at least one endpoint and a
    /// syntactically valid contract address.
    pub open spec fn wf(self) -> bool {
        self.rpcs.len() >= 1 && spec_valid_address(self.contract_address@)
    }
}

/// Where the document database lives and how to authenticate.
#[derive(Clone, Debug)]
pub struct DatabaseConfig {
    pub db_host: String,
    pub db_port: u16,
    pub db_name: String,
    pub username: Option<String>,
    pub password: Option<String>,
}

/// Process-wide settings: where the metrics endpoint listens.
#[derive(Clone, Debug)]
pub struct GeneralConfig {
    pub metrics_laddr: String,
    pub metrics_port: u16,
}

/// The whole configuration file.
#[derive(Clone, Debug)]
pub struct Config {
    pub general: GeneralConfig,
    pub database: DatabaseConfig,
    pub chains: Vec<ChainConfig>,
}

/// An ASCII hex digit, either case, by its scalar value.
pub open spec fn is_hex_digit_char(c: char) -> bool {
    (48 <= c as int <= 57) || (97 <= c as int <= 102) || (65 <= c as int <= 70)
}

/// The value of an ASCII hex digit given by its scalar value.
pub open spec fn hex_val_char(c: char) -> u8 {
    if 48 <= c as int <= 57 {
        (c as int - 48) as u8
    } else if 97 <= c as int <= 102 {
        (c as int - 87) as u8
    } else {
        (c as int - 55) as u8
    }
}

/// A contract address as the configuration must spell it: "0x" followed by
/// exactly forty hex digits.
pub open spec fn spec_valid_address(s: Seq<char>) -> bool {
    &&& s.len() == 42
    &&& s[0] == '0'
    &&& s[1] == 'x'
    &&& forall|i: int| 2 <= i < 42 ==> is_hex_digit_char(#[trigger] s[i])
}

/// The twenty bytes a valid address spells.
pub open spec fn spec_address_bytes(s: Seq<char>) -> Seq<u8> {
    Seq::new(20, |i: int| (hex_val_char(s[2 + 2 * i]) * 16 + hex_val_char(s[3 + 2 * i])) as u8)
}

/// A string that spells a valid address holds ASCII characters only.
proof fn lemma_valid_address_ascii(s: Seq<char>)
    requires
        spec_valid_address(s),
    ensures
        vstd::utf8::is_ascii_chars(s),
{
    assert forall|i: int| 0 <= i < s.len() implies '\0' <= #[trigger] s[i] <= '\u{7f}' by {
        if i >= 2 {
            assert(is_hex_digit_char(s[i]));
        }
    }
}

/// Decodes a configured contract address into its twenty bytes, or reports
/// `InvalidAddress` exactly when the string is not a 0x-prefixed 40-digit
/// hex spelling.
pub fn parse_contract_address(s: &str) -> (r: Result<Vec<u8>, Error>)
    ensures
        match r {
            Ok(a) => spec_valid_address(s@) && a@ == spec_address_bytes(s@),
            Err(e) => e == Error::InvalidAddress && !spec_valid_address(s@),
        },
{
    if !s.is_ascii() {
        proof {
            if spec_valid_address(s@) {
                lemma_valid_address_ascii(s@);
            }
        }
        return Err(Error::InvalidAddress);
    }
    if s.unicode_len() != 42 {
        return Err(Error::InvalidAddress);
    }
    if s.get_char(0) != '0' || s.get_char(1) != 'x' {
        return Err(Error::InvalidAddress);
    }
    let mut out: Vec<u8> = Vec::new();
    let mut i: usize = 0;
    while i < 20
        invariant
            s.is_ascii(),
            s@.len() == 42,
            s@[0] == '0',
            s@[1] == 'x',
            i <= 20,
            out@.len() == i,
            forall|j: int| 2 <= j < 2 + 2 * i ==> is_hex_digit_char(#[trigger] s@[j]),
            forall|j: int|
                0 <= j < i ==> #[trigger] out@[j] == (hex_val_char(s@[2 + 2 * j]) * 16
                    + hex_val_char(s@[3 + 2 * j])) as u8,
        decreases 20 - i,
    {
        let hi = s.get_ascii(2 + 2 * i);
        let lo = s.get_ascii(3 + 2 * i);
        let hv = match hex_digit_value(hi) {
            Some(v) => v,
            None => {
                proof {
                    assert(!is_hex_digit_char(s@[2 + 2 * i as int]));
                }
                return Err(Error::InvalidAddress);
            },
        };
        let lv = match hex_digit_value(lo) {
            Some(v) => v,
            None => {
                proof {
                    assert(!is_hex_digit_char(s@[3 + 2 * i as int]));
                }
                return Err(Error::InvalidAddress);
            },
        };
        out.push(hv * 16 + lv);
        i = i + 1;
    }
    proof {
        assert(spec_valid_address(s@));
        assert(out@ =~= spec_address_bytes(s@));
    }
    Ok(out)
}

/// The value of one hex digit byte, or `None` for any other byte.
pub fn hex_digit_value(b: u8) -> (r: Option<u8>)
    ensures
        r is Some <==> ((48 <= b <= 57) || (97 <= b <= 102) || (65 <= b <= 70)),
        r is Some ==> r->0 < 16,
        (48 <= b <= 57) ==> r == Some((b - 48) as u8),
        (97 <= b <= 102) ==> r == Some((b - 87) as u8),
        (65 <= b <= 70) ==> r == Some((b - 55) as u8),
{
    if 48 <= b && b <= 57 {
        Some(b - 48)
    } else if 97 <= b && b <= 102 {
        Some(b - 87)
    } else if 65 <= b && b <= 70 {
        Some(b - 55)
    } else {
        None
    }
}

/// Checks the invariants of a loaded configuration: every chain names at
/// least one endpoint and a valid contract address. Reports the first
/// violation; configuration errors are fatal at startup.
pub fn validate_config(config: &Config) -> (r: Result<(), Error>)
    ensures
        r is Ok <==> (forall|i: int| 0 <= i < config.chains@.len() ==> (#[trigger] config.chains@[i]).wf()),
{
    let mut i: usize = 0;
    while i < config.chains.len()
        invariant
            i <= config.chains@.len(),
            forall|j: int| 0 <= j < i ==> (#[trigger] config.chains@[j]).wf(),
        decreases config.chains@.len() - i,
    {
        let chain = &config.chains[i];
        if chain.rpcs.len() == 0 {
            return Err(Error::InvalidConfig(chain.name.clone()));
        }
        if let Err(e) = parse_contract_address(chain.contract_address.as_str()) {
            return Err(e);
        }
        i = i + 1;
    }
    Ok(())
}

} // verus!
