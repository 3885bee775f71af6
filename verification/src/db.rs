use vstd::prelude::*;

use crate::decoder::{dec_chars_of, dec_digit_char, FieldValue};

verus! {

/// One persisted event document. The timestamp is wall-clock milliseconds
/// taken when the record is built for writing.
#[derive(Clone, Debug)]
pub struct EventLog {
    pub chain_name: String,
    pub event_name: String,
    pub block_number: u64,
    pub transaction_hash: String,
    pub params: Vec<(String, FieldValue)>,
    pub timestamp: u64,
}

/// The event names the watched contract is known to emit.
#[derive(Clone, Copy, Debug, PartialEq, Eq, Structural)]
pub enum EventType {
    CoordinatorSet,
    DevTaxSent,
    LotteryClaimed,
    LotteryCreated,
    LotteryIncentivized,
    LotteryWinnerDrawn,
    LotteryWinnerRequestSent,
    OwnerChanged,
    OwnershipTransferRequested,
    OwnershipTransferred,
    ReferralTaxSent,
    RequestFulfilled,
    TicketsBought,
}

/// Writes a value in decimal.
pub fn u64_to_decimal(n: u64) -> (r: String)
    ensures
        r@ == dec_chars_of(n as int),
    decreases n,
{
    if n < 10 {
        let c = digit_str(n);
        let mut s = String::new();
        s.append(c);
        proof {
            assert(s@ =~= seq![dec_digit_char(n as int)]);
        }
        s
    } else {
        let mut s = u64_to_decimal(n / 10);
        let c = digit_str(n % 10);
        s.append(c);
        proof {
            assert(s@ =~= dec_chars_of(n as int / 10) + seq![dec_digit_char(n as int % 10)]);
        }
        s
    }
}

/// The spelling of one decimal digit.
fn digit_str(v: u64) -> (c: &'static str)
    requires
        v < 10,
    ensures
        c@ == seq![dec_digit_char(v as int)],
{
    proof {
        reveal_strlit("0");
        reveal_strlit("1");
        reveal_strlit("2");
        reveal_strlit("3");
        reveal_strlit("4");
        reveal_strlit("5");
        reveal_strlit("6");
        reveal_strlit("7");
        reveal_strlit("8");
        reveal_strlit("9");
    }
    if v == 0 {
        "0"
    } else if v == 1 {
        "1"
    } else if v == 2 {
        "2"
    } else if v == 3 {
        "3"
    } else if v == 4 {
        "4"
    } else if v == 5 {
        "5"
    } else if v == 6 {
        "6"
    } else if v == 7 {
        "7"
    } else if v == 8 {
        "8"
    } else {
        "9"
    }
}

/// The connection string the database driver is handed: credentials appear
/// exactly when both a username and a password are known.
pub open spec fn spec_mongodb_uri(
    username: Option<Seq<char>>,
    password: Option<Seq<char>>,
    host: Seq<char>,
    port: u16,
) -> Seq<char> {
    match (username, password) {
        (Some(u), Some(p)) => "mongodb://"@ + u + ":"@ + p + "@"@ + host + ":"@ + dec_chars_of(
            port as int,
        ),
        _ => "mongodb://"@ + host + ":"@ + dec_chars_of(port as int),
    }
}

/// A credential given in the environment wins over the configured one.
pub fn resolve_credential(env_value: Option<String>, config_value: Option<String>) -> (r: Option<
    String,
>)
    ensures
        r == (if env_value is Some {
            env_value
        } else {
            config_value
        }),
{
    match env_value {
        Some(v) => Some(v),
        None => config_value,
    }
}

/// Builds the connection string for the configured database, with the
/// resolved credentials when both parts are present.
pub fn mongodb_uri(
    username: &Option<String>,
    password: &Option<String>,
    db_host: &str,
    db_port: u16,
) -> (r: String)
    ensures
        r@ == spec_mongodb_uri(
            match username {
                Some(u) => Some(u@),
                None => None,
            },
            match password {
                Some(p) => Some(p@),
                None => None,
            },
            db_host@,
            db_port,
        ),
{
    let mut s = String::from_str("mongodb://");
    proof {
        reveal_strlit("mongodb://");
        reveal_strlit(":");
        reveal_strlit("@");
    }
    match (username, password) {
        (Some(u), Some(p)) => {
            s.append(u.as_str());
            s.append(":");
            s.append(p.as_str());
            s.append("@");
        },
        _ => {},
    }
    s.append(db_host);
    s.append(":");
    let port_str = u64_to_decimal(db_port as u64);
    s.append(port_str.as_str());
    s
}

} // verus!
