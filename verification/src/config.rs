//! What a run is configured with: the key, the account, the worker count.

use vstd::prelude::*;
use vstd::string::StringSliceAdditionalSpecFns;
use crate::field::FieldElement;
use crate::hex::{parse_hex, ParseError};

verus! {

/// The number of workers when none is asked for.
pub const DEFAULT_WORKER_COUNT: usize = 3;

/// Why a run cannot start.
#[derive(Clone, Copy, Debug, PartialEq, Eq, Structural)]
pub enum ConfigError {
    /// No private key was supplied.
    MissingPrivateKey,
    /// The private key is no hex numeral of a field element.
    MalformedPrivateKey(ParseError),
    /// No account address was supplied.
    MissingAccount,
    /// The account address is no hex numeral of a field element.
    MalformedAccount(ParseError),
}

/// The configuration of one run.
#[derive(Clone, Copy, Debug, PartialEq, Eq)]
pub struct Config {
    pub private_key: FieldElement,
    pub account_address: FieldElement,
    pub worker_count: usize,
}

/// What reading the configuration gives, over the bytes of the two values:
/// the private key is looked at first, and each value must be there and be
/// the hex numeral of a field element.
pub open spec fn config_of(private_key: Option<Seq<u8>>, account: Option<Seq<u8>>) -> Result<
    (nat, nat),
    ConfigError,
> {
    match private_key {
        None => Err(ConfigError::MissingPrivateKey),
        Some(key_text) => match parse_hex(key_text) {
            Err(e) => Err(ConfigError::MalformedPrivateKey(e)),
            Ok(key) => match account {
                None => Err(ConfigError::MissingAccount),
                Some(account_text) => match parse_hex(account_text) {
                    Err(e) => Err(ConfigError::MalformedAccount(e)),
                    Ok(address) => Ok((key, address)),
                },
            },
        },
    }
}

/// The bytes of a value that may be missing.
pub open spec fn bytes_of(text: Option<&str>) -> Option<Seq<u8>> {
    match text {
        Some(t) => Some(t.spec_bytes()),
        None => None,
    }
}

/// Reads the configuration from the values that the environment supplied.
pub fn load_config(private_key: Option<&str>, account: Option<&str>, worker_count: usize) -> (r:
    Result<Config, ConfigError>)
    ensures
        r matches Ok(c) ==> config_of(bytes_of(private_key), bytes_of(account)) == Ok::<
            (nat, nat),
            ConfigError,
        >((c.private_key@, c.account_address@)) && c.worker_count == worker_count,
        r matches Err(e) ==> config_of(bytes_of(private_key), bytes_of(account)) == Err::<
            (nat, nat),
            ConfigError,
        >(e),
{
    let key_text = match private_key {
        Some(t) => t,
        None => {
            return Err(ConfigError::MissingPrivateKey);
        },
    };
    let key = match FieldElement::from_hex(key_text) {
        Ok(f) => f,
        Err(e) => {
            return Err(ConfigError::MalformedPrivateKey(e));
        },
    };
    let account_text = match account {
        Some(t) => t,
        None => {
            return Err(ConfigError::MissingAccount);
        },
    };
    let address = match FieldElement::from_hex(account_text) {
        Ok(f) => f,
        Err(e) => {
            return Err(ConfigError::MalformedAccount(e));
        },
    };
    Ok(Config { private_key: key, account_address: address, worker_count })
}

} // verus!
