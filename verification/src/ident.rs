//! The name under which the relay registers with the broker.
//!
//! The broker tells its clients apart by name, so every run of the relay
//! takes a name of its own: a fixed prefix and a number drawn at random.

use vstd::prelude::*;
use vstd::string::StringExecFns;
use crate::text::{append_decimal, decimal_text};

verus! {

/// The name for the number `nonce`.
pub open spec fn client_name(nonce: u64) -> Seq<char> {
    "mqtt_discord_bridge_"@ + decimal_text(nonce as nat)
}

/// Spells the name for the number `nonce`.
pub fn client_id(nonce: u64) -> (name: String)
    ensures
        name@ == client_name(nonce),
{
    let mut name: String = String::from_str("mqtt_discord_bridge_");
    append_decimal(&mut name, nonce);
    name
}

/// Draws a number with `rand::random`, from the generator of the calling
/// thread. Nothing is claimed of the number: two calls may return anything.
#[verifier::external_body]
fn random_nonce() -> (nonce: u64) {
    rand::random::<u64>()
}

/// A name for this run: the name for some number.
pub fn fresh_client_id() -> (name: String)
    ensures
        exists|nonce: u64| name@ == client_name(nonce),
{
    let nonce: u64 = random_nonce();
    client_id(nonce)
}

} // verus!
