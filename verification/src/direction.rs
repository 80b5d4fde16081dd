//! Traffic direction of a proxy listener, decoded from the host's
//! `listener_direction` property: an 8-byte native-endian signed integer,
//! `1` for inbound, `2` for outbound, anything else unspecified.

use vstd::prelude::*;
use vstd::string::*;

verus! {

#[derive(Debug, Clone, Copy, PartialEq, Eq, Structural)]
pub enum TrafficDirection {
    Unspecified,
    Inbound,
    Outbound,
}

/// The direction a raw listener-direction code stands for.
pub open spec fn spec_direction_of_code(code: i64) -> TrafficDirection {
    if code == 1i64 {
        TrafficDirection::Inbound
    } else if code == 2i64 {
        TrafficDirection::Outbound
    } else {
        TrafficDirection::Unspecified
    }
}

/// Maps a listener-direction code to its direction: `1` is inbound, `2` is
/// outbound, every other code is unspecified.
pub fn direction_from_code(code: i64) -> (d: TrafficDirection)
    ensures
        d == spec_direction_of_code(code),
{
    if code == 1i64 {
        TrafficDirection::Inbound
    } else if code == 2i64 {
        TrafficDirection::Outbound
    } else {
        TrafficDirection::Unspecified
    }
}

impl From<i64> for TrafficDirection {
    fn from(orig: i64) -> (d: TrafficDirection)
        ensures
            d == spec_direction_of_code(orig),
    {
        direction_from_code(orig)
    }
}

impl vstd::std_specs::convert::FromSpecImpl<i64> for TrafficDirection {
    open spec fn obeys_from_spec() -> bool {
        true
    }

    open spec fn from_spec(orig: i64) -> TrafficDirection {
        spec_direction_of_code(orig)
    }
}

impl TrafficDirection {
    /// The direction's name, the form the proxy logs.
    pub fn label(&self) -> (r: String)
        ensures
            match self {
                TrafficDirection::Unspecified => r@ == "unspecified"@,
                TrafficDirection::Inbound => r@ == "inbound"@,
                TrafficDirection::Outbound => r@ == "outbound"@,
            },
    {
        match self {
            TrafficDirection::Unspecified => String::from_str("unspecified"),
            TrafficDirection::Inbound => String::from_str("inbound"),
            TrafficDirection::Outbound => String::from_str("outbound"),
        }
    }
}

/// Relies on i64::from_ne_bytes (with <[u8; 8]>::try_from to shape the
/// argument): reads a signed 64-bit integer from 8 bytes in the machine's
/// native byte order. Which integer a given byte string stands for depends
/// on the machine, so nothing is claimed of the value.
#[verifier::external_body]
fn i64_from_ne_bytes(bytes: &Vec<u8>) -> i64
    requires
        bytes@.len() == 8,
{
    i64::from_ne_bytes(<[u8; 8]>::try_from(bytes.as_slice()).unwrap())
}

/// Decodes the host's `listener_direction` property bytes. A byte string
/// that is not exactly 8 bytes long decodes to `Unspecified`; 8 bytes are
/// read as a native-endian signed integer and mapped by its code.
pub fn decode_direction(bytes: &Vec<u8>) -> (d: TrafficDirection)
    ensures
        bytes@.len() != 8 ==> d == TrafficDirection::Unspecified,
        bytes@.len() == 8 ==> exists|code: i64| d == spec_direction_of_code(code),
{
    if bytes.len() != 8 {
        return TrafficDirection::Unspecified;
    }
    let code = i64_from_ne_bytes(bytes);
    let d = direction_from_code(code);
    proof {
        assert(d == spec_direction_of_code(code));
    }
    d
}

} // verus!
