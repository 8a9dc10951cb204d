//! Interactive terminal sessions on containers, multiplexed over the
//! agent's channel by session id: how terminal data travels.

use vstd::prelude::*;

use crate::agent::codec::{base64_standard_decode, base64_standard_encode, decode_base64, encode_base64};

verus! {

/// The terminal output of a session as it travels: base64.
pub fn exec_output_data(bytes: &[u8]) -> (res: String)
    ensures
        res@ == base64_standard_encode(bytes@),
{
    encode_base64(bytes)
}

/// The bytes of a session's input, if it is base64; input that is not is
/// dropped.
pub fn exec_input_bytes(data: &str) -> (res: Option<Vec<u8>>)
    ensures
        match base64_standard_decode(data@) {
            Some(b) => res matches Some(r) && r@ == b,
            None => res is None,
        },
{
    decode_base64(data)
}

/// The exit code a session reports when it could not start.
pub const EXEC_FAILED: i64 = -1;

} // verus!
