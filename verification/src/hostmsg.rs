//! The typed payloads of every outbound host call, decoded once at the
//! boundary instead of travelling as positional arguments, and the helpers
//! the host-call surface shares: the metadata word of an onchain submission
//! and the packed `(offset << 32) | length` memory reference handed back to
//! the sandbox.

use vstd::prelude::*;
use vstd::string::StrSliceExecFns;
use crate::ops::WasmDbOp;

verus! {

/// `log`: a line for the host platform's log.
pub struct LogRequest {
    pub text: String,
}

/// `checkTokenValidity`: ask whether the caller's resource token is valid;
/// the answer carries the cost budget.
pub struct TokenValidityRequest {
    pub token_owner_id: String,
    pub token_id: String,
}

/// `submitOnchainTrx`: an onchain effect submitted from inside an applet.
pub struct SubmitTrxRequest {
    pub point_id: String,
    pub machine_id: String,
    pub target_machine_id: String,
    pub key: String,
    pub tag: String,
    pub packet: String,
    pub is_file: bool,
    pub is_base: bool,
    pub is_requester_onchain: bool,
}

/// `httpPost`: an HTTP-style call fired on the applet's behalf.
pub struct HttpPostRequest {
    pub machine_id: String,
    pub url: String,
    pub headers: String,
    pub body: String,
}

/// `runDocker`: start a sandboxed container.
pub struct RunDockerRequest {
    pub machine_id: String,
    pub point_id: String,
    pub input_files: String,
    pub image_name: String,
    pub container_name: String,
}

/// `execDocker`: run a command in a container.
pub struct ExecDockerRequest {
    pub machine_id: String,
    pub image_name: String,
    pub container_name: String,
    pub command: String,
}

/// `copyToDocker`: write a file into a container.
pub struct CopyToDockerRequest {
    pub machine_id: String,
    pub image_name: String,
    pub container_name: String,
    pub file_name: String,
    pub content: String,
}

/// `plantTrigger`: plant a deferred trigger at the host platform.
pub struct PlantTriggerRequest {
    pub machine_id: String,
    pub point_id: String,
    pub input: String,
    pub tag: String,
    pub count: i32,
}

/// `signalPoint`: signal a point at the host platform.
pub struct SignalPointRequest {
    pub machine_id: String,
    pub type_: String,
    pub point_id: String,
    pub user_id: String,
    pub data: String,
}

/// `submitOnchainResponse`: one applet's reported result for the round.
pub struct OnchainResponse {
    pub callback_id: String,
    pub packet: String,
    pub res_code: i32,
    pub error: String,
    pub changes: Vec<WasmDbOp>,
    pub cost: u64,
    pub token_id: String,
    pub token_owner_id: String,
}

/// The decoded metadata word of an onchain submission: first character `'1'`
/// marks a base-chain submission, second `'1'` a file payload, the rest is
/// the tag.
pub struct TrxMeta {
    pub is_base: bool,
    pub is_file: bool,
    pub tag: String,
}

/// Decode the metadata word: absent characters read as `'0'`, and the tag is
/// everything after the two marker characters.
pub fn parse_trx_meta(meta: &str) -> (r: TrxMeta)
    ensures
        r.is_base == (meta@.len() > 0 && meta@[0] == '1'),
        r.is_file == (meta@.len() > 1 && meta@[1] == '1'),
        meta@.len() >= 2 ==> r.tag@ == meta@.skip(2),
        meta@.len() < 2 ==> r.tag@ =~= Seq::<char>::empty(),
{
    let len = meta.unicode_len();
    let is_base = len > 0 && meta.get_char(0) == '1';
    let is_file = len > 1 && meta.get_char(1) == '1';
    let tag = if len >= 2 {
        meta.substring_char(2, len).to_owned()
    } else {
        String::new()
    };
    proof {
        if meta@.len() >= 2 {
            assert(meta@.subrange(2, meta@.len() as int) =~= meta@.skip(2));
        }
    }
    TrxMeta { is_base, is_file, tag }
}

/// Pack a sandbox memory reference as the single value `(offset << 32) |
/// length` returned to the sandbox from every host call with a payload.
pub fn pack_mem_ref(offset: i32, len: i32) -> (r: i64)
    requires
        offset >= 0,
        len >= 0,
    ensures
        r == ((offset as i64) << 32) | (len as i64),
{
    ((offset as i64) << 32) | (len as i64)
}

/// The packing is lossless: both halves are recovered exactly, so the
/// sandbox can address the response buffer the host wrote.
pub proof fn lemma_mem_ref_round_trip(offset: i64, len: i64)
    requires
        0 <= offset < 0x8000_0000,
        0 <= len < 0x8000_0000,
    ensures
        (((offset << 32) | len) >> 32) == offset,
        ((offset << 32) | len) & 0xFFFF_FFFF == len,
{
    assert((((offset << 32) | len) >> 32) == offset) by (bit_vector)
        requires
            0 <= offset < 0x8000_0000,
            0 <= len < 0x8000_0000,
    ;
    assert(((offset << 32) | len) & 0xFFFF_FFFF == len) by (bit_vector)
        requires
            0 <= offset < 0x8000_0000,
            0 <= len < 0x8000_0000,
    ;
}

} // verus!
