//! Canonical wire form of protocol messages.
//!
//! Every value has exactly one wire form: a JSON object with its keys in
//! lexicographic order, no insignificant whitespace, absent fields omitted,
//! and strings restricted to printable ASCII without quote or backslash
//! (everything the protocol puts in a string — identifiers, addresses,
//! base-64 blobs, version literals — lies in that set).  The parser accepts
//! exactly the canonical form: a candidate is re-serialized and compared
//! with the input, so whatever it accepts is the canonical form of what it
//! returns.

use vstd::prelude::*;
use vstd::string::StrSliceExecFns;
use vstd::string::StringSliceAdditionalSpecFns;

use crate::crypto::str_bytes;
use crate::crypto::EncryptedData;
use crate::message::{
    env_like, message_like, opt_bytes, payload_env, payload_like, Message, MessageType, Payload,
};
use crate::snf::IpfsPackage;
use crate::transport::WebMessage;
use crate::util;
use crate::util::json_safe;

verus! {

/// Rejection of a string that is no canonical protocol message.
#[derive(Debug, Clone, Copy, PartialEq, Eq, Structural)]
pub struct ProtocolMalformed;

/// A byte string quoted as a JSON string (no escapes: the wire form only
/// carries strings that need none).
pub open spec fn jstr(s: Seq<u8>) -> Seq<u8> {
    seq![34u8] + s + seq![34u8]
}

/// Decimal digits of a natural number.
pub open spec fn spec_dec_u64(n: nat) -> Seq<u8>
    decreases n,
{
    if n < 10 {
        seq![(48 + n) as u8]
    } else {
        spec_dec_u64(n / 10) + seq![(48 + n % 10) as u8]
    }
}

/// Decimal form of an integer, with a leading minus where negative.
pub open spec fn spec_dec_i64(n: int) -> Seq<u8> {
    if n < 0 {
        seq![45u8] + spec_dec_u64((-n) as nat)
    } else {
        spec_dec_u64(n as nat)
    }
}

/// The wire form of an encrypted envelope.
pub open spec fn spec_env_json(e: EncryptedData) -> Seq<u8> {
    l_env_msg() + jstr(e.ct_bytes()) + l_env_epk() + jstr(e.epk_bytes()) + l_env_nonce() + jstr(
        e.nonce_bytes(),
    ) + seq![125u8]
}

/// The wire form of a boolean.
pub open spec fn spec_bool_json(b: bool) -> Seq<u8> {
    if b {
        l_true_lit()
    } else {
        l_false_lit()
    }
}

/// The wire form of a payload.
pub open spec fn spec_payload_json(p: Payload) -> Seq<u8> {
    match p {
        Payload::Text { text } => l_text_open() + jstr(str_bytes(text@)) + seq![125u8],
        Payload::Encrypted { data } => l_data_open() + spec_env_json(data) + l_enc_true(),
        Payload::Handshake { protocol_version, is_response } => l_is_resp() + spec_bool_json(
            is_response,
        ) + l_proto_ver() + jstr(str_bytes(protocol_version@)) + seq![125u8],
        Payload::Ack { original_msg_id } => l_ack_open() + jstr(str_bytes(original_msg_id@))
            + seq![125u8],
        Payload::Empty => l_empty_obj(),
    }
}

/// An optional string field: key and quoted value, or nothing.
pub open spec fn spec_opt_field(key: Seq<u8>, o: Option<String>) -> Seq<u8> {
    match o {
        Some(s) => key + jstr(str_bytes(s@)),
        None => Seq::empty(),
    }
}

/// The wire form of a whole message.
pub open spec fn spec_message_json(m: Message) -> Seq<u8> {
    l_id_open() + jstr(str_bytes(m.id@)) + l_payload() + spec_payload_json(m.payload)
        + spec_opt_field(l_recipient(), m.recipient_id) + spec_opt_field(l_sender(), m.sender_id)
        + spec_opt_field(l_signature(), m.signature) + l_timestamp() + spec_dec_i64(
        m.timestamp as int,
    ) + l_type_key() + jstr(m.msg_type.spec_tag()) + l_version_key() + jstr(str_bytes(m.version@))
        + seq![125u8]
}

/// The literal `{"id":`.
pub open spec fn l_id_open() -> Seq<u8> {
    seq![123u8, 34u8, 105u8, 100u8, 34u8, 58u8]
}

fn emit_id_open(out: &mut Vec<u8>)
    ensures
        final(out)@ == old(out)@ + l_id_open(),
        forall|i: int| old(out)@.len() <= i < final(out)@.len() ==> final(out)@[i] < 128,
{
    let ghost pre = out@;
    out.push(123);
    out.push(34);
    out.push(105);
    out.push(100);
    out.push(34);
    out.push(58);
    proof {
        assert(out@ =~= pre + l_id_open());
    }
}

/// The literal `,"payload":`.
pub open spec fn l_payload() -> Seq<u8> {
    seq![44u8, 34u8, 112u8, 97u8, 121u8, 108u8, 111u8, 97u8, 100u8, 34u8, 58u8]
}

fn emit_payload(out: &mut Vec<u8>)
    ensures
        final(out)@ == old(out)@ + l_payload(),
        forall|i: int| old(out)@.len() <= i < final(out)@.len() ==> final(out)@[i] < 128,
{
    let ghost pre = out@;
    out.push(44);
    out.push(34);
    out.push(112);
    out.push(97);
    out.push(121);
    out.push(108);
    out.push(111);
    out.push(97);
    out.push(100);
    out.push(34);
    out.push(58);
    proof {
        assert(out@ =~= pre + l_payload());
    }
}

/// The literal `,"recipient_id":`.
pub open spec fn l_recipient() -> Seq<u8> {
    seq![44u8, 34u8, 114u8, 101u8, 99u8, 105u8, 112u8, 105u8, 101u8, 110u8, 116u8, 95u8, 105u8, 100u8, 34u8, 58u8]
}

fn emit_recipient(out: &mut Vec<u8>)
    ensures
        final(out)@ == old(out)@ + l_recipient(),
        forall|i: int| old(out)@.len() <= i < final(out)@.len() ==> final(out)@[i] < 128,
{
    let ghost pre = out@;
    out.push(44);
    out.push(34);
    out.push(114);
    out.push(101);
    out.push(99);
    out.push(105);
    out.push(112);
    out.push(105);
    out.push(101);
    out.push(110);
    out.push(116);
    out.push(95);
    out.push(105);
    out.push(100);
    out.push(34);
    out.push(58);
    proof {
        assert(out@ =~= pre + l_recipient());
    }
}

/// The literal `,"sender_id":`.
pub open spec fn l_sender() -> Seq<u8> {
    seq![44u8, 34u8, 115u8, 101u8, 110u8, 100u8, 101u8, 114u8, 95u8, 105u8, 100u8, 34u8, 58u8]
}

fn emit_sender(out: &mut Vec<u8>)
    ensures
        final(out)@ == old(out)@ + l_sender(),
        forall|i: int| old(out)@.len() <= i < final(out)@.len() ==> final(out)@[i] < 128,
{
    let ghost pre = out@;
    out.push(44);
    out.push(34);
    out.push(115);
    out.push(101);
    out.push(110);
    out.push(100);
    out.push(101);
    out.push(114);
    out.push(95);
    out.push(105);
    out.push(100);
    out.push(34);
    out.push(58);
    proof {
        assert(out@ =~= pre + l_sender());
    }
}

/// The literal `,"signature":`.
pub open spec fn l_signature() -> Seq<u8> {
    seq![44u8, 34u8, 115u8, 105u8, 103u8, 110u8, 97u8, 116u8, 117u8, 114u8, 101u8, 34u8, 58u8]
}

fn emit_signature(out: &mut Vec<u8>)
    ensures
        final(out)@ == old(out)@ + l_signature(),
        forall|i: int| old(out)@.len() <= i < final(out)@.len() ==> final(out)@[i] < 128,
{
    let ghost pre = out@;
    out.push(44);
    out.push(34);
    out.push(115);
    out.push(105);
    out.push(103);
    out.push(110);
    out.push(97);
    out.push(116);
    out.push(117);
    out.push(114);
    out.push(101);
    out.push(34);
    out.push(58);
    proof {
        assert(out@ =~= pre + l_signature());
    }
}

/// The literal `,"timestamp":`.
pub open spec fn l_timestamp() -> Seq<u8> {
    seq![44u8, 34u8, 116u8, 105u8, 109u8, 101u8, 115u8, 116u8, 97u8, 109u8, 112u8, 34u8, 58u8]
}

fn emit_timestamp(out: &mut Vec<u8>)
    ensures
        final(out)@ == old(out)@ + l_timestamp(),
        forall|i: int| old(out)@.len() <= i < final(out)@.len() ==> final(out)@[i] < 128,
{
    let ghost pre = out@;
    out.push(44);
    out.push(34);
    out.push(116);
    out.push(105);
    out.push(109);
    out.push(101);
    out.push(115);
    out.push(116);
    out.push(97);
    out.push(109);
    out.push(112);
    out.push(34);
    out.push(58);
    proof {
        assert(out@ =~= pre + l_timestamp());
    }
}

/// The literal `,"type":`.
pub open spec fn l_type_key() -> Seq<u8> {
    seq![44u8, 34u8, 116u8, 121u8, 112u8, 101u8, 34u8, 58u8]
}

fn emit_type_key(out: &mut Vec<u8>)
    ensures
        final(out)@ == old(out)@ + l_type_key(),
        forall|i: int| old(out)@.len() <= i < final(out)@.len() ==> final(out)@[i] < 128,
{
    let ghost pre = out@;
    out.push(44);
    out.push(34);
    out.push(116);
    out.push(121);
    out.push(112);
    out.push(101);
    out.push(34);
    out.push(58);
    proof {
        assert(out@ =~= pre + l_type_key());
    }
}

/// The literal `,"version":`.
pub open spec fn l_version_key() -> Seq<u8> {
    seq![44u8, 34u8, 118u8, 101u8, 114u8, 115u8, 105u8, 111u8, 110u8, 34u8, 58u8]
}

fn emit_version_key(out: &mut Vec<u8>)
    ensures
        final(out)@ == old(out)@ + l_version_key(),
        forall|i: int| old(out)@.len() <= i < final(out)@.len() ==> final(out)@[i] < 128,
{
    let ghost pre = out@;
    out.push(44);
    out.push(34);
    out.push(118);
    out.push(101);
    out.push(114);
    out.push(115);
    out.push(105);
    out.push(111);
    out.push(110);
    out.push(34);
    out.push(58);
    proof {
        assert(out@ =~= pre + l_version_key());
    }
}

/// The literal `{"encrypted_message":`.
pub open spec fn l_env_msg() -> Seq<u8> {
    seq![123u8, 34u8, 101u8, 110u8, 99u8, 114u8, 121u8, 112u8, 116u8, 101u8, 100u8, 95u8, 109u8, 101u8, 115u8, 115u8, 97u8, 103u8, 101u8, 34u8, 58u8]
}

fn emit_env_msg(out: &mut Vec<u8>)
    ensures
        final(out)@ == old(out)@ + l_env_msg(),
        forall|i: int| old(out)@.len() <= i < final(out)@.len() ==> final(out)@[i] < 128,
{
    let ghost pre = out@;
    out.push(123);
    out.push(34);
    out.push(101);
    out.push(110);
    out.push(99);
    out.push(114);
    out.push(121);
    out.push(112);
    out.push(116);
    out.push(101);
    out.push(100);
    out.push(95);
    out.push(109);
    out.push(101);
    out.push(115);
    out.push(115);
    out.push(97);
    out.push(103);
    out.push(101);
    out.push(34);
    out.push(58);
    proof {
        assert(out@ =~= pre + l_env_msg());
    }
}

/// The literal `,"ephemeral_public_key":`.
pub open spec fn l_env_epk() -> Seq<u8> {
    seq![44u8, 34u8, 101u8, 112u8, 104u8, 101u8, 109u8, 101u8, 114u8, 97u8, 108u8, 95u8, 112u8, 117u8, 98u8, 108u8, 105u8, 99u8, 95u8, 107u8, 101u8, 121u8, 34u8, 58u8]
}

fn emit_env_epk(out: &mut Vec<u8>)
    ensures
        final(out)@ == old(out)@ + l_env_epk(),
        forall|i: int| old(out)@.len() <= i < final(out)@.len() ==> final(out)@[i] < 128,
{
    let ghost pre = out@;
    out.push(44);
    out.push(34);
    out.push(101);
    out.push(112);
    out.push(104);
    out.push(101);
    out.push(109);
    out.push(101);
    out.push(114);
    out.push(97);
    out.push(108);
    out.push(95);
    out.push(112);
    out.push(117);
    out.push(98);
    out.push(108);
    out.push(105);
    out.push(99);
    out.push(95);
    out.push(107);
    out.push(101);
    out.push(121);
    out.push(34);
    out.push(58);
    proof {
        assert(out@ =~= pre + l_env_epk());
    }
}

/// The literal `,"nonce":`.
pub open spec fn l_env_nonce() -> Seq<u8> {
    seq![44u8, 34u8, 110u8, 111u8, 110u8, 99u8, 101u8, 34u8, 58u8]
}

fn emit_env_nonce(out: &mut Vec<u8>)
    ensures
        final(out)@ == old(out)@ + l_env_nonce(),
        forall|i: int| old(out)@.len() <= i < final(out)@.len() ==> final(out)@[i] < 128,
{
    let ghost pre = out@;
    out.push(44);
    out.push(34);
    out.push(110);
    out.push(111);
    out.push(110);
    out.push(99);
    out.push(101);
    out.push(34);
    out.push(58);
    proof {
        assert(out@ =~= pre + l_env_nonce());
    }
}

/// The literal `{"text":`.
pub open spec fn l_text_open() -> Seq<u8> {
    seq![123u8, 34u8, 116u8, 101u8, 120u8, 116u8, 34u8, 58u8]
}

fn emit_text_open(out: &mut Vec<u8>)
    ensures
        final(out)@ == old(out)@ + l_text_open(),
        forall|i: int| old(out)@.len() <= i < final(out)@.len() ==> final(out)@[i] < 128,
{
    let ghost pre = out@;
    out.push(123);
    out.push(34);
    out.push(116);
    out.push(101);
    out.push(120);
    out.push(116);
    out.push(34);
    out.push(58);
    proof {
        assert(out@ =~= pre + l_text_open());
    }
}

/// The literal `{"data":`.
pub open spec fn l_data_open() -> Seq<u8> {
    seq![123u8, 34u8, 100u8, 97u8, 116u8, 97u8, 34u8, 58u8]
}

fn emit_data_open(out: &mut Vec<u8>)
    ensures
        final(out)@ == old(out)@ + l_data_open(),
        forall|i: int| old(out)@.len() <= i < final(out)@.len() ==> final(out)@[i] < 128,
{
    let ghost pre = out@;
    out.push(123);
    out.push(34);
    out.push(100);
    out.push(97);
    out.push(116);
    out.push(97);
    out.push(34);
    out.push(58);
    proof {
        assert(out@ =~= pre + l_data_open());
    }
}

/// The literal `,"encrypted":true}`.
pub open spec fn l_enc_true() -> Seq<u8> {
    seq![44u8, 34u8, 101u8, 110u8, 99u8, 114u8, 121u8, 112u8, 116u8, 101u8, 100u8, 34u8, 58u8, 116u8, 114u8, 117u8, 101u8, 125u8]
}

fn emit_enc_true(out: &mut Vec<u8>)
    ensures
        final(out)@ == old(out)@ + l_enc_true(),
        forall|i: int| old(out)@.len() <= i < final(out)@.len() ==> final(out)@[i] < 128,
{
    let ghost pre = out@;
    out.push(44);
    out.push(34);
    out.push(101);
    out.push(110);
    out.push(99);
    out.push(114);
    out.push(121);
    out.push(112);
    out.push(116);
    out.push(101);
    out.push(100);
    out.push(34);
    out.push(58);
    out.push(116);
    out.push(114);
    out.push(117);
    out.push(101);
    out.push(125);
    proof {
        assert(out@ =~= pre + l_enc_true());
    }
}

/// The literal `{"is_response":`.
pub open spec fn l_is_resp() -> Seq<u8> {
    seq![123u8, 34u8, 105u8, 115u8, 95u8, 114u8, 101u8, 115u8, 112u8, 111u8, 110u8, 115u8, 101u8, 34u8, 58u8]
}

fn emit_is_resp(out: &mut Vec<u8>)
    ensures
        final(out)@ == old(out)@ + l_is_resp(),
        forall|i: int| old(out)@.len() <= i < final(out)@.len() ==> final(out)@[i] < 128,
{
    let ghost pre = out@;
    out.push(123);
    out.push(34);
    out.push(105);
    out.push(115);
    out.push(95);
    out.push(114);
    out.push(101);
    out.push(115);
    out.push(112);
    out.push(111);
    out.push(110);
    out.push(115);
    out.push(101);
    out.push(34);
    out.push(58);
    proof {
        assert(out@ =~= pre + l_is_resp());
    }
}

/// The literal `true`.
pub open spec fn l_true_lit() -> Seq<u8> {
    seq![116u8, 114u8, 117u8, 101u8]
}

fn emit_true_lit(out: &mut Vec<u8>)
    ensures
        final(out)@ == old(out)@ + l_true_lit(),
        forall|i: int| old(out)@.len() <= i < final(out)@.len() ==> final(out)@[i] < 128,
{
    let ghost pre = out@;
    out.push(116);
    out.push(114);
    out.push(117);
    out.push(101);
    proof {
        assert(out@ =~= pre + l_true_lit());
    }
}

/// The literal `false`.
pub open spec fn l_false_lit() -> Seq<u8> {
    seq![102u8, 97u8, 108u8, 115u8, 101u8]
}

fn emit_false_lit(out: &mut Vec<u8>)
    ensures
        final(out)@ == old(out)@ + l_false_lit(),
        forall|i: int| old(out)@.len() <= i < final(out)@.len() ==> final(out)@[i] < 128,
{
    let ghost pre = out@;
    out.push(102);
    out.push(97);
    out.push(108);
    out.push(115);
    out.push(101);
    proof {
        assert(out@ =~= pre + l_false_lit());
    }
}

/// The literal `,"protocol_version":`.
pub open spec fn l_proto_ver() -> Seq<u8> {
    seq![44u8, 34u8, 112u8, 114u8, 111u8, 116u8, 111u8, 99u8, 111u8, 108u8, 95u8, 118u8, 101u8, 114u8, 115u8, 105u8, 111u8, 110u8, 34u8, 58u8]
}

fn emit_proto_ver(out: &mut Vec<u8>)
    ensures
        final(out)@ == old(out)@ + l_proto_ver(),
        forall|i: int| old(out)@.len() <= i < final(out)@.len() ==> final(out)@[i] < 128,
{
    let ghost pre = out@;
    out.push(44);
    out.push(34);
    out.push(112);
    out.push(114);
    out.push(111);
    out.push(116);
    out.push(111);
    out.push(99);
    out.push(111);
    out.push(108);
    out.push(95);
    out.push(118);
    out.push(101);
    out.push(114);
    out.push(115);
    out.push(105);
    out.push(111);
    out.push(110);
    out.push(34);
    out.push(58);
    proof {
        assert(out@ =~= pre + l_proto_ver());
    }
}

/// The literal `{"original_msg_id":`.
pub open spec fn l_ack_open() -> Seq<u8> {
    seq![123u8, 34u8, 111u8, 114u8, 105u8, 103u8, 105u8, 110u8, 97u8, 108u8, 95u8, 109u8, 115u8, 103u8, 95u8, 105u8, 100u8, 34u8, 58u8]
}

fn emit_ack_open(out: &mut Vec<u8>)
    ensures
        final(out)@ == old(out)@ + l_ack_open(),
        forall|i: int| old(out)@.len() <= i < final(out)@.len() ==> final(out)@[i] < 128,
{
    let ghost pre = out@;
    out.push(123);
    out.push(34);
    out.push(111);
    out.push(114);
    out.push(105);
    out.push(103);
    out.push(105);
    out.push(110);
    out.push(97);
    out.push(108);
    out.push(95);
    out.push(109);
    out.push(115);
    out.push(103);
    out.push(95);
    out.push(105);
    out.push(100);
    out.push(34);
    out.push(58);
    proof {
        assert(out@ =~= pre + l_ack_open());
    }
}

/// The literal `{}`.
pub open spec fn l_empty_obj() -> Seq<u8> {
    seq![123u8, 125u8]
}

fn emit_empty_obj(out: &mut Vec<u8>)
    ensures
        final(out)@ == old(out)@ + l_empty_obj(),
        forall|i: int| old(out)@.len() <= i < final(out)@.len() ==> final(out)@[i] < 128,
{
    let ghost pre = out@;
    out.push(123);
    out.push(125);
    proof {
        assert(out@ =~= pre + l_empty_obj());
    }
}

/// The literal `{"sender":`.
pub open spec fn l_web_sender() -> Seq<u8> {
    seq![123u8, 34u8, 115u8, 101u8, 110u8, 100u8, 101u8, 114u8, 34u8, 58u8]
}

fn emit_web_sender(out: &mut Vec<u8>)
    ensures
        final(out)@ == old(out)@ + l_web_sender(),
        forall|i: int| old(out)@.len() <= i < final(out)@.len() ==> final(out)@[i] < 128,
{
    let ghost pre = out@;
    out.push(123);
    out.push(34);
    out.push(115);
    out.push(101);
    out.push(110);
    out.push(100);
    out.push(101);
    out.push(114);
    out.push(34);
    out.push(58);
    proof {
        assert(out@ =~= pre + l_web_sender());
    }
}

/// The literal `,"text":`.
pub open spec fn l_web_text() -> Seq<u8> {
    seq![44u8, 34u8, 116u8, 101u8, 120u8, 116u8, 34u8, 58u8]
}

fn emit_web_text(out: &mut Vec<u8>)
    ensures
        final(out)@ == old(out)@ + l_web_text(),
        forall|i: int| old(out)@.len() <= i < final(out)@.len() ==> final(out)@[i] < 128,
{
    let ghost pre = out@;
    out.push(44);
    out.push(34);
    out.push(116);
    out.push(101);
    out.push(120);
    out.push(116);
    out.push(34);
    out.push(58);
    proof {
        assert(out@ =~= pre + l_web_text());
    }
}

/// The literal `,"timestamp":`.
pub open spec fn l_web_ts() -> Seq<u8> {
    seq![44u8, 34u8, 116u8, 105u8, 109u8, 101u8, 115u8, 116u8, 97u8, 109u8, 112u8, 34u8, 58u8]
}

fn emit_web_ts(out: &mut Vec<u8>)
    ensures
        final(out)@ == old(out)@ + l_web_ts(),
        forall|i: int| old(out)@.len() <= i < final(out)@.len() ==> final(out)@[i] < 128,
{
    let ghost pre = out@;
    out.push(44);
    out.push(34);
    out.push(116);
    out.push(105);
    out.push(109);
    out.push(101);
    out.push(115);
    out.push(116);
    out.push(97);
    out.push(109);
    out.push(112);
    out.push(34);
    out.push(58);
    proof {
        assert(out@ =~= pre + l_web_ts());
    }
}

/// The literal `,"type":"web_message"}`.
pub open spec fn l_web_close() -> Seq<u8> {
    seq![44u8, 34u8, 116u8, 121u8, 112u8, 101u8, 34u8, 58u8, 34u8, 119u8, 101u8, 98u8, 95u8, 109u8, 101u8, 115u8, 115u8, 97u8, 103u8, 101u8, 34u8, 125u8]
}

fn emit_web_close(out: &mut Vec<u8>)
    ensures
        final(out)@ == old(out)@ + l_web_close(),
        forall|i: int| old(out)@.len() <= i < final(out)@.len() ==> final(out)@[i] < 128,
{
    let ghost pre = out@;
    out.push(44);
    out.push(34);
    out.push(116);
    out.push(121);
    out.push(112);
    out.push(101);
    out.push(34);
    out.push(58);
    out.push(34);
    out.push(119);
    out.push(101);
    out.push(98);
    out.push(95);
    out.push(109);
    out.push(101);
    out.push(115);
    out.push(115);
    out.push(97);
    out.push(103);
    out.push(101);
    out.push(34);
    out.push(125);
    proof {
        assert(out@ =~= pre + l_web_close());
    }
}

/// The literal `,"recipient_hash":`.
pub open spec fn l_pkg_hash() -> Seq<u8> {
    seq![44u8, 34u8, 114u8, 101u8, 99u8, 105u8, 112u8, 105u8, 101u8, 110u8, 116u8, 95u8, 104u8, 97u8, 115u8, 104u8, 34u8, 58u8]
}

fn emit_pkg_hash(out: &mut Vec<u8>)
    ensures
        final(out)@ == old(out)@ + l_pkg_hash(),
        forall|i: int| old(out)@.len() <= i < final(out)@.len() ==> final(out)@[i] < 128,
{
    let ghost pre = out@;
    out.push(44);
    out.push(34);
    out.push(114);
    out.push(101);
    out.push(99);
    out.push(105);
    out.push(112);
    out.push(105);
    out.push(101);
    out.push(110);
    out.push(116);
    out.push(95);
    out.push(104);
    out.push(97);
    out.push(115);
    out.push(104);
    out.push(34);
    out.push(58);
    proof {
        assert(out@ =~= pre + l_pkg_hash());
    }
}

/// Decimal digits of `n`.
pub(crate) fn dec_u64(n: u64) -> (r: Vec<u8>)
    ensures
        r@ == spec_dec_u64(n as nat),
        forall|i: int| 0 <= i < r@.len() ==> 48 <= #[trigger] r@[i] <= 57,
    decreases n,
{
    if n < 10 {
        let mut v: Vec<u8> = Vec::new();
        v.push(48 + (n as u8));
        proof {
            assert(v@ =~= spec_dec_u64(n as nat));
        }
        v
    } else {
        let mut v = dec_u64(n / 10);
        v.push(48 + ((n % 10) as u8));
        proof {
            assert(v@ =~= spec_dec_u64((n / 10) as nat) + seq![(48 + (n as nat) % 10) as u8]);
        }
        v
    }
}

/// Append the decimal form of `n`.
pub(crate) fn emit_dec_i64(out: &mut Vec<u8>, n: i64)
    ensures
        final(out)@ == old(out)@ + spec_dec_i64(n as int),
        forall|i: int| old(out)@.len() <= i < final(out)@.len() ==> final(out)@[i] < 128,
{
    let ghost pre = out@;
    let mag: u64 = if n >= 0 {
        n as u64
    } else {
        out.push(45);
        if n == i64::MIN {
            9223372036854775808u64
        } else {
            (-n) as u64
        }
    };
    let digits = dec_u64(mag);
    util::push_bytes(out, digits.as_slice());
    proof {
        if n >= 0 {
            assert(out@ =~= pre + spec_dec_i64(n as int));
        } else {
            assert(mag as nat == (-(n as int)) as nat);
            assert(out@ =~= pre + spec_dec_i64(n as int));
        }
    }
}

/// Append a quoted string.
fn emit_jstr(out: &mut Vec<u8>, s: &str)
    requires
        json_safe(s.spec_bytes()),
    ensures
        final(out)@ == old(out)@ + jstr(s.spec_bytes()),
        forall|i: int| old(out)@.len() <= i < final(out)@.len() ==> final(out)@[i] < 128,
{
    let ghost pre = out@;
    out.push(34);
    let v: Vec<u8> = s.as_bytes_vec();
    util::push_bytes(out, v.as_slice());
    out.push(34);
    proof {
        assert(out@ =~= pre + jstr(s.spec_bytes()));
    }
}

/// Append the quoted bytes of a vector.
fn emit_jstr_bytes(out: &mut Vec<u8>, v: &Vec<u8>)
    requires
        json_safe(v@),
    ensures
        final(out)@ == old(out)@ + jstr(v@),
        forall|i: int| old(out)@.len() <= i < final(out)@.len() ==> final(out)@[i] < 128,
{
    let ghost pre = out@;
    out.push(34);
    util::push_bytes(out, v.as_slice());
    out.push(34);
    proof {
        assert(out@ =~= pre + jstr(v@));
    }
}

/// Append the wire form of an envelope.
fn emit_env(out: &mut Vec<u8>, e: &EncryptedData)
    requires
        json_safe(e.ct_bytes()),
        json_safe(e.epk_bytes()),
        json_safe(e.nonce_bytes()),
    ensures
        final(out)@ == old(out)@ + spec_env_json(*e),
        forall|i: int| old(out)@.len() <= i < final(out)@.len() ==> final(out)@[i] < 128,
{
    let ghost pre = out@;
    emit_env_msg(out);
    emit_jstr(out, e.encrypted_message.as_str());
    emit_env_epk(out);
    emit_jstr(out, e.ephemeral_public_key.as_str());
    emit_env_nonce(out);
    emit_jstr(out, e.nonce.as_str());
    out.push(125);
    proof {
        assert(out@ =~= pre + spec_env_json(*e));
    }
}

/// Append the wire form of a payload.
pub(crate) fn emit_payload_body(out: &mut Vec<u8>, p: &Payload)
    requires
        p.wf(),
    ensures
        final(out)@ == old(out)@ + spec_payload_json(*p),
        forall|i: int| old(out)@.len() <= i < final(out)@.len() ==> final(out)@[i] < 128,
{
    let ghost pre = out@;
    match p {
        Payload::Text { text } => {
            emit_text_open(out);
            emit_jstr(out, text.as_str());
            out.push(125);
        },
        Payload::Encrypted { data } => {
            emit_data_open(out);
            emit_env(out, data);
            emit_enc_true(out);
        },
        Payload::Handshake { protocol_version, is_response } => {
            emit_is_resp(out);
            if *is_response {
                emit_true_lit(out);
            } else {
                emit_false_lit(out);
            }
            emit_proto_ver(out);
            emit_jstr(out, protocol_version.as_str());
            out.push(125);
        },
        Payload::Ack { original_msg_id } => {
            emit_ack_open(out);
            emit_jstr(out, original_msg_id.as_str());
            out.push(125);
        },
        Payload::Empty => {
            emit_empty_obj(out);
        },
    }
    proof {
        assert(out@ =~= pre + spec_payload_json(*p));
    }
}

/// The wire bytes of a message.
#[verifier::rlimit(50)]
pub fn message_to_json_bytes(m: &Message) -> (r: Vec<u8>)
    requires
        m.wf(),
    ensures
        r@ == spec_message_json(*m),
        forall|i: int| 0 <= i < r@.len() ==> r@[i] < 128,
{
    let mut out: Vec<u8> = Vec::new();
    emit_id_open(&mut out);
    emit_jstr(&mut out, m.id.as_str());
    let ghost e1 = l_id_open() + jstr(str_bytes(m.id@));
    proof {
        assert(out@ =~= e1);
        assert(forall|i: int| 0 <= i < out@.len() ==> out@[i] < 128);
    }
    emit_payload(&mut out);
    emit_payload_body(&mut out, &m.payload);
    let ghost e2 = e1 + l_payload() + spec_payload_json(m.payload);
    proof {
        assert(out@ =~= e2);
        assert(forall|i: int| 0 <= i < out@.len() ==> out@[i] < 128);
    }
    match &m.recipient_id {
        Some(s) => {
            emit_recipient(&mut out);
            emit_jstr(&mut out, s.as_str());
        },
        None => {},
    }
    let ghost e3 = e2 + spec_opt_field(l_recipient(), m.recipient_id);
    proof {
        assert(out@ =~= e3);
        assert(forall|i: int| 0 <= i < out@.len() ==> out@[i] < 128);
    }
    match &m.sender_id {
        Some(s) => {
            emit_sender(&mut out);
            emit_jstr(&mut out, s.as_str());
        },
        None => {},
    }
    let ghost e4 = e3 + spec_opt_field(l_sender(), m.sender_id);
    proof {
        assert(out@ =~= e4);
        assert(forall|i: int| 0 <= i < out@.len() ==> out@[i] < 128);
    }
    match &m.signature {
        Some(s) => {
            emit_signature(&mut out);
            emit_jstr(&mut out, s.as_str());
        },
        None => {},
    }
    let ghost e5 = e4 + spec_opt_field(l_signature(), m.signature);
    proof {
        assert(out@ =~= e5);
        assert(forall|i: int| 0 <= i < out@.len() ==> out@[i] < 128);
    }
    emit_timestamp(&mut out);
    emit_dec_i64(&mut out, m.timestamp);
    let ghost e6 = e5 + l_timestamp() + spec_dec_i64(m.timestamp as int);
    proof {
        assert(out@ =~= e6);
        assert(forall|i: int| 0 <= i < out@.len() ==> out@[i] < 128);
    }
    emit_type_key(&mut out);
    let tag = m.msg_type.tag_bytes();
    proof {
        lemma_tag_safe(m.msg_type);
    }
    emit_jstr_bytes(&mut out, &tag);
    let ghost e7 = e6 + l_type_key() + jstr(m.msg_type.spec_tag());
    proof {
        assert(out@ =~= e7);
        assert(forall|i: int| 0 <= i < out@.len() ==> out@[i] < 128);
    }
    emit_version_key(&mut out);
    emit_jstr(&mut out, m.version.as_str());
    out.push(125);
    proof {
        assert(out@ =~= e7 + l_version_key() + jstr(str_bytes(m.version@)) + seq![125u8]);
        assert(out@ =~= spec_message_json(*m));
        assert(forall|i: int| 0 <= i < out@.len() ==> out@[i] < 128);
    }
    out
}

/// Every kind tag is wire-safe.
proof fn lemma_tag_safe(t: MessageType)
    ensures
        json_safe(t.spec_tag()),
{
    let s = t.spec_tag();
    assert forall|i: int| 0 <= i < s.len() implies 32 <= #[trigger] s[i] <= 126 && s[i] != 34
        && s[i] != 92 by {
        match t {
            MessageType::Text => {},
            MessageType::Handshake => {},
            MessageType::Ack => {},
            MessageType::KeyExchange => {},
            MessageType::Ping => {},
            MessageType::Pong => {},
            MessageType::Image => {},
            MessageType::Audio => {},
            MessageType::File => {},
            MessageType::Ipfs => {},
        }
    }
}

/// Advance past `lit` exactly when the input continues with it.
fn take_lit(b: &Vec<u8>, pos: &mut usize, lit: &Vec<u8>) -> (r: bool)
    requires
        *old(pos) <= b@.len(),
    ensures
        *final(pos) <= b@.len(),
        !r ==> *final(pos) == *old(pos),
        r ==> *final(pos) == *old(pos) + lit@.len(),
        r == (*old(pos) + lit@.len() <= b@.len() && b@.subrange(
            *old(pos) as int,
            *old(pos) + lit@.len(),
        ) =~= lit@),
{
    let n = b.len();
    let m = lit.len();
    if m > n - *pos {
        return false;
    }
    let start = *pos;
    let mut i: usize = 0;
    while i < m
        invariant
            b@.len() == n,
            lit@.len() == m,
            start + m <= n,
            i <= m,
            *pos == *old(pos),
            start == *old(pos),
            *pos <= n,
            forall|k: int| 0 <= k < i ==> b@[start + k] == lit@[k],
        decreases m - i,
    {
        if b[start + i] != lit[i] {
            proof {
                assert(b@.subrange(start as int, start + m as int)[i as int] == b@[start + i]);
            }
            return false;
        }
        i = i + 1;
    }
    proof {
        assert(b@.subrange(start as int, start + m as int) =~= lit@);
    }
    *pos = start + m;
    true
}

/// Advance past one expected byte exactly when it is next.
fn take_byte(b: &Vec<u8>, pos: &mut usize, c: u8) -> (r: bool)
    requires
        *old(pos) <= b@.len(),
    ensures
        *final(pos) <= b@.len(),
        !r ==> *final(pos) == *old(pos),
        r ==> *final(pos) == *old(pos) + 1,
        r == (*old(pos) < b@.len() && b@[*old(pos) as int] == c),
{
    if *pos < b.len() && b[*pos] == c {
        *pos = *pos + 1;
        true
    } else {
        false
    }
}

/// Read a quoted wire-safe string as raw bytes; a quoted safe string that
/// is next is always read, whole.
fn read_jstr_bytes(b: &Vec<u8>, pos: &mut usize) -> (r: Option<Vec<u8>>)
    requires
        *old(pos) <= b@.len(),
    ensures
        *final(pos) <= b@.len(),
        r matches Some(v) ==> json_safe(v@) && (forall|i: int| 0 <= i < v@.len() ==> v@[i] < 128),
        forall|s: Seq<u8>|
            (json_safe(s) && *old(pos) + s.len() + 2 <= b@.len() && b@.subrange(
                *old(pos) as int,
                *old(pos) + s.len() + 2,
            ) =~= #[trigger] jstr(s)) ==> (r matches Some(v) && v@ == s && *final(pos) == *old(pos) + s.len() + 2),
{
    let ghost p0 = *pos as int;
    let n = b.len();
    let mut p = *pos;
    if !(p < n && b[p] == 34) {
        proof {
            assert forall|s: Seq<u8>|
                (json_safe(s) && p0 + s.len() + 2 <= b@.len() && b@.subrange(
                    p0,
                    p0 + s.len() + 2,
                ) =~= jstr(s)) implies false by {
                assert(b@.subrange(p0, p0 + s.len() + 2)[0] == b@[p0]);
                assert(jstr(s)[0] == 34);
            }
        }
        return None;
    }
    p = p + 1;
    let mut out: Vec<u8> = Vec::new();
    while p < n && b[p] != 34
        invariant
            b@.len() == n,
            p0 + 1 <= p <= n,
            *pos == *old(pos),
            p0 == *old(pos) as int,
            *pos <= n,
            out@ =~= b@.subrange(p0 + 1, p as int),
            forall|k: int| p0 + 1 <= k < p ==> b@[k] != 34,
            json_safe(out@),
            forall|i: int| 0 <= i < out@.len() ==> out@[i] < 128,
        decreases n - p,
    {
        let c = b[p];
        if c < 32 || c > 126 || c == 92 {
            proof {
                assert forall|s: Seq<u8>|
                    (json_safe(s) && p0 + s.len() + 2 <= b@.len() && b@.subrange(
                        p0,
                        p0 + s.len() + 2,
                    ) =~= jstr(s)) implies false by {
                    lemma_jstr_region(b@, p0, s, p as int);
                }
            }
            return None;
        }
        out.push(c);
        p = p + 1;
        proof {
            assert(out@ =~= b@.subrange(p0 + 1, p as int));
        }
    }
    if !(p < n) {
        proof {
            assert forall|s: Seq<u8>|
                (json_safe(s) && p0 + s.len() + 2 <= b@.len() && b@.subrange(
                    p0,
                    p0 + s.len() + 2,
                ) =~= jstr(s)) implies false by {
                lemma_jstr_region(b@, p0, s, p as int);
            }
        }
        return None;
    }
    p = p + 1;
    *pos = p;
    proof {
        assert forall|s: Seq<u8>|
            (json_safe(s) && p0 + s.len() + 2 <= b@.len() && b@.subrange(p0, p0 + s.len() + 2)
                =~= jstr(s)) implies out@ == s && p == p0 + s.len() + 2 by {
            lemma_jstr_stop(b@, p0, s, p as int - 1);
            assert(out@ =~= s);
        }
    }
    Some(out)
}

/// Inside a quoted safe region, the scanner's stopping byte index is the
/// closing quote: every content byte is safe and differs from the quote.
proof fn lemma_jstr_region(b: Seq<u8>, p0: int, s: Seq<u8>, p: int)
    requires
        json_safe(s),
        0 <= p0,
        p0 + s.len() + 2 <= b.len(),
        b.subrange(p0, p0 + s.len() + 2) =~= jstr(s),
        p0 + 1 <= p,
        forall|k: int| p0 + 1 <= k < p ==> b[k] != 34,
        p == b.len() || b[p] != 34,
        p <= b.len(),
    ensures
        p < p0 + 1 + s.len(),
        32 <= b[p] <= 126 && b[p] != 92,
{
    let region = b.subrange(p0, p0 + s.len() + 2);
    assert(region[s.len() as int + 1] == 34);
    assert(b[p0 + 1 + s.len()] == 34);
    if p >= p0 + 1 + s.len() {
        if p == p0 + 1 + s.len() {
            assert(b[p] == 34);
        } else {
            assert(b[p0 + 1 + s.len()] != 34);
        }
        assert(false);
    }
    assert(region[p - p0] == b[p]);
    assert(region[p - p0] == s[p - p0 - 1]);
}

/// When the scanner stops at a quote inside a quoted safe region, it
/// stops exactly at the closing quote.
proof fn lemma_jstr_stop(b: Seq<u8>, p0: int, s: Seq<u8>, p: int)
    requires
        json_safe(s),
        0 <= p0,
        p0 + s.len() + 2 <= b.len(),
        b.subrange(p0, p0 + s.len() + 2) =~= jstr(s),
        p0 + 1 <= p < b.len(),
        forall|k: int| p0 + 1 <= k < p ==> b[k] != 34,
        b[p] == 34,
    ensures
        p == p0 + 1 + s.len(),
        b.subrange(p0 + 1, p) =~= s,
{
    let region = b.subrange(p0, p0 + s.len() + 2);
    assert(region[s.len() as int + 1] == 34);
    assert(b[p0 + 1 + s.len()] == 34);
    if p < p0 + 1 + s.len() {
        assert(region[p - p0] == s[p - p0 - 1]);
        assert(s[p - p0 - 1] != 34);
        assert(b[p] != 34);
        assert(false);
    }
    if p > p0 + 1 + s.len() {
        assert(b[p0 + 1 + s.len()] != 34);
        assert(false);
    }
    assert forall|k: int| 0 <= k < s.len() implies b.subrange(p0 + 1, p)[k] == s[k] by {
        assert(region[k + 1] == s[k]);
    }
}

/// Read a quoted wire-safe string.
fn read_jstr(b: &Vec<u8>, pos: &mut usize) -> (r: Option<String>)
    requires
        *old(pos) <= b@.len(),
    ensures
        *final(pos) <= b@.len(),
        r matches Some(s) ==> json_safe(str_bytes(s@)),
        forall|s: Seq<u8>|
            (json_safe(s) && *old(pos) + s.len() + 2 <= b@.len() && b@.subrange(
                *old(pos) as int,
                *old(pos) + s.len() + 2,
            ) =~= #[trigger] jstr(s)) ==> (r matches Some(st) && str_bytes(st@) == s && *final(pos) == *old(pos) + s.len() + 2),
{
    match read_jstr_bytes(b, pos) {
        Some(v) => Some(util::ascii_string(v)),
        None => None,
    }
}

/// Read a labeled quoted string: the literal label, then the string.  A
/// canonical label-and-string region that is next is always read, whole.
fn read_field(b: &Vec<u8>, pos: &mut usize, lit: &Vec<u8>) -> (r: Option<String>)
    requires
        *old(pos) <= b@.len(),
    ensures
        *final(pos) <= b@.len(),
        r matches Some(s) ==> json_safe(str_bytes(s@)),
        forall|s: Seq<u8>|
            (json_safe(s) && *old(pos) + lit@.len() + s.len() + 2 <= b@.len() && b@.subrange(
                *old(pos) as int,
                *old(pos) + lit@.len(),
            ) =~= lit@ && b@.subrange(
                *old(pos) + lit@.len(),
                *old(pos) + lit@.len() + s.len() + 2,
            ) =~= #[trigger] jstr(s)) ==> (r matches Some(st) && str_bytes(st@) == s && *final(pos) == *old(pos) + lit@.len() + s.len() + 2),
{
    if !take_lit(b, pos, lit) {
        return None;
    }
    read_jstr(b, pos)
}

/// Read a decimal integer with an optional leading minus; the decimal
/// form of any 64-bit value followed by a non-digit is always read, whole.
#[verifier::rlimit(60)]
fn read_i64(b: &Vec<u8>, pos: &mut usize) -> (r: Option<i64>)
    requires
        *old(pos) <= b@.len(),
    ensures
        *final(pos) <= b@.len(),
        forall|v: i64|
            (*old(pos) + (#[trigger] spec_dec_i64(v as int)).len() <= b@.len() && b@.subrange(
                *old(pos) as int,
                *old(pos) + spec_dec_i64(v as int).len(),
            ) =~= spec_dec_i64(v as int) && (*old(pos) + spec_dec_i64(v as int).len() == b@.len()
                || !(48 <= b@[*old(pos) + spec_dec_i64(v as int).len()] <= 57))) ==> (r == Some(v)
                && *final(pos) == *old(pos) + spec_dec_i64(v as int).len()),
{
    let ghost p0 = *pos as int;
    let n = b.len();
    let mut p = *pos;
    let neg = p < n && b[p] == 45;
    if neg {
        p = p + 1;
    }
    let start = p;
    if !(p < n && 48 <= b[p] && b[p] <= 57) {
        proof {
            assert forall|v: i64|
                (p0 + (#[trigger] spec_dec_i64(v as int)).len() <= b@.len() && b@.subrange(
                    p0,
                    p0 + spec_dec_i64(v as int).len(),
                ) =~= spec_dec_i64(v as int)) implies false by {
                lemma_dec_i64_shape(v, b@, p0);
            }
        }
        return None;
    }
    let mut val: u64 = 0;
    while p < n && 48 <= b[p] && b[p] <= 57
        invariant
            b@.len() == n,
            p0 == *old(pos) as int,
            *pos == *old(pos),
            *pos <= n,
            neg == (p0 < n && b@[p0] == 45),
            start == p0 + (if neg { 1int } else { 0int }),
            start <= p <= n,
            forall|k: int| start <= k < p ==> 48 <= #[trigger] b@[k] <= 57,
            val == crate::transport::spec_digits_value(b@.subrange(start as int, p as int)),
            val < 0x10000000000000000,
        decreases n - p,
    {
        let d = (b[p] - 48) as u64;
        proof {
            assert(b@.subrange(start as int, p + 1).drop_last() =~= b@.subrange(
                start as int,
                p as int,
            ));
            assert(b@.subrange(start as int, p + 1).last() == b@[p as int]);
        }
        if val > (u64::MAX - d) / 10 {
            proof {
                lemma_overflow_no_match(b@, p0, neg, start as int, p + 1, val as int * 10 + d);
            }
            return None;
        }
        val = val * 10 + d;
        p = p + 1;
    }
    proof {
        assert forall|v: i64|
            (p0 + (#[trigger] spec_dec_i64(v as int)).len() <= b@.len() && b@.subrange(
                p0,
                p0 + spec_dec_i64(v as int).len(),
            ) =~= spec_dec_i64(v as int) && (p0 + spec_dec_i64(v as int).len() == b@.len() || !(48
                <= b@[p0 + spec_dec_i64(v as int).len()] <= 57))) implies val as int == (if v < 0 {
            -(v as int)
        } else {
            v as int
        }) && p == p0 + spec_dec_i64(v as int).len() && (v < 0 <==> neg) by {
            lemma_dec_i64_run(v, b@, p0, neg, start as int, p as int);
        }
    }
    if neg {
        if val > 9223372036854775808u64 {
            return None;
        }
        *pos = p;
        if val == 9223372036854775808u64 {
            Some(i64::MIN)
        } else {
            Some(-(val as i64))
        }
    } else {
        if val > i64::MAX as u64 {
            return None;
        }
        *pos = p;
        Some(val as i64)
    }
}

/// The decimal form of an integer begins with a digit, after the sign
/// where negative.
proof fn lemma_dec_i64_shape(v: i64, b: Seq<u8>, p0: int)
    requires
        0 <= p0,
        p0 + spec_dec_i64(v as int).len() <= b.len(),
        b.subrange(p0, p0 + spec_dec_i64(v as int).len()) =~= spec_dec_i64(v as int),
    ensures
        v < 0 ==> b[p0] == 45 && spec_dec_i64(v as int).len() >= 2 && 48 <= b[p0 + 1] <= 57,
        v >= 0 ==> 48 <= b[p0] <= 57 && spec_dec_i64(v as int).len() >= 1,
{
    let d = spec_dec_i64(v as int);
    if v < 0 {
        let m = (-(v as int)) as nat;
        lemma_dec_digits(m);
        assert(d[0] == 45);
        assert(d[1] == spec_dec_u64(m)[0]);
        assert(b[p0] == d[0]);
        assert(b[p0 + 1] == d[1]);
    } else {
        lemma_dec_digits(v as nat);
        assert(d[0] == spec_dec_u64(v as nat)[0]);
        assert(b[p0] == d[0]);
    }
}

/// A digit run whose accumulated value already exceeds the 64-bit range
/// cannot be the decimal form of any 64-bit value at this position.
proof fn lemma_overflow_no_match(b: Seq<u8>, p0: int, neg: bool, start: int, p1: int, acc: int)
    requires
        0 <= p0 <= start <= p1 <= b.len(),
        neg ==> p0 < b.len() && b[p0] == 45 && start == p0 + 1,
        !neg ==> start == p0 && (p0 >= b.len() || b[p0] != 45),
        forall|k: int| start <= k < p1 ==> 48 <= #[trigger] b[k] <= 57,
        acc == crate::transport::spec_digits_value(b.subrange(start, p1)),
        acc > 0xffffffffffffffff,
    ensures
        forall|v: i64|
            !(p0 + (#[trigger] spec_dec_i64(v as int)).len() <= b.len() && b.subrange(
                p0,
                p0 + spec_dec_i64(v as int).len(),
            ) =~= spec_dec_i64(v as int) && (p0 + spec_dec_i64(v as int).len() == b.len() || !(48
                <= b[p0 + spec_dec_i64(v as int).len()] <= 57))),
{
    assert forall|v: i64|
        (p0 + (#[trigger] spec_dec_i64(v as int)).len() <= b.len() && b.subrange(
            p0,
            p0 + spec_dec_i64(v as int).len(),
        ) =~= spec_dec_i64(v as int) && (p0 + spec_dec_i64(v as int).len() == b.len() || !(48
            <= b[p0 + spec_dec_i64(v as int).len()] <= 57))) implies false by {
        lemma_dec_i64_run_core(v, b, p0, neg, start, p0 + spec_dec_i64(v as int).len());
        let dend = p0 + spec_dec_i64(v as int).len();
        let m: nat = if v < 0 {
            (-(v as int)) as nat
        } else {
            v as nat
        };
        // The scanned run cannot stop before the decimal form's digits end,
        // and the accumulated prefix value never exceeds the full value.
        if p1 <= dend {
            lemma_digits_prefix_le(b.subrange(start, dend), p1 - start);
            assert(b.subrange(start, dend).subrange(0, p1 - start) =~= b.subrange(start, p1));
            lemma_dec_value(m);
            assert(crate::transport::spec_digits_value(b.subrange(start, dend)) == m);
            assert(acc <= m);
        } else {
            assert(48 <= b[dend] <= 57);
        }
    }
}

/// When the scanner's digit run ends at a non-digit and the bytes at `p0`
/// are the decimal form of `v`, the run is exactly that form's digits and
/// the accumulated value is its magnitude.
proof fn lemma_dec_i64_run(v: i64, b: Seq<u8>, p0: int, neg: bool, start: int, p: int)
    requires
        0 <= p0 <= start <= p <= b.len(),
        neg == (p0 < b.len() && b[p0] == 45),
        start == p0 + (if neg { 1int } else { 0int }),
        forall|k: int| start <= k < p ==> 48 <= #[trigger] b[k] <= 57,
        p == b.len() || !(48 <= b[p] <= 57),
        p0 + spec_dec_i64(v as int).len() <= b.len(),
        b.subrange(p0, p0 + spec_dec_i64(v as int).len()) =~= spec_dec_i64(v as int),
        p0 + spec_dec_i64(v as int).len() == b.len() || !(48 <= b[p0 + spec_dec_i64(v as int).len()]
            <= 57),
    ensures
        p == p0 + spec_dec_i64(v as int).len(),
        (v < 0) == neg,
        crate::transport::spec_digits_value(b.subrange(start, p)) == (if v < 0 {
            -(v as int)
        } else {
            v as int
        }),
{
    lemma_dec_i64_run_core(v, b, p0, neg, start, p0 + spec_dec_i64(v as int).len());
    let dend = p0 + spec_dec_i64(v as int).len();
    let m: nat = if v < 0 {
        (-(v as int)) as nat
    } else {
        v as nat
    };
    // The maximal digit run from `start` ends exactly at the form's end.
    if p < dend {
        assert(48 <= b[p] <= 57);
        assert(false);
    }
    if p > dend {
        assert(48 <= b[dend] <= 57);
        assert(false);
    }
    lemma_dec_value(m);
    assert(b.subrange(start, dend) =~= spec_dec_u64(m));
}

/// The sign and digit region of the decimal form of `v` at `p0`.
proof fn lemma_dec_i64_run_core(v: i64, b: Seq<u8>, p0: int, neg: bool, start: int, dend: int)
    requires
        0 <= p0 <= b.len(),
        neg == (p0 < b.len() && b[p0] == 45),
        start == p0 + (if neg { 1int } else { 0int }),
        dend == p0 + spec_dec_i64(v as int).len(),
        dend <= b.len(),
        b.subrange(p0, dend) =~= spec_dec_i64(v as int),
    ensures
        (v < 0) == neg,
        b.subrange(start, dend) =~= spec_dec_u64(
            if v < 0 {
                (-(v as int)) as nat
            } else {
                v as nat
            },
        ),
        forall|k: int| start <= k < dend ==> 48 <= #[trigger] b[k] <= 57,
{
    let d = spec_dec_i64(v as int);
    let m: nat = if v < 0 {
        (-(v as int)) as nat
    } else {
        v as nat
    };
    lemma_dec_digits(m);
    if v < 0 {
        assert(d[0] == 45);
        assert(b[p0] == 45);
        assert(neg);
        assert(d.len() == 1 + spec_dec_u64(m).len());
        assert forall|j: int| 0 <= j < dend - start implies #[trigger] b.subrange(
            start,
            dend,
        )[j] == spec_dec_u64(m)[j] by {
            assert(b.subrange(start, dend)[j] == b[start + j]);
            assert(b.subrange(p0, dend)[j + 1] == d[j + 1]);
            assert(b[start + j] == d[j + 1]);
            assert(d[j + 1] == spec_dec_u64(m)[j]);
        }
        assert(b.subrange(start, dend) =~= spec_dec_u64(m));
        assert forall|k: int| start <= k < dend implies 48 <= #[trigger] b[k] <= 57 by {
            assert(b.subrange(start, dend)[k - start] == spec_dec_u64(m)[k - start]);
        }
    } else {
        assert(d == spec_dec_u64(m));
        assert(b[p0] == d[0]);
        assert(48 <= d[0] <= 57);
        assert(!neg);
        assert(b.subrange(start, dend) =~= spec_dec_u64(m));
        assert forall|k: int| start <= k < dend implies 48 <= #[trigger] b[k] <= 57 by {
            assert(b.subrange(start, dend)[k - start] == spec_dec_u64(m)[k - start]);
        }
    }
}

/// Every byte of a decimal form is a digit.
proof fn lemma_dec_digits(n: nat)
    ensures
        forall|i: int|
            0 <= i < spec_dec_u64(n).len() ==> 48 <= #[trigger] spec_dec_u64(n)[i] <= 57,
        spec_dec_u64(n).len() >= 1,
    decreases n,
{
    if n < 10 {
    } else {
        lemma_dec_digits(n / 10);
        assert forall|i: int| 0 <= i < spec_dec_u64(n).len() implies 48
            <= #[trigger] spec_dec_u64(n)[i] <= 57 by {
            if i < spec_dec_u64(n / 10).len() {
                assert(spec_dec_u64(n)[i] == spec_dec_u64(n / 10)[i]);
            } else {
                assert(spec_dec_u64(n)[i] == (48 + n % 10) as u8);
            }
        }
    }
}

/// Reading back the decimal form of a number gives the number.
proof fn lemma_dec_value(n: nat)
    ensures
        crate::transport::spec_digits_value(spec_dec_u64(n)) == n,
    decreases n,
{
    if n < 10 {
        assert(spec_dec_u64(n) =~= seq![(48 + n) as u8]);
        assert(spec_dec_u64(n).drop_last() =~= Seq::<u8>::empty());
        assert(crate::transport::spec_digits_value(Seq::<u8>::empty()) == 0);
        assert(crate::transport::spec_digits_value(spec_dec_u64(n)) == 0 * 10 + ((48 + n) as u8
            - 48));
        assert((48 + n) as u8 == 48 + n);
    } else {
        lemma_dec_value(n / 10);
        assert(spec_dec_u64(n).drop_last() =~= spec_dec_u64(n / 10));
        assert(spec_dec_u64(n).last() == (48 + n % 10) as u8);
        assert(crate::transport::spec_digits_value(spec_dec_u64(n))
            == crate::transport::spec_digits_value(spec_dec_u64(n / 10)) * 10 + ((48 + n % 10)
            as u8 - 48));
        assert((48 + n % 10) as u8 == 48 + n % 10);
        assert(n / 10 * 10 + n % 10 == n);
    }
}

/// Digit strings have non-negative value, and a prefix never exceeds the
/// whole.
proof fn lemma_digits_nonneg(s: Seq<u8>)
    requires
        forall|k: int| 0 <= k < s.len() ==> 48 <= #[trigger] s[k] <= 57,
    ensures
        crate::transport::spec_digits_value(s) >= 0,
    decreases s.len(),
{
    if s.len() > 0 {
        assert(forall|k: int|
            0 <= k < s.drop_last().len() ==> 48 <= #[trigger] s.drop_last()[k] <= 57);
        lemma_digits_nonneg(s.drop_last());
    }
}

proof fn lemma_digits_prefix_le(s: Seq<u8>, k: int)
    requires
        forall|j: int| 0 <= j < s.len() ==> 48 <= #[trigger] s[j] <= 57,
        0 <= k <= s.len(),
    ensures
        crate::transport::spec_digits_value(s.subrange(0, k)) <= crate::transport::spec_digits_value(s),
    decreases s.len() - k,
{
    if k == s.len() {
        assert(s.subrange(0, k) =~= s);
    } else {
        assert(forall|j: int|
            0 <= j < s.subrange(0, k).len() ==> 48 <= #[trigger] s.subrange(0, k)[j] <= 57);
        lemma_digits_nonneg(s.subrange(0, k));
        assert(s.subrange(0, k + 1).drop_last() =~= s.subrange(0, k));
        assert(s.subrange(0, k + 1).last() == s[k]);
        assert(crate::transport::spec_digits_value(s.subrange(0, k + 1))
            == crate::transport::spec_digits_value(s.subrange(0, k)) * 10 + (s[k] - 48));
        lemma_digits_prefix_le(s, k + 1);
    }
}

/// Read a boolean literal; one that is next is always read.
fn read_bool(b: &Vec<u8>, pos: &mut usize) -> (r: Option<bool>)
    requires
        *old(pos) <= b@.len(),
    ensures
        *final(pos) <= b@.len(),
        (*old(pos) + 4 <= b@.len() && b@.subrange(*old(pos) as int, *old(pos) + 4) =~= l_true_lit())
            ==> r == Some(true) && *final(pos) == *old(pos) + 4,
        (*old(pos) + 5 <= b@.len() && b@.subrange(*old(pos) as int, *old(pos) + 5)
            =~= l_false_lit()) ==> r == Some(false) && *final(pos) == *old(pos) + 5,
{
    proof {
        if *pos + 5 <= b@.len() && b@.subrange(*pos as int, *pos + 5) =~= l_false_lit() {
            if *pos + 4 <= b@.len() && b@.subrange(*pos as int, *pos + 4) =~= l_true_lit() {
                assert(b@.subrange(*pos as int, *pos + 5)[0] == b@[*pos as int]);
                assert(b@.subrange(*pos as int, *pos + 4)[0] == b@[*pos as int]);
                assert(false);
            }
        }
    }
    let mut lt: Vec<u8> = Vec::new();
    emit_true_lit(&mut lt);
    if take_lit(b, pos, &lt) {
        return Some(true);
    }
    let mut lf: Vec<u8> = Vec::new();
    emit_false_lit(&mut lf);
    if take_lit(b, pos, &lf) {
        return Some(false);
    }
    None
}

/// Every kind has its own tag.
proof fn lemma_tags_distinct()
    ensures
        forall|t1: MessageType, t2: MessageType|
            t1 != t2 ==> #[trigger] t1.spec_tag() != #[trigger] t2.spec_tag(),
{
    assert(MessageType::Text.spec_tag()[0] != MessageType::Ping.spec_tag()[0]);
    assert(MessageType::Text.spec_tag()[0] != MessageType::Pong.spec_tag()[0]);
    assert(MessageType::Text.spec_tag()[0] != MessageType::File.spec_tag()[0]);
    assert(MessageType::Text.spec_tag()[0] != MessageType::Ipfs.spec_tag()[0]);
    assert(MessageType::Ping.spec_tag()[1] != MessageType::Pong.spec_tag()[1]);
    assert(MessageType::Ping.spec_tag()[0] != MessageType::File.spec_tag()[0]);
    assert(MessageType::Ping.spec_tag()[0] != MessageType::Ipfs.spec_tag()[0]);
    assert(MessageType::Pong.spec_tag()[0] != MessageType::File.spec_tag()[0]);
    assert(MessageType::Pong.spec_tag()[0] != MessageType::Ipfs.spec_tag()[0]);
    assert(MessageType::File.spec_tag()[0] != MessageType::Ipfs.spec_tag()[0]);
    assert(MessageType::Image.spec_tag()[0] != MessageType::Audio.spec_tag()[0]);
    assert forall|t1: MessageType, t2: MessageType| t1 != t2 implies #[trigger] t1.spec_tag()
        != #[trigger] t2.spec_tag() by {
        if t1.spec_tag().len() != t2.spec_tag().len() {
        }
    }
}

/// The kind whose tag the bytes spell; a kind's own tag always maps back
/// to it.
fn type_from_tag(v: &Vec<u8>) -> (r: Option<MessageType>)
    ensures
        forall|t: MessageType| v@ == #[trigger] t.spec_tag() ==> r == Some(t),
{
    proof {
        lemma_tags_distinct();
    }
    let kinds: [MessageType; 10] = [
        MessageType::Text,
        MessageType::Handshake,
        MessageType::Ack,
        MessageType::KeyExchange,
        MessageType::Ping,
        MessageType::Pong,
        MessageType::Image,
        MessageType::Audio,
        MessageType::File,
        MessageType::Ipfs,
    ];
    let ghost kview = kinds@;
    let mut i: usize = 0;
    while i < 10
        invariant
            kinds@ == kview,
            kview.len() == 10,
            kview[0] == MessageType::Text,
            kview[1] == MessageType::Handshake,
            kview[2] == MessageType::Ack,
            kview[3] == MessageType::KeyExchange,
            kview[4] == MessageType::Ping,
            kview[5] == MessageType::Pong,
            kview[6] == MessageType::Image,
            kview[7] == MessageType::Audio,
            kview[8] == MessageType::File,
            kview[9] == MessageType::Ipfs,
            i <= 10,
            forall|k: int| 0 <= k < i ==> (#[trigger] kview[k]).spec_tag() != v@,
            forall|t1: MessageType, t2: MessageType|
                t1 != t2 ==> #[trigger] t1.spec_tag() != #[trigger] t2.spec_tag(),
        decreases 10 - i,
    {
        let k = kinds[i];
        let tag = k.tag_bytes();
        if util::bytes_eq(&tag, v) {
            proof {
                assert forall|t: MessageType| v@ == #[trigger] t.spec_tag() implies Some(k)
                    == Some(t) by {
                    assert(k.spec_tag() == t.spec_tag());
                }
            }
            return Some(k);
        }
        i = i + 1;
    }
    proof {
        assert forall|t: MessageType| v@ == #[trigger] t.spec_tag() implies false by {
            assert(t == kview[0] || t == kview[1] || t == kview[2] || t == kview[3] || t
                == kview[4] || t == kview[5] || t == kview[6] || t == kview[7] || t == kview[8]
                || t == kview[9]);
        }
    }
    None
}

/// A canonical envelope region with safe fields lies at `q`.
pub open spec fn env_premise(b: Seq<u8>, q: int, e: EncryptedData) -> bool {
    &&& json_safe(e.ct_bytes())
    &&& json_safe(e.epk_bytes())
    &&& json_safe(e.nonce_bytes())
    &&& 0 <= q
    &&& q + spec_env_json(e).len() <= b.len()
    &&& b.subrange(q, q + spec_env_json(e).len()) =~= spec_env_json(e)
}

/// Each piece of a canonical envelope region, at its offset.
pub open spec fn env_layout(b: Seq<u8>, q: int, e: EncryptedData) -> bool {
    &&& b.subrange(q, q + 21) =~= l_env_msg()
    &&& b.subrange(q + 21, q + 21 + e.ct_bytes().len() + 2) =~= jstr(e.ct_bytes())
    &&& b.subrange(q + 23 + e.ct_bytes().len(), q + 47 + e.ct_bytes().len()) =~= l_env_epk()
    &&& b.subrange(
        q + 47 + e.ct_bytes().len(),
        q + 49 + e.ct_bytes().len() + e.epk_bytes().len(),
    ) =~= jstr(e.epk_bytes())
    &&& b.subrange(
        q + 49 + e.ct_bytes().len() + e.epk_bytes().len(),
        q + 58 + e.ct_bytes().len() + e.epk_bytes().len(),
    ) =~= l_env_nonce()
    &&& b.subrange(
        q + 58 + e.ct_bytes().len() + e.epk_bytes().len(),
        q + 60 + e.ct_bytes().len() + e.epk_bytes().len() + e.nonce_bytes().len(),
    ) =~= jstr(e.nonce_bytes())
    &&& b[q + spec_env_json(e).len() - 1] == 125
    &&& spec_env_json(e).len() == 61 + e.ct_bytes().len() + e.epk_bytes().len()
        + e.nonce_bytes().len()
}

/// The layout of an envelope's wire region: each piece at its offset.
#[verifier::rlimit(100)]
#[verifier::spinoff_prover]
proof fn lemma_env_regions(b: Seq<u8>, q: int, e: EncryptedData)
    requires
        0 <= q,
        q + spec_env_json(e).len() <= b.len(),
        b.subrange(q, q + spec_env_json(e).len()) =~= spec_env_json(e),
    ensures
        env_layout(b, q, e),
{
    let w = spec_env_json(e);
    let ct = e.ct_bytes();
    let epk = e.epk_bytes();
    let nn = e.nonce_bytes();
    let p1 = l_env_msg();
    let p2 = p1 + jstr(ct);
    let p3 = p2 + l_env_epk();
    let p4 = p3 + jstr(epk);
    let p5 = p4 + l_env_nonce();
    let p6 = p5 + jstr(nn);
    let p7 = p6 + seq![125u8];
    assert(w =~= p7);
    lemma_peel(p1, jstr(ct));
    lemma_peel(p2, l_env_epk());
    lemma_peel(p3, jstr(epk));
    lemma_peel(p4, l_env_nonce());
    lemma_peel(p5, jstr(nn));
    lemma_peel(p6, seq![125u8]);
    assert(b.subrange(q, q + w.len()) =~= p7);
    lemma_sub_sub(b, q, q + w.len(), 0, p1.len() as int);
    lemma_sub_sub(b, q, q + w.len(), p1.len() as int, p2.len() as int);
    lemma_sub_sub(b, q, q + w.len(), p2.len() as int, p3.len() as int);
    lemma_sub_sub(b, q, q + w.len(), p3.len() as int, p4.len() as int);
    lemma_sub_sub(b, q, q + w.len(), p4.len() as int, p5.len() as int);
    lemma_sub_sub(b, q, q + w.len(), p5.len() as int, p6.len() as int);
    assert(b.subrange(q, q + p1.len() as int) =~= p7.subrange(0, p1.len() as int));
    assert(b.subrange(q + p1.len() as int, q + p2.len() as int) =~= p7.subrange(
        p1.len() as int,
        p2.len() as int,
    ));
    assert(b.subrange(q + p2.len() as int, q + p3.len() as int) =~= p7.subrange(
        p2.len() as int,
        p3.len() as int,
    ));
    assert(b.subrange(q + p3.len() as int, q + p4.len() as int) =~= p7.subrange(
        p3.len() as int,
        p4.len() as int,
    ));
    assert(b.subrange(q + p4.len() as int, q + p5.len() as int) =~= p7.subrange(
        p4.len() as int,
        p5.len() as int,
    ));
    assert(b.subrange(q + p5.len() as int, q + p6.len() as int) =~= p7.subrange(
        p5.len() as int,
        p6.len() as int,
    ));
    assert(p7.subrange(0, p1.len() as int) =~= p1);
    assert(p7.subrange(p1.len() as int, p2.len() as int) =~= jstr(ct)) by {
        lemma_sub_sub(p7, 0, p7.len() as int, p1.len() as int, p2.len() as int);
        assert(p7.subrange(0, p7.len() as int) =~= p7);
    }
    assert(p7.subrange(p2.len() as int, p3.len() as int) =~= l_env_epk());
    assert(p7.subrange(p3.len() as int, p4.len() as int) =~= jstr(epk));
    assert(p7.subrange(p4.len() as int, p5.len() as int) =~= l_env_nonce());
    assert(p7.subrange(p5.len() as int, p6.len() as int) =~= jstr(nn));
    assert(b.subrange(q, q + w.len())[w.len() - 1] == p7[p7.len() - 1]);
}

/// A piece of a matched region, at its offset./// Splitting a concatenation at the seam.
proof fn lemma_peel(x: Seq<u8>, y: Seq<u8>)
    ensures
        (x + y).subrange(0, x.len() as int) =~= x,
        (x + y).subrange(x.len() as int, (x.len() + y.len()) as int) =~= y,
        (x + y).len() == x.len() + y.len(),
{
}

/// A subrange of a subrange, re-based.
proof fn lemma_sub_sub(s: Seq<u8>, a: int, b2: int, x: int, y: int)
    requires
        0 <= a <= b2 <= s.len(),
        0 <= x <= y <= b2 - a,
    ensures
        s.subrange(a, b2).subrange(x, y) =~= s.subrange(a + x, a + y),
{
}

/// A piece of a matched region, at its offset.
proof fn lemma_sub_eq(b: Seq<u8>, q: int, whole: Seq<u8>, off: int, piece: Seq<u8>)
    requires
        0 <= q,
        q + whole.len() <= b.len(),
        b.subrange(q, q + whole.len()) =~= whole,
        0 <= off,
        off + piece.len() <= whole.len(),
        forall|i: int| 0 <= i < piece.len() ==> whole[off + i] == #[trigger] piece[i],
    ensures
        b.subrange(q + off, q + off + piece.len()) =~= piece,
{
    assert forall|i: int| 0 <= i < piece.len() implies #[trigger] b.subrange(
        q + off,
        q + off + piece.len(),
    )[i] == piece[i] by {
        assert(b.subrange(q, q + whole.len())[off + i] == whole[off + i]);
    }
}

/// Scan an envelope object; a canonical envelope region is always read,
/// whole and field-exact.
#[verifier::rlimit(80)]
fn scan_env(b: &Vec<u8>, pos: &mut usize) -> (r: Option<EncryptedData>)
    requires
        *old(pos) <= b@.len(),
    ensures
        *final(pos) <= b@.len(),
        r matches Some(e) ==> json_safe(e.ct_bytes()) && json_safe(e.epk_bytes()) && json_safe(
            e.nonce_bytes(),
        ),
        forall|e: EncryptedData|
            #[trigger] env_premise(b@, *old(pos) as int, e) ==> (r matches Some(e2) && env_like(
                e2,
                e,
            ) && *final(pos) == *old(pos) + spec_env_json(e).len()),
{
    let ghost p0 = *pos as int;
    proof {
        assert forall|e: EncryptedData| env_premise(b@, p0, e) implies env_layout(b@, p0, e) by {
            lemma_env_regions(b@, p0, e);
        }
    }
    let mut l: Vec<u8> = Vec::new();
    emit_env_msg(&mut l);
    let ct = match read_field(b, pos, &l) {
        Some(s) => s,
        None => {
            return None;
        },
    };
    let mut l2: Vec<u8> = Vec::new();
    emit_env_epk(&mut l2);
    let epk = match read_field(b, pos, &l2) {
        Some(s) => s,
        None => {
            return None;
        },
    };
    let mut l3: Vec<u8> = Vec::new();
    emit_env_nonce(&mut l3);
    let nonce = match read_field(b, pos, &l3) {
        Some(s) => s,
        None => {
            return None;
        },
    };
    if !take_byte(b, pos, 125) {
        return None;
    }
    Some(EncryptedData { encrypted_message: ct, ephemeral_public_key: epk, nonce })
}

/// A canonical, well-formed payload region lies at `q`.
pub open spec fn payload_premise(b: Seq<u8>, q: int, p: Payload) -> bool {
    &&& p.wf()
    &&& 0 <= q
    &&& q + spec_payload_json(p).len() <= b.len()
    &&& b.subrange(q, q + spec_payload_json(p).len()) =~= spec_payload_json(p)
}

/// The opening byte pair of a payload region decides its shape.
proof fn lemma_payload_open(b: Seq<u8>, q: int, p: Payload)
    requires
        payload_premise(b, q, p),
    ensures
        b[q] == 123,
        p matches Payload::Text { .. } ==> b[q + 2] == 116,
        p matches Payload::Encrypted { .. } ==> b[q + 2] == 100,
        p matches Payload::Handshake { .. } ==> b[q + 2] == 105,
        p matches Payload::Ack { .. } ==> b[q + 2] == 111,
        p matches Payload::Empty ==> b[q + 1] == 125 && spec_payload_json(p).len() == 2,
        !(p matches Payload::Empty) ==> b[q + 1] == 34,
{
    let whole = spec_payload_json(p);
    assert(b.subrange(q, q + whole.len())[0] == whole[0]);
    if whole.len() > 1 {
        assert(b.subrange(q, q + whole.len())[1] == whole[1]);
    }
    if whole.len() > 2 {
        assert(b.subrange(q, q + whole.len())[2] == whole[2]);
    }
    match p {
        Payload::Text { text } => {},
        Payload::Encrypted { data } => {},
        Payload::Handshake { protocol_version, is_response } => {},
        Payload::Ack { original_msg_id } => {},
        Payload::Empty => {},
    }
}

/// Each piece of a canonical payload region, at its offset.
proof fn lemma_payload_regions(b: Seq<u8>, q: int, p: Payload)
    requires
        payload_premise(b, q, p),
    ensures
        p matches Payload::Text { text } ==> {
            &&& b.subrange(q, q + 8) =~= l_text_open()
            &&& b.subrange(q + 8, q + 10 + str_bytes(text@).len()) =~= jstr(str_bytes(text@))
            &&& b[q + spec_payload_json(p).len() - 1] == 125
            &&& spec_payload_json(p).len() == 11 + str_bytes(text@).len()
        },
        p matches Payload::Encrypted { data } ==> {
            &&& b.subrange(q, q + 8) =~= l_data_open()
            &&& env_premise(b, q + 8, data)
            &&& b.subrange(
                q + 8 + spec_env_json(data).len(),
                q + 26 + spec_env_json(data).len(),
            ) =~= l_enc_true()
            &&& spec_payload_json(p).len() == 26 + spec_env_json(data).len()
        },
        p matches Payload::Handshake { protocol_version, is_response } ==> {
            &&& b.subrange(q, q + 15) =~= l_is_resp()
            &&& (is_response ==> b.subrange(q + 15, q + 19) =~= l_true_lit())
            &&& (!is_response ==> b.subrange(q + 15, q + 20) =~= l_false_lit())
            &&& b.subrange(
                q + 15 + spec_bool_json(is_response).len(),
                q + 35 + spec_bool_json(is_response).len(),
            ) =~= l_proto_ver()
            &&& b.subrange(
                q + 35 + spec_bool_json(is_response).len(),
                q + 37 + spec_bool_json(is_response).len() + str_bytes(protocol_version@).len(),
            ) =~= jstr(str_bytes(protocol_version@))
            &&& b[q + spec_payload_json(p).len() - 1] == 125
            &&& spec_payload_json(p).len() == 38 + spec_bool_json(is_response).len() + str_bytes(
                protocol_version@,
            ).len()
        },
        p matches Payload::Ack { original_msg_id } ==> {
            &&& b.subrange(q, q + 19) =~= l_ack_open()
            &&& b.subrange(q + 19, q + 21 + str_bytes(original_msg_id@).len()) =~= jstr(
                str_bytes(original_msg_id@),
            )
            &&& b[q + spec_payload_json(p).len() - 1] == 125
            &&& spec_payload_json(p).len() == 22 + str_bytes(original_msg_id@).len()
        },
        p matches Payload::Empty ==> b.subrange(q, q + 2) =~= l_empty_obj()
            && spec_payload_json(p).len() == 2,
{
    let whole = spec_payload_json(p);
    match p {
        Payload::Text { text } => {
            let t = str_bytes(text@);
            assert forall|i: int| 0 <= i < 8 implies whole[i] == l_text_open()[i] by {}
            lemma_sub_eq(b, q, whole, 0, l_text_open());
            assert forall|i: int| 0 <= i < t.len() + 2 implies whole[8 + i] == jstr(t)[i] by {}
            lemma_sub_eq(b, q, whole, 8, jstr(t));
            assert(whole[whole.len() - 1] == 125);
            assert(b.subrange(q, q + whole.len())[whole.len() - 1] == whole[whole.len() - 1]);
        },
        Payload::Encrypted { data } => {
            let ej = spec_env_json(data);
            assert forall|i: int| 0 <= i < 8 implies whole[i] == l_data_open()[i] by {}
            lemma_sub_eq(b, q, whole, 0, l_data_open());
            assert forall|i: int| 0 <= i < ej.len() implies whole[8 + i] == ej[i] by {}
            lemma_sub_eq(b, q, whole, 8, ej);
            assert forall|i: int| 0 <= i < 18 implies whole[8 + ej.len() + i] == l_enc_true()[i]
                by {}
            lemma_sub_eq(b, q, whole, 8 + ej.len() as int, l_enc_true());
        },
        Payload::Handshake { protocol_version, is_response } => {
            let bl = spec_bool_json(is_response);
            let pv = str_bytes(protocol_version@);
            assert(bl.len() == (if is_response {
                4int
            } else {
                5int
            }));
            assert(whole.len() == 38 + bl.len() + pv.len());
            assert forall|i: int| 0 <= i < 15 implies whole[i] == l_is_resp()[i] by {}
            lemma_sub_eq(b, q, whole, 0, l_is_resp());
            assert forall|i: int| 0 <= i < bl.len() implies whole[15 + i] == bl[i] by {}
            lemma_sub_eq(b, q, whole, 15, bl);
            assert forall|i: int| 0 <= i < 20 implies whole[15 + bl.len() + i]
                == l_proto_ver()[i] by {}
            lemma_sub_eq(b, q, whole, 15 + bl.len() as int, l_proto_ver());
            assert forall|i: int| 0 <= i < pv.len() + 2 implies whole[35 + bl.len() + i] == jstr(
                pv,
            )[i] by {}
            lemma_sub_eq(b, q, whole, 35 + bl.len() as int, jstr(pv));
            assert(whole[whole.len() - 1] == 125);
            assert(b.subrange(q, q + whole.len())[whole.len() - 1] == whole[whole.len() - 1]);
        },
        Payload::Ack { original_msg_id } => {
            let o = str_bytes(original_msg_id@);
            assert forall|i: int| 0 <= i < 19 implies whole[i] == l_ack_open()[i] by {}
            lemma_sub_eq(b, q, whole, 0, l_ack_open());
            assert forall|i: int| 0 <= i < o.len() + 2 implies whole[19 + i] == jstr(o)[i] by {}
            lemma_sub_eq(b, q, whole, 19, jstr(o));
            assert(whole[whole.len() - 1] == 125);
            assert(b.subrange(q, q + whole.len())[whole.len() - 1] == whole[whole.len() - 1]);
        },
        Payload::Empty => {
            assert forall|i: int| 0 <= i < 2 implies whole[i] == l_empty_obj()[i] by {}
            lemma_sub_eq(b, q, whole, 0, l_empty_obj());
        },
    }
}

/// Scan a payload object; a canonical, well-formed payload region is
/// always read, whole and shape-exact.
#[verifier::rlimit(100)]
#[verifier::spinoff_prover]
fn scan_payload(b: &Vec<u8>, pos: &mut usize) -> (r: Option<Payload>)
    requires
        *old(pos) <= b@.len(),
    ensures
        *final(pos) <= b@.len(),
        r matches Some(p) ==> p.wf(),
        forall|p: Payload|
            #[trigger] payload_premise(b@, *old(pos) as int, p) ==> (r matches Some(p2)
                && payload_like(p2, p) && *final(pos) == *old(pos) + spec_payload_json(p).len()),
{
    let ghost p0 = *pos as int;
    proof {
        assert forall|p: Payload| payload_premise(b@, p0, p) implies lemma_payload_all(
            b@,
            p0,
            p,
        ) by {
            lemma_payload_open(b@, p0, p);
            lemma_payload_regions(b@, p0, p);
        }
    }
    let mut lt: Vec<u8> = Vec::new();
    emit_text_open(&mut lt);
    if take_lit(b, pos, &lt) {
        let text = match read_jstr(b, pos) {
            Some(s) => s,
            None => {
                return None;
            },
        };
        if !take_byte(b, pos, 125) {
            return None;
        }
        proof {
            assert forall|p: Payload| payload_premise(b@, p0, p) implies (
            p matches Payload::Text { text: t2 } && text@ == t2@ && *pos == p0
                + spec_payload_json(p).len()) by {
                match p {
                    Payload::Text { text: t2 } => {
                        crate::crypto::lemma_utf8_unique(t2@);
                    },
                    Payload::Encrypted { .. } => {
                        assert(b@.subrange(p0, p0 + 8)[2] == b@[p0 + 2]);
                    },
                    Payload::Handshake { .. } => {
                        assert(b@.subrange(p0, p0 + 8)[2] == b@[p0 + 2]);
                    },
                    Payload::Ack { .. } => {
                        assert(b@.subrange(p0, p0 + 8)[2] == b@[p0 + 2]);
                    },
                    Payload::Empty => {
                        assert(b@.subrange(p0, p0 + 8)[1] == b@[p0 + 1]);
                    },
                }
            }
        }
        return Some(Payload::Text { text });
    }
    let mut ld: Vec<u8> = Vec::new();
    emit_data_open(&mut ld);
    if take_lit(b, pos, &ld) {
        let data = match scan_env(b, pos) {
            Some(e) => e,
            None => {
                return None;
            },
        };
        let mut le: Vec<u8> = Vec::new();
        emit_enc_true(&mut le);
        if !take_lit(b, pos, &le) {
            return None;
        }
        return Some(Payload::Encrypted { data });
    }
    let mut lh: Vec<u8> = Vec::new();
    emit_is_resp(&mut lh);
    if take_lit(b, pos, &lh) {
        let is_response = match read_bool(b, pos) {
            Some(v) => v,
            None => {
                return None;
            },
        };
        let mut lp: Vec<u8> = Vec::new();
        emit_proto_ver(&mut lp);
        let protocol_version = match read_field(b, pos, &lp) {
            Some(s) => s,
            None => {
                return None;
            },
        };
        if !take_byte(b, pos, 125) {
            return None;
        }
        proof {
            assert forall|p: Payload| payload_premise(b@, p0, p) implies (
            p matches Payload::Handshake { protocol_version: v2, is_response: ir2 }
                && protocol_version@ == v2@ && is_response == ir2 && *pos == p0
                + spec_payload_json(p).len()) by {
                match p {
                    Payload::Handshake { protocol_version: v2, is_response: ir2 } => {
                        crate::crypto::lemma_utf8_unique(v2@);
                    },
                    Payload::Text { .. } => {
                        assert(p0 + 8 <= b@.len());
                    },
                    Payload::Encrypted { .. } => {
                        assert(p0 + 8 <= b@.len());
                    },
                    Payload::Ack { .. } => {
                        assert(b@.subrange(p0, p0 + 15)[2] == b@[p0 + 2]);
                    },
                    Payload::Empty => {
                        assert(b@.subrange(p0, p0 + 15)[1] == b@[p0 + 1]);
                    },
                }
            }
        }
        return Some(Payload::Handshake { protocol_version, is_response });
    }
    let mut la: Vec<u8> = Vec::new();
    emit_ack_open(&mut la);
    if take_lit(b, pos, &la) {
        let original_msg_id = match read_jstr(b, pos) {
            Some(s) => s,
            None => {
                return None;
            },
        };
        if !take_byte(b, pos, 125) {
            return None;
        }
        proof {
            assert forall|p: Payload| payload_premise(b@, p0, p) implies (
            p matches Payload::Ack { original_msg_id: o2 } && original_msg_id@ == o2@ && *pos
                == p0 + spec_payload_json(p).len()) by {
                match p {
                    Payload::Ack { original_msg_id: o2 } => {
                        crate::crypto::lemma_utf8_unique(o2@);
                    },
                    Payload::Text { .. } => {
                        assert(p0 + 8 <= b@.len());
                    },
                    Payload::Encrypted { .. } => {
                        assert(p0 + 8 <= b@.len());
                    },
                    Payload::Handshake { .. } => {
                        assert(p0 + 15 <= b@.len());
                    },
                    Payload::Empty => {
                        assert(b@.subrange(p0, p0 + 19)[1] == b@[p0 + 1]);
                    },
                }
            }
        }
        return Some(Payload::Ack { original_msg_id });
    }
    let mut lo: Vec<u8> = Vec::new();
    emit_empty_obj(&mut lo);
    if take_lit(b, pos, &lo) {
        return Some(Payload::Empty);
    }
    None
}

/// Everything the payload lemmas give, packaged for one quantified fact.
pub open spec fn lemma_payload_all(b: Seq<u8>, q: int, p: Payload) -> bool {
    &&& b[q] == 123
    &&& (p matches Payload::Text { .. } ==> b[q + 2] == 116)
    &&& (p matches Payload::Encrypted { .. } ==> b[q + 2] == 100)
    &&& (p matches Payload::Handshake { .. } ==> b[q + 2] == 105)
    &&& (p matches Payload::Ack { .. } ==> b[q + 2] == 111)
    &&& (p matches Payload::Empty ==> b[q + 1] == 125 && spec_payload_json(p).len() == 2)
    &&& (!(p matches Payload::Empty) ==> b[q + 1] == 34)
    &&& (p matches Payload::Text { text } ==> {
        &&& b.subrange(q, q + 8) =~= l_text_open()
        &&& b.subrange(q + 8, q + 10 + str_bytes(text@).len()) =~= jstr(str_bytes(text@))
        &&& b[q + spec_payload_json(p).len() - 1] == 125
        &&& spec_payload_json(p).len() == 11 + str_bytes(text@).len()
    })
    &&& (p matches Payload::Encrypted { data } ==> {
        &&& b.subrange(q, q + 8) =~= l_data_open()
        &&& env_premise(b, q + 8, data)
        &&& b.subrange(
            q + 8 + spec_env_json(data).len(),
            q + 26 + spec_env_json(data).len(),
        ) =~= l_enc_true()
        &&& spec_payload_json(p).len() == 26 + spec_env_json(data).len()
    })
    &&& (p matches Payload::Handshake { protocol_version, is_response } ==> {
        &&& b.subrange(q, q + 15) =~= l_is_resp()
        &&& (is_response ==> b.subrange(q + 15, q + 19) =~= l_true_lit())
        &&& (!is_response ==> b.subrange(q + 15, q + 20) =~= l_false_lit())
        &&& b.subrange(
            q + 15 + spec_bool_json(is_response).len(),
            q + 35 + spec_bool_json(is_response).len(),
        ) =~= l_proto_ver()
        &&& b.subrange(
            q + 35 + spec_bool_json(is_response).len(),
            q + 37 + spec_bool_json(is_response).len() + str_bytes(protocol_version@).len(),
        ) =~= jstr(str_bytes(protocol_version@))
        &&& b[q + spec_payload_json(p).len() - 1] == 125
        &&& spec_payload_json(p).len() == 38 + spec_bool_json(is_response).len() + str_bytes(
            protocol_version@,
        ).len()
    })
    &&& (p matches Payload::Ack { original_msg_id } ==> {
        &&& b.subrange(q, q + 19) =~= l_ack_open()
        &&& b.subrange(q + 19, q + 21 + str_bytes(original_msg_id@).len()) =~= jstr(
            str_bytes(original_msg_id@),
        )
        &&& b[q + spec_payload_json(p).len() - 1] == 125
        &&& spec_payload_json(p).len() == 22 + str_bytes(original_msg_id@).len()
    })
    &&& (p matches Payload::Empty ==> b.subrange(q, q + 2) =~= l_empty_obj())
}

/// The canonical form of a well-formed message fills the whole buffer.
pub open spec fn message_premise(b: Seq<u8>, m: Message) -> bool {
    &&& m.wf()
    &&& b =~= spec_message_json(m)
}

/// The offset just past the payload region.
pub open spec fn msg_off_b(m: Message) -> int {
    19 + str_bytes(m.id@).len() as int + spec_payload_json(m.payload).len() as int
}

/// The offset just past the optional recipient field.
pub open spec fn msg_off_c(m: Message) -> int {
    msg_off_b(m) + spec_opt_field(l_recipient(), m.recipient_id).len() as int
}

/// The offset just past the optional sender field.
pub open spec fn msg_off_d(m: Message) -> int {
    msg_off_c(m) + spec_opt_field(l_sender(), m.sender_id).len() as int
}

/// The offset just past the optional signature field.
pub open spec fn msg_off_e(m: Message) -> int {
    msg_off_d(m) + spec_opt_field(l_signature(), m.signature).len() as int
}

/// The offset just past the timestamp digits.
pub open spec fn msg_off_f(m: Message) -> int {
    msg_off_e(m) + 13 + spec_dec_i64(m.timestamp as int).len() as int
}

/// Each piece of a canonical message, at its offset.
pub open spec fn msg_layout(b: Seq<u8>, m: Message) -> bool {
    &&& msg_layout_head(b, m)
    &&& msg_layout_opts(b, m)
    &&& msg_layout_tail(b, m)
}

/// The identifier and payload pieces.
pub open spec fn msg_layout_head(b: Seq<u8>, m: Message) -> bool {
    &&& b.subrange(0, 6) =~= l_id_open()
    &&& b.subrange(6, 8 + str_bytes(m.id@).len() as int) =~= jstr(str_bytes(m.id@))
    &&& b.subrange(
        8 + str_bytes(m.id@).len() as int,
        19 + str_bytes(m.id@).len() as int,
    ) =~= l_payload()
    &&& payload_premise(b, 19 + str_bytes(m.id@).len() as int, m.payload)
    &&& msg_off_b(m) <= b.len()
}

/// The optional recipient, sender and signature pieces.
pub open spec fn msg_layout_opts(b: Seq<u8>, m: Message) -> bool {
    &&& (m.recipient_id matches Some(rs) ==> b.subrange(msg_off_b(m), msg_off_b(m) + 16)
        =~= l_recipient() && b.subrange(
        msg_off_b(m) + 16,
        msg_off_b(m) + 18 + str_bytes(rs@).len() as int,
    ) =~= jstr(str_bytes(rs@)))
    &&& (m.sender_id matches Some(ss) ==> b.subrange(msg_off_c(m), msg_off_c(m) + 13)
        =~= l_sender() && b.subrange(
        msg_off_c(m) + 13,
        msg_off_c(m) + 15 + str_bytes(ss@).len() as int,
    ) =~= jstr(str_bytes(ss@)))
    &&& (m.signature matches Some(gs) ==> b.subrange(msg_off_d(m), msg_off_d(m) + 13)
        =~= l_signature() && b.subrange(
        msg_off_d(m) + 13,
        msg_off_d(m) + 15 + str_bytes(gs@).len() as int,
    ) =~= jstr(str_bytes(gs@)))
    &&& b.subrange(msg_off_e(m), msg_off_e(m) + 13) =~= l_timestamp()
    &&& msg_off_e(m) + 13 <= b.len()
}

/// The timestamp, kind, version and closing pieces.
pub open spec fn msg_layout_tail(b: Seq<u8>, m: Message) -> bool {
    &&& b.subrange(msg_off_e(m), msg_off_e(m) + 13) =~= l_timestamp()
    &&& b.subrange(msg_off_e(m) + 13, msg_off_f(m)) =~= spec_dec_i64(m.timestamp as int)
    &&& b.subrange(msg_off_f(m), msg_off_f(m) + 8) =~= l_type_key()
    &&& b.subrange(
        msg_off_f(m) + 8,
        msg_off_f(m) + 10 + m.msg_type.spec_tag().len() as int,
    ) =~= jstr(m.msg_type.spec_tag())
    &&& b.subrange(
        msg_off_f(m) + 10 + m.msg_type.spec_tag().len() as int,
        msg_off_f(m) + 21 + m.msg_type.spec_tag().len() as int,
    ) =~= l_version_key()
    &&& b.subrange(
        msg_off_f(m) + 21 + m.msg_type.spec_tag().len() as int,
        msg_off_f(m) + 23 + m.msg_type.spec_tag().len() as int + str_bytes(
            m.version@,
        ).len() as int,
    ) =~= jstr(str_bytes(m.version@))
    &&& b[b.len() - 1] == 125
    &&& b.len() == msg_off_f(m) + 24 + m.msg_type.spec_tag().len() as int + str_bytes(
        m.version@,
    ).len() as int
}

/// A canonical message decomposes into its pieces.
proof fn lemma_msg_regions(b: Seq<u8>, m: Message)
    requires
        message_premise(b, m),
    ensures
        msg_layout(b, m),
{
    lemma_msg_regions_head(b, m);
    lemma_msg_regions_opts(b, m);
    lemma_msg_regions_tail(b, m);
}

#[verifier::rlimit(100)]
#[verifier::spinoff_prover]
proof fn lemma_msg_regions_head(b: Seq<u8>, m: Message)
    requires
        message_premise(b, m),
    ensures
        msg_layout_head(b, m),
{
    let idb = str_bytes(m.id@);
    let pj = spec_payload_json(m.payload);
    let p1 = l_id_open();
    let p2 = p1 + jstr(idb);
    let p3 = p2 + l_payload();
    let p4 = p3 + pj;
    lemma_msg_prefix(b, m, p4);
    lemma_peel(p1, jstr(idb));
    lemma_peel(p2, l_payload());
    lemma_peel(p3, pj);
    lemma_sub_sub(b, 0, p4.len() as int, 0, p1.len() as int);
    lemma_sub_sub(b, 0, p4.len() as int, p1.len() as int, p2.len() as int);
    lemma_sub_sub(b, 0, p4.len() as int, p2.len() as int, p3.len() as int);
    lemma_sub_sub(b, 0, p4.len() as int, p3.len() as int, p4.len() as int);
    assert(b.subrange(0, p1.len() as int) =~= p1);
    assert(b.subrange(p1.len() as int, p2.len() as int) =~= jstr(idb));
    assert(b.subrange(p2.len() as int, p3.len() as int) =~= l_payload());
    assert(b.subrange(p3.len() as int, p4.len() as int) =~= pj);
    assert(p4.len() == msg_off_b(m));
}

/// The canonical prefix of a message up to and after the payload.
pub open spec fn msg_prefix4(m: Message) -> Seq<u8> {
    l_id_open() + jstr(str_bytes(m.id@)) + l_payload() + spec_payload_json(m.payload)
}

/// The buffer's prefix of the given shape agrees with the canonical form.
proof fn lemma_msg_prefix(b: Seq<u8>, m: Message, p: Seq<u8>)
    requires
        message_premise(b, m),
        spec_message_json(m).len() >= p.len(),
        forall|i: int| 0 <= i < p.len() ==> spec_message_json(m)[i] == #[trigger] p[i],
    ensures
        p.len() <= b.len(),
        b.subrange(0, p.len() as int) =~= p,
{
    assert forall|i: int| 0 <= i < p.len() implies #[trigger] b.subrange(0, p.len() as int)[i]
        == p[i] by {
        assert(b[i] == spec_message_json(m)[i]);
    }
}

#[verifier::rlimit(100)]
#[verifier::spinoff_prover]
proof fn lemma_msg_regions_opts(b: Seq<u8>, m: Message)
    requires
        message_premise(b, m),
    ensures
        msg_layout_opts(b, m),
{
    let w = spec_message_json(m);
    let p4 = msg_prefix4(m);
    let fr = spec_opt_field(l_recipient(), m.recipient_id);
    let fs = spec_opt_field(l_sender(), m.sender_id);
    let fg = spec_opt_field(l_signature(), m.signature);
    let p5 = p4 + fr;
    let p6 = p5 + fs;
    let p7 = p6 + fg;
    assert(forall|i: int| 0 <= i < p7.len() ==> w[i] == #[trigger] p7[i]);
    lemma_msg_prefix(b, m, p7);
    lemma_peel(p4, fr);
    lemma_peel(p5, fs);
    lemma_peel(p6, fg);
    lemma_sub_sub(b, 0, p7.len() as int, p4.len() as int, p5.len() as int);
    lemma_sub_sub(b, 0, p7.len() as int, p5.len() as int, p6.len() as int);
    lemma_sub_sub(b, 0, p7.len() as int, p6.len() as int, p7.len() as int);
    assert(b.subrange(p4.len() as int, p5.len() as int) =~= fr);
    assert(b.subrange(p5.len() as int, p6.len() as int) =~= fs);
    assert(b.subrange(p6.len() as int, p7.len() as int) =~= fg);
    assert(p4.len() == msg_off_b(m));
    match m.recipient_id {
        Some(rs) => {
            let rb = str_bytes(rs@);
            assert(fr =~= l_recipient() + jstr(rb));
            lemma_peel(l_recipient(), jstr(rb));
            lemma_sub_sub(b, p4.len() as int, p5.len() as int, 0, 16);
            lemma_sub_sub(b, p4.len() as int, p5.len() as int, 16, fr.len() as int);
        },
        None => {},
    }
    assert(p5.len() == msg_off_c(m));
    match m.sender_id {
        Some(ss) => {
            let sb = str_bytes(ss@);
            assert(fs =~= l_sender() + jstr(sb));
            lemma_peel(l_sender(), jstr(sb));
            lemma_sub_sub(b, p5.len() as int, p6.len() as int, 0, 13);
            lemma_sub_sub(b, p5.len() as int, p6.len() as int, 13, fs.len() as int);
        },
        None => {},
    }
    assert(p6.len() == msg_off_d(m));
    assert(p7.len() == msg_off_e(m));
    let p8 = p7 + l_timestamp();
    assert(forall|i: int| 0 <= i < p8.len() ==> w[i] == #[trigger] p8[i]);
    lemma_msg_prefix(b, m, p8);
    lemma_peel(p7, l_timestamp());
    lemma_sub_sub(b, 0, p8.len() as int, p7.len() as int, p8.len() as int);
    assert(b.subrange(p7.len() as int, p8.len() as int) =~= l_timestamp());
    match m.signature {
        Some(gs) => {
            let gb = str_bytes(gs@);
            assert(fg =~= l_signature() + jstr(gb));
            lemma_peel(l_signature(), jstr(gb));
            lemma_sub_sub(b, p6.len() as int, p7.len() as int, 0, 13);
            lemma_sub_sub(b, p6.len() as int, p7.len() as int, 13, fg.len() as int);
        },
        None => {},
    }
}

#[verifier::rlimit(100)]
#[verifier::spinoff_prover]
proof fn lemma_msg_regions_tail(b: Seq<u8>, m: Message)
    requires
        message_premise(b, m),
    ensures
        msg_layout_tail(b, m),
{
    let w = spec_message_json(m);
    let p7 = msg_prefix4(m) + spec_opt_field(l_recipient(), m.recipient_id) + spec_opt_field(
        l_sender(),
        m.sender_id,
    ) + spec_opt_field(l_signature(), m.signature);
    let dec = spec_dec_i64(m.timestamp as int);
    let tag = m.msg_type.spec_tag();
    let vb = str_bytes(m.version@);
    let p8 = p7 + l_timestamp();
    let p9 = p8 + dec;
    let p10 = p9 + l_type_key();
    let p11 = p10 + jstr(tag);
    let p12 = p11 + l_version_key();
    let p13 = p12 + jstr(vb);
    let p14 = p13 + seq![125u8];
    assert(w =~= p14);
    assert(forall|i: int| 0 <= i < p14.len() ==> w[i] == #[trigger] p14[i]);
    lemma_msg_prefix(b, m, p14);
    assert(b.subrange(0, b.len() as int) =~= b);
    assert(b =~= p14);
    lemma_peel(p7, l_timestamp());
    lemma_peel(p8, dec);
    lemma_peel(p9, l_type_key());
    lemma_peel(p10, jstr(tag));
    lemma_peel(p11, l_version_key());
    lemma_peel(p12, jstr(vb));
    lemma_peel(p13, seq![125u8]);
    assert(p7.len() == msg_off_e(m));
    lemma_sub_sub(b, 0, p14.len() as int, p7.len() as int, p8.len() as int);
    lemma_sub_sub(b, 0, p14.len() as int, p8.len() as int, p9.len() as int);
    lemma_sub_sub(b, 0, p14.len() as int, p9.len() as int, p10.len() as int);
    lemma_sub_sub(b, 0, p14.len() as int, p10.len() as int, p11.len() as int);
    lemma_sub_sub(b, 0, p14.len() as int, p11.len() as int, p12.len() as int);
    lemma_sub_sub(b, 0, p14.len() as int, p12.len() as int, p13.len() as int);
    assert(b.subrange(p7.len() as int, p8.len() as int) =~= l_timestamp());
    assert(b.subrange(p8.len() as int, p9.len() as int) =~= dec);
    assert(b.subrange(p9.len() as int, p10.len() as int) =~= l_type_key());
    assert(b.subrange(p10.len() as int, p11.len() as int) =~= jstr(tag));
    assert(b.subrange(p11.len() as int, p12.len() as int) =~= l_version_key());
    assert(b.subrange(p12.len() as int, p13.len() as int) =~= jstr(vb));
    assert(b[b.len() - 1] == p14[p14.len() - 1]);
}

/// Scan the identifier and payload of a message.
#[verifier::rlimit(100)]
#[verifier::spinoff_prover]
fn scan_msg_head(b: &Vec<u8>, pos: &mut usize) -> (r: Option<(String, Payload)>)
    requires
        *old(pos) <= b@.len(),
    ensures
        *final(pos) <= b@.len(),
        r matches Some((id, p)) ==> json_safe(str_bytes(id@)) && p.wf(),
        forall|m: Message|
            (#[trigger] message_premise(b@, m) && *old(pos) == 0) ==> (r matches Some((id, p))
                && id@ == m.id@ && payload_like(p, m.payload) && *final(pos) == msg_off_b(m)),
{
    proof {
        assert forall|m: Message| message_premise(b@, m) implies msg_layout_head(b@, m) by {
            lemma_msg_regions_head(b@, m);
        }
    }
    let mut l: Vec<u8> = Vec::new();
    emit_id_open(&mut l);
    let id = match read_field(b, pos, &l) {
        Some(s) => s,
        None => {
            return None;
        },
    };
    let mut lp: Vec<u8> = Vec::new();
    emit_payload(&mut lp);
    if !take_lit(b, pos, &lp) {
        return None;
    }
    let payload = match scan_payload(b, pos) {
        Some(p) => p,
        None => {
            return None;
        },
    };
    proof {
        assert forall|m: Message| message_premise(b@, m) && *old(pos) == 0 implies id@ == m.id@
            && *pos == msg_off_b(m) by {
            crate::crypto::lemma_utf8_unique(m.id@);
        }
    }
    Some((id, payload))
}

/// Scan the optional recipient field.
#[verifier::rlimit(100)]
#[verifier::spinoff_prover]
fn scan_msg_opt_recipient(b: &Vec<u8>, pos: &mut usize) -> (r: Option<Option<String>>)
    requires
        *old(pos) <= b@.len(),
    ensures
        *final(pos) <= b@.len(),
        r matches Some(Some(x)) ==> json_safe(str_bytes(x@)),
        forall|m: Message|
            (#[trigger] message_premise(b@, m) && *old(pos) == msg_off_b(m)) ==> (r matches Some(
                rc,
            ) && crate::message::opt_chars(rc) == crate::message::opt_chars(m.recipient_id)
                && *final(pos) == msg_off_c(m)),
{
    proof {
        assert forall|m: Message| message_premise(b@, m) implies msg_layout_opts(b@, m) by {
            lemma_msg_regions_opts(b@, m);
        }
    }
    let mut lr: Vec<u8> = Vec::new();
    emit_recipient(&mut lr);
    if take_lit(b, pos, &lr) {
        match read_jstr(b, pos) {
            Some(s) => {
                proof {
                    assert forall|m: Message|
                        message_premise(b@, m) && *old(pos) == msg_off_b(m) implies (
                    m.recipient_id matches Some(rs) && s@ == rs@ && *pos == msg_off_c(m)) by {
                        match m.recipient_id {
                            Some(rs) => {
                                crate::crypto::lemma_utf8_unique(rs@);
                            },
                            None => {
                                lemma_opt_absent_conflict(b@, m, msg_off_b(m), 114);
                            },
                        }
                    }
                }
                Some(Some(s))
            },
            None => None,
        }
    } else {
        proof {
            assert forall|m: Message| message_premise(b@, m) && *old(pos) == msg_off_b(m) implies
                m.recipient_id is None && *pos == msg_off_c(m) by {
                if m.recipient_id is Some {
                    assert(msg_off_b(m) + 18 <= msg_off_c(m));
                }
            }
        }
        Some(None)
    }
}

/// Scan the optional sender field.
#[verifier::rlimit(100)]
#[verifier::spinoff_prover]
fn scan_msg_opt_sender(b: &Vec<u8>, pos: &mut usize) -> (r: Option<Option<String>>)
    requires
        *old(pos) <= b@.len(),
    ensures
        *final(pos) <= b@.len(),
        r matches Some(Some(x)) ==> json_safe(str_bytes(x@)),
        forall|m: Message|
            (#[trigger] message_premise(b@, m) && *old(pos) == msg_off_c(m)) ==> (r matches Some(
                sd,
            ) && crate::message::opt_chars(sd) == crate::message::opt_chars(m.sender_id)
                && *final(pos) == msg_off_d(m)),
{
    proof {
        assert forall|m: Message| message_premise(b@, m) implies msg_layout_opts(b@, m) by {
            lemma_msg_regions_opts(b@, m);
        }
    }
    let mut ls: Vec<u8> = Vec::new();
    emit_sender(&mut ls);
    if take_lit(b, pos, &ls) {
        match read_jstr(b, pos) {
            Some(s) => {
                proof {
                    assert forall|m: Message|
                        message_premise(b@, m) && *old(pos) == msg_off_c(m) implies (
                    m.sender_id matches Some(ss) && s@ == ss@ && *pos == msg_off_d(m)) by {
                        match m.sender_id {
                            Some(ss) => {
                                crate::crypto::lemma_utf8_unique(ss@);
                            },
                            None => {
                                lemma_opt_absent_conflict(b@, m, msg_off_c(m), 115);
                            },
                        }
                    }
                }
                Some(Some(s))
            },
            None => None,
        }
    } else {
        proof {
            assert forall|m: Message| message_premise(b@, m) && *old(pos) == msg_off_c(m) implies
                m.sender_id is None && *pos == msg_off_d(m) by {
                if m.sender_id is Some {
                    assert(msg_off_c(m) + 15 <= msg_off_d(m));
                }
            }
        }
        Some(None)
    }
}

/// Scan the optional signature field.
#[verifier::rlimit(100)]
#[verifier::spinoff_prover]
fn scan_msg_opt_signature(b: &Vec<u8>, pos: &mut usize) -> (r: Option<Option<String>>)
    requires
        *old(pos) <= b@.len(),
    ensures
        *final(pos) <= b@.len(),
        r matches Some(Some(x)) ==> json_safe(str_bytes(x@)),
        forall|m: Message|
            (#[trigger] message_premise(b@, m) && *old(pos) == msg_off_d(m)) ==> (r matches Some(
                sg,
            ) && crate::message::opt_chars(sg) == crate::message::opt_chars(m.signature)
                && *final(pos) == msg_off_e(m)),
{
    proof {
        assert forall|m: Message| message_premise(b@, m) implies msg_layout_opts(b@, m) by {
            lemma_msg_regions_opts(b@, m);
        }
    }
    let mut lg: Vec<u8> = Vec::new();
    emit_signature(&mut lg);
    if take_lit(b, pos, &lg) {
        match read_jstr(b, pos) {
            Some(s) => {
                proof {
                    assert forall|m: Message|
                        message_premise(b@, m) && *old(pos) == msg_off_d(m) implies (
                    m.signature matches Some(gs) && s@ == gs@ && *pos == msg_off_e(m)) by {
                        match m.signature {
                            Some(gs) => {
                                crate::crypto::lemma_utf8_unique(gs@);
                            },
                            None => {
                                lemma_opt_absent_conflict(b@, m, msg_off_d(m), 115);
                            },
                        }
                    }
                }
                Some(Some(s))
            },
            None => None,
        }
    } else {
        proof {
            assert forall|m: Message| message_premise(b@, m) && *old(pos) == msg_off_d(m) implies
                m.signature is None && *pos == msg_off_e(m) by {
                if m.signature is Some {
                    assert(msg_off_d(m) + 15 <= msg_off_e(m));
                }
            }
        }
        Some(None)
    }
}

/// When an optional field is absent, the byte two past the cursor belongs
/// to the next field's label, whose third byte is `s` or `t`, never the
/// probed label's.
proof fn lemma_opt_absent_conflict(b: Seq<u8>, m: Message, q: int, probe2: u8)
    requires
        message_premise(b, m),
        msg_layout_opts(b, m),
        q == msg_off_b(m) ==> m.recipient_id is None && probe2 == 114,
        q == msg_off_c(m) ==> m.sender_id is None && probe2 == 115,
        q == msg_off_d(m) ==> m.signature is None && probe2 == 115,
        q == msg_off_b(m) || q == msg_off_c(m) || q == msg_off_d(m),
    ensures
        b[q + 2] != probe2,
{
    if q == msg_off_b(m) {
        assert(msg_off_c(m) == q);
        if m.sender_id is Some {
            assert(b.subrange(msg_off_c(m), msg_off_c(m) + 13)[2] == b[q + 2]);
            assert(b[q + 2] == 115);
        } else {
            assert(msg_off_d(m) == q);
            if m.signature is Some {
                assert(b.subrange(msg_off_d(m), msg_off_d(m) + 13)[2] == b[q + 2]);
                assert(b[q + 2] == 115);
            } else {
                assert(msg_off_e(m) == q);
                assert(b.subrange(msg_off_e(m), msg_off_e(m) + 13)[2] == b[q + 2]);
                assert(b[q + 2] == 116);
            }
        }
    } else if q == msg_off_c(m) && m.sender_id is None {
        assert(msg_off_d(m) == q);
        if m.signature is Some {
            assert(b.subrange(msg_off_d(m), msg_off_d(m) + 13)[2] == b[q + 2]);
            assert(b[q + 2] == 115);
            assert(b.subrange(msg_off_d(m), msg_off_d(m) + 13)[3] == b[q + 3]);
        } else {
            assert(msg_off_e(m) == q);
            assert(b.subrange(msg_off_e(m), msg_off_e(m) + 13)[2] == b[q + 2]);
            assert(b[q + 2] == 116);
        }
    } else {
        assert(msg_off_e(m) == q);
        assert(b.subrange(msg_off_e(m), msg_off_e(m) + 13)[2] == b[q + 2]);
        assert(b[q + 2] == 116);
    }
}

/// Scan the optional recipient, sender and signature fields.
fn scan_msg_opts(b: &Vec<u8>, pos: &mut usize) -> (r: Option<
    (Option<String>, Option<String>, Option<String>),
>)
    requires
        *old(pos) <= b@.len(),
    ensures
        *final(pos) <= b@.len(),
        r matches Some((rc, sd, sg)) ==> {
            &&& (rc matches Some(x) ==> json_safe(str_bytes(x@)))
            &&& (sd matches Some(x) ==> json_safe(str_bytes(x@)))
            &&& (sg matches Some(x) ==> json_safe(str_bytes(x@)))
        },
        forall|m: Message|
            (#[trigger] message_premise(b@, m) && *old(pos) == msg_off_b(m)) ==> (r matches Some(
                (rc, sd, sg),
            ) && crate::message::opt_chars(rc) == crate::message::opt_chars(m.recipient_id)
                && crate::message::opt_chars(sd) == crate::message::opt_chars(m.sender_id)
                && crate::message::opt_chars(sg) == crate::message::opt_chars(m.signature)
                && *final(pos) == msg_off_e(m)),
{
    let recipient_id = match scan_msg_opt_recipient(b, pos) {
        Some(v) => v,
        None => {
            return None;
        },
    };
    let sender_id = match scan_msg_opt_sender(b, pos) {
        Some(v) => v,
        None => {
            return None;
        },
    };
    let signature = match scan_msg_opt_signature(b, pos) {
        Some(v) => v,
        None => {
            return None;
        },
    };
    Some((recipient_id, sender_id, signature))
}

/// Scan the timestamp, kind, version and closing brace.
#[verifier::rlimit(100)]
#[verifier::spinoff_prover]
fn scan_msg_tail(b: &Vec<u8>, pos: &mut usize) -> (r: Option<(i64, MessageType, String)>)
    requires
        *old(pos) <= b@.len(),
    ensures
        *final(pos) <= b@.len(),
        r matches Some((ts, ty, ver)) ==> json_safe(str_bytes(ver@)),
        forall|m: Message|
            (#[trigger] message_premise(b@, m) && *old(pos) == msg_off_e(m)) ==> (r matches Some(
                (ts, ty, ver),
            ) && ts == m.timestamp && ty == m.msg_type && ver@ == m.version@ && *final(pos)
                == b@.len()),
{
    proof {
        assert forall|m: Message| message_premise(b@, m) implies msg_layout_tail(b@, m)
            && json_safe(m.msg_type.spec_tag()) by {
            lemma_msg_regions_tail(b@, m);
            lemma_tag_safe(m.msg_type);
        }
    }
    let mut lts: Vec<u8> = Vec::new();
    emit_timestamp(&mut lts);
    if !take_lit(b, pos, &lts) {
        return None;
    }
    let timestamp = match read_i64(b, pos) {
        Some(v) => v,
        None => {
            return None;
        },
    };
    let mut lty: Vec<u8> = Vec::new();
    emit_type_key(&mut lty);
    if !take_lit(b, pos, &lty) {
        return None;
    }
    let tag = match read_jstr_bytes(b, pos) {
        Some(v) => v,
        None => {
            return None;
        },
    };
    let msg_type = match type_from_tag(&tag) {
        Some(t) => t,
        None => {
            return None;
        },
    };
    let mut lv: Vec<u8> = Vec::new();
    emit_version_key(&mut lv);
    if !take_lit(b, pos, &lv) {
        return None;
    }
    let version = match read_jstr(b, pos) {
        Some(s) => s,
        None => {
            return None;
        },
    };
    if !take_byte(b, pos, 125) {
        return None;
    }
    if *pos < b.len() {
        return None;
    }
    proof {
        assert forall|m: Message| message_premise(b@, m) && *old(pos) == msg_off_e(m) implies (
        timestamp == m.timestamp && msg_type == m.msg_type && version@ == m.version@ && *pos
            == b@.len()) by {
            crate::crypto::lemma_utf8_unique(m.version@);
        }
    }
    Some((timestamp, msg_type, version))
}

/// Scan a whole message, without the canonicality check; the canonical
/// form of any well-formed message is always read, field-exact.
#[verifier::rlimit(100)]
#[verifier::spinoff_prover]
fn scan_message(b: &Vec<u8>) -> (r: Option<Message>)
    ensures
        r matches Some(m) ==> m.wf(),
        forall|m: Message|
            #[trigger] message_premise(b@, m) ==> (r matches Some(m2) && message_like(m2, m)),
{
    let mut pos: usize = 0;
    let (id, payload) = match scan_msg_head(b, &mut pos) {
        Some(v) => v,
        None => {
            return None;
        },
    };
    let (recipient_id, sender_id, signature) = match scan_msg_opts(b, &mut pos) {
        Some(v) => v,
        None => {
            return None;
        },
    };
    let (timestamp, msg_type, version) = match scan_msg_tail(b, &mut pos) {
        Some(v) => v,
        None => {
            return None;
        },
    };
    Some(
        Message {
            id,
            msg_type,
            payload,
            timestamp,
            sender_id,
            recipient_id,
            signature,
            version,
        },
    )
}

/// Messages equal in contents have the same canonical form.
proof fn lemma_like_same_json(a: Message, m: Message)
    requires
        message_like(a, m),
    ensures
        spec_message_json(a) == spec_message_json(m),
        spec_signing_input_eq(a, m),
{
    assert(str_bytes(a.id@) == str_bytes(m.id@));
    assert(str_bytes(a.version@) == str_bytes(m.version@));
    assert(spec_payload_json(a.payload) == spec_payload_json(m.payload)) by {
        match (a.payload, m.payload) {
            (Payload::Text { text: t1 }, Payload::Text { text: t2 }) => {
                assert(str_bytes(t1@) == str_bytes(t2@));
            },
            (Payload::Encrypted { data: d1 }, Payload::Encrypted { data: d2 }) => {
                assert(spec_env_json(d1) == spec_env_json(d2));
            },
            (
                Payload::Handshake { protocol_version: v1, is_response: r1 },
                Payload::Handshake { protocol_version: v2, is_response: r2 },
            ) => {
                assert(str_bytes(v1@) == str_bytes(v2@));
            },
            (Payload::Ack { original_msg_id: o1 }, Payload::Ack { original_msg_id: o2 }) => {
                assert(str_bytes(o1@) == str_bytes(o2@));
            },
            (Payload::Empty, Payload::Empty) => {},
            _ => {
                assert(false);
            },
        }
    }
    assert(spec_opt_field(l_recipient(), a.recipient_id) == spec_opt_field(
        l_recipient(),
        m.recipient_id,
    )) by {
        match (a.recipient_id, m.recipient_id) {
            (Some(x), Some(y)) => {
                assert(str_bytes(x@) == str_bytes(y@));
            },
            (None, None) => {},
            _ => {
                assert(false);
            },
        }
    }
    assert(spec_opt_field(l_sender(), a.sender_id) == spec_opt_field(l_sender(), m.sender_id))
        by {
        match (a.sender_id, m.sender_id) {
            (Some(x), Some(y)) => {
                assert(str_bytes(x@) == str_bytes(y@));
            },
            (None, None) => {},
            _ => {
                assert(false);
            },
        }
    }
    assert(spec_opt_field(l_signature(), a.signature) == spec_opt_field(
        l_signature(),
        m.signature,
    )) by {
        match (a.signature, m.signature) {
            (Some(x), Some(y)) => {
                assert(str_bytes(x@) == str_bytes(y@));
            },
            (None, None) => {},
            _ => {
                assert(false);
            },
        }
    }
    assert(crate::message::opt_bytes(a.sender_id) == crate::message::opt_bytes(m.sender_id));
    assert(crate::message::opt_bytes(a.recipient_id) == crate::message::opt_bytes(
        m.recipient_id,
    ));
}

/// Messages equal in contents sign the same bytes.
pub open spec fn spec_signing_input_eq(a: Message, m: Message) -> bool {
    crate::message::spec_signing_input(a) == crate::message::spec_signing_input(m)
}

/// A canonical message's third byte is the `i` of its identifier key.
pub proof fn lemma_msg_starts(b: Seq<u8>, m: Message)
    requires
        m.wf(),
        b == spec_message_json(m),
    ensures
        b.len() > 2,
        b[2] == 105,
{
    assert(message_premise(b, m));
    lemma_msg_regions_head(b, m);
    assert(b.subrange(0, 6)[2] == b[2]);
}

/// A canonical browser message's third byte is the `s` of its sender key.
pub proof fn lemma_web_starts(b: Seq<u8>, w: WebMessage)
    requires
        b == spec_web_json(w),
    ensures
        b.len() > 2,
        b[2] == 115,
{
    assert(b[2] == l_web_sender()[2]);
}

/// Parse the canonical wire bytes of a message.  Whatever comes back is
/// well-formed and re-serializes to exactly the input; the canonical form
/// of any well-formed message is accepted and returned, field-exact.
pub fn message_from_json_bytes(b: &Vec<u8>) -> (r: Option<Message>)
    ensures
        r matches Some(m) ==> m.wf() && b@ == spec_message_json(m),
        forall|m: Message|
            (m.wf() && b@ == #[trigger] spec_message_json(m)) ==> (r matches Some(m2)
                && message_like(m2, m)),
{
    let m = match scan_message(b) {
        Some(m) => m,
        None => {
            proof {
                assert forall|m0: Message| m0.wf() && b@ == spec_message_json(m0) implies false
                    by {
                    assert(message_premise(b@, m0));
                }
            }
            return None;
        },
    };
    let ser = message_to_json_bytes(&m);
    if util::bytes_eq(&ser, b) {
        proof {
            assert forall|m0: Message| m0.wf() && b@ == spec_message_json(m0) implies
                message_like(m, m0) by {
                assert(message_premise(b@, m0));
            }
        }
        Some(m)
    } else {
        proof {
            assert forall|m0: Message| m0.wf() && b@ == spec_message_json(m0) implies false by {
                assert(message_premise(b@, m0));
                lemma_like_same_json(m, m0);
            }
        }
        None
    }
}

impl Message {
    /// The canonical wire string of this message.
    pub fn to_json(&self) -> (r: String)
        requires
            self.wf(),
        ensures
            str_bytes(r@) == spec_message_json(*self),
    {
        let b = message_to_json_bytes(self);
        util::ascii_string(b)
    }

    /// Parse a wire string; exactly the canonical forms of well-formed
    /// messages are accepted, field-exact.
    pub fn from_json(json_str: &str) -> (r: Result<Message, ProtocolMalformed>)
        ensures
            r matches Ok(m) ==> m.wf() && json_str.spec_bytes() == spec_message_json(m),
            forall|m: Message|
                (m.wf() && json_str.spec_bytes() == #[trigger] spec_message_json(m)) ==> (
                r matches Ok(m2) && message_like(m2, m)),
    {
        let b: Vec<u8> = json_str.as_bytes_vec();
        match message_from_json_bytes(&b) {
            Some(m) => Ok(m),
            None => Err(ProtocolMalformed),
        }
    }
}

/// The wire form of a staged record.
pub open spec fn spec_package_json(p: IpfsPackage) -> Seq<u8> {
    l_env_msg() + spec_env_json(p.encrypted_message) + l_pkg_hash() + jstr(
        str_bytes(p.recipient_hash@),
    ) + l_timestamp() + spec_dec_i64(p.timestamp as int) + seq![125u8]
}

/// The wire bytes of a staged record.
pub fn package_to_json_bytes(p: &IpfsPackage) -> (r: Vec<u8>)
    requires
        p.wf(),
    ensures
        r@ == spec_package_json(*p),
        forall|i: int| 0 <= i < r@.len() ==> r@[i] < 128,
{
    let mut out: Vec<u8> = Vec::new();
    emit_env_msg(&mut out);
    emit_env(&mut out, &p.encrypted_message);
    let ghost e1 = l_env_msg() + spec_env_json(p.encrypted_message);
    proof {
        assert(out@ =~= e1);
        assert(forall|i: int| 0 <= i < out@.len() ==> out@[i] < 128);
    }
    emit_pkg_hash(&mut out);
    emit_jstr(&mut out, p.recipient_hash.as_str());
    emit_timestamp(&mut out);
    emit_dec_i64(&mut out, p.timestamp);
    out.push(125);
    proof {
        assert(out@ =~= spec_package_json(*p));
        assert(forall|i: int| 0 <= i < out@.len() ==> out@[i] < 128);
    }
    out
}

/// The canonical form of a well-formed staged record fills the buffer.
pub open spec fn package_premise(b: Seq<u8>, p: IpfsPackage) -> bool {
    &&& p.wf()
    &&& b =~= spec_package_json(p)
}

/// The offset of the record's hash field.
pub open spec fn pkg_off_hash(p: IpfsPackage) -> int {
    21 + spec_env_json(p.encrypted_message).len() as int
}

/// The offset of the record's timestamp digits.
pub open spec fn pkg_off_ts(p: IpfsPackage) -> int {
    pkg_off_hash(p) + 20 + str_bytes(p.recipient_hash@).len() as int + 13
}

/// Each piece of a canonical staged record, at its offset.
pub open spec fn pkg_layout(b: Seq<u8>, p: IpfsPackage) -> bool {
    &&& b.subrange(0, 21) =~= l_env_msg()
    &&& env_premise(b, 21, p.encrypted_message)
    &&& b.subrange(pkg_off_hash(p), pkg_off_hash(p) + 18) =~= l_pkg_hash()
    &&& b.subrange(
        pkg_off_hash(p) + 18,
        pkg_off_hash(p) + 20 + str_bytes(p.recipient_hash@).len() as int,
    ) =~= jstr(str_bytes(p.recipient_hash@))
    &&& b.subrange(pkg_off_ts(p) - 13, pkg_off_ts(p)) =~= l_timestamp()
    &&& b.subrange(
        pkg_off_ts(p),
        pkg_off_ts(p) + spec_dec_i64(p.timestamp as int).len() as int,
    ) =~= spec_dec_i64(p.timestamp as int)
    &&& b[b.len() - 1] == 125
    &&& b.len() == pkg_off_ts(p) + spec_dec_i64(p.timestamp as int).len() as int + 1
}

/// A canonical staged record decomposes into its pieces.
#[verifier::rlimit(100)]
#[verifier::spinoff_prover]
proof fn lemma_pkg_regions(b: Seq<u8>, p: IpfsPackage)
    requires
        package_premise(b, p),
    ensures
        pkg_layout(b, p),
{
    let w = spec_package_json(p);
    let ej = spec_env_json(p.encrypted_message);
    let hb = str_bytes(p.recipient_hash@);
    let dec = spec_dec_i64(p.timestamp as int);
    let p1 = l_env_msg();
    let p2 = p1 + ej;
    let p3 = p2 + l_pkg_hash();
    let p4 = p3 + jstr(hb);
    let p5 = p4 + l_timestamp();
    let p6 = p5 + dec;
    let p7 = p6 + seq![125u8];
    assert(w =~= p7);
    assert(b.subrange(0, b.len() as int) =~= b);
    assert(b =~= p7);
    lemma_peel(p1, ej);
    lemma_peel(p2, l_pkg_hash());
    lemma_peel(p3, jstr(hb));
    lemma_peel(p4, l_timestamp());
    lemma_peel(p5, dec);
    lemma_peel(p6, seq![125u8]);
    lemma_sub_sub(b, 0, p7.len() as int, 0, p1.len() as int);
    lemma_sub_sub(b, 0, p7.len() as int, p1.len() as int, p2.len() as int);
    lemma_sub_sub(b, 0, p7.len() as int, p2.len() as int, p3.len() as int);
    lemma_sub_sub(b, 0, p7.len() as int, p3.len() as int, p4.len() as int);
    lemma_sub_sub(b, 0, p7.len() as int, p4.len() as int, p5.len() as int);
    lemma_sub_sub(b, 0, p7.len() as int, p5.len() as int, p6.len() as int);
    assert(b.subrange(0, p1.len() as int) =~= p1);
    assert(b.subrange(p1.len() as int, p2.len() as int) =~= ej);
    assert(b.subrange(p2.len() as int, p3.len() as int) =~= l_pkg_hash());
    assert(b.subrange(p3.len() as int, p4.len() as int) =~= jstr(hb));
    assert(b.subrange(p4.len() as int, p5.len() as int) =~= l_timestamp());
    assert(b.subrange(p5.len() as int, p6.len() as int) =~= dec);
    assert(b[b.len() - 1] == p7[p7.len() - 1]);
}

/// Scan a staged record, without the canonicality check; the canonical
/// form of any well-formed record is always read, field-exact.
#[verifier::rlimit(100)]
#[verifier::spinoff_prover]
fn scan_package(b: &Vec<u8>) -> (r: Option<IpfsPackage>)
    ensures
        r matches Some(p) ==> p.wf(),
        forall|p: IpfsPackage|
            #[trigger] package_premise(b@, p) ==> (r matches Some(p2) && env_like(
                p2.encrypted_message,
                p.encrypted_message,
            ) && p2.recipient_hash@ == p.recipient_hash@ && p2.timestamp == p.timestamp),
{
    proof {
        assert forall|p: IpfsPackage| package_premise(b@, p) implies pkg_layout(b@, p) by {
            lemma_pkg_regions(b@, p);
        }
    }
    let mut pos: usize = 0;
    let mut l: Vec<u8> = Vec::new();
    emit_env_msg(&mut l);
    if !take_lit(b, &mut pos, &l) {
        return None;
    }
    let encrypted_message = match scan_env(b, &mut pos) {
        Some(e) => e,
        None => {
            return None;
        },
    };
    let mut lh: Vec<u8> = Vec::new();
    emit_pkg_hash(&mut lh);
    let recipient_hash = match read_field(b, &mut pos, &lh) {
        Some(s) => s,
        None => {
            return None;
        },
    };
    let mut lt: Vec<u8> = Vec::new();
    emit_timestamp(&mut lt);
    if !take_lit(b, &mut pos, &lt) {
        return None;
    }
    let timestamp = match read_i64(b, &mut pos) {
        Some(v) => v,
        None => {
            return None;
        },
    };
    if !take_byte(b, &mut pos, 125) {
        return None;
    }
    if pos < b.len() {
        return None;
    }
    let built = IpfsPackage { recipient_hash, encrypted_message, timestamp };
    proof {
        assert forall|p: IpfsPackage| package_premise(b@, p) implies (env_like(
            built.encrypted_message,
            p.encrypted_message,
        ) && built.recipient_hash@ == p.recipient_hash@ && built.timestamp == p.timestamp) by {
            crate::crypto::lemma_utf8_unique(p.recipient_hash@);
        }
    }
    Some(built)
}

/// Parse the canonical wire bytes of a staged record; exactly the
/// canonical forms of well-formed records are accepted, field-exact.
pub fn package_from_json_bytes(b: &Vec<u8>) -> (r: Option<IpfsPackage>)
    ensures
        r matches Some(p) ==> p.wf() && b@ == spec_package_json(p),
        forall|p: IpfsPackage|
            (p.wf() && b@ == #[trigger] spec_package_json(p)) ==> (r matches Some(p2) && env_like(
                p2.encrypted_message,
                p.encrypted_message,
            ) && p2.recipient_hash@ == p.recipient_hash@ && p2.timestamp == p.timestamp),
{
    let p = match scan_package(b) {
        Some(p) => p,
        None => {
            proof {
                assert forall|p0: IpfsPackage| p0.wf() && b@ == spec_package_json(p0) implies
                    false by {
                    assert(package_premise(b@, p0));
                }
            }
            return None;
        },
    };
    let ser = package_to_json_bytes(&p);
    if util::bytes_eq(&ser, b) {
        proof {
            assert forall|p0: IpfsPackage| p0.wf() && b@ == spec_package_json(p0) implies (
            env_like(p.encrypted_message, p0.encrypted_message) && p.recipient_hash@
                == p0.recipient_hash@ && p.timestamp == p0.timestamp) by {
                assert(package_premise(b@, p0));
            }
        }
        Some(p)
    } else {
        proof {
            assert forall|p0: IpfsPackage| p0.wf() && b@ == spec_package_json(p0) implies false
                by {
                assert(package_premise(b@, p0));
                assert(spec_env_json(p.encrypted_message) == spec_env_json(
                    p0.encrypted_message,
                ));
                assert(str_bytes(p.recipient_hash@) == str_bytes(p0.recipient_hash@));
                assert(spec_package_json(p) == spec_package_json(p0));
            }
        }
        None
    }
}

/// The wire form of a browser message.
pub open spec fn spec_web_json(w: WebMessage) -> Seq<u8> {
    l_web_sender() + jstr(str_bytes(w.sender@)) + l_web_text() + jstr(str_bytes(w.text@))
        + l_web_ts() + jstr(str_bytes(w.timestamp@)) + l_web_close()
}

/// The wire bytes of a browser message.
pub fn web_message_to_json_bytes(w: &WebMessage) -> (r: Vec<u8>)
    requires
        w.wf(),
    ensures
        r@ == spec_web_json(*w),
        forall|i: int| 0 <= i < r@.len() ==> r@[i] < 128,
{
    let mut out: Vec<u8> = Vec::new();
    emit_web_sender(&mut out);
    emit_jstr(&mut out, w.sender.as_str());
    let ghost e1 = l_web_sender() + jstr(str_bytes(w.sender@));
    proof {
        assert(out@ =~= e1);
        assert(forall|i: int| 0 <= i < out@.len() ==> out@[i] < 128);
    }
    emit_web_text(&mut out);
    emit_jstr(&mut out, w.text.as_str());
    let ghost e2 = e1 + l_web_text() + jstr(str_bytes(w.text@));
    proof {
        assert(out@ =~= e2);
        assert(forall|i: int| 0 <= i < out@.len() ==> out@[i] < 128);
    }
    emit_web_ts(&mut out);
    emit_jstr(&mut out, w.timestamp.as_str());
    emit_web_close(&mut out);
    proof {
        assert(out@ =~= spec_web_json(*w));
        assert(forall|i: int| 0 <= i < out@.len() ==> out@[i] < 128);
    }
    out
}

/// The canonical form of a well-formed browser message fills the buffer.
pub open spec fn web_premise(b: Seq<u8>, w: WebMessage) -> bool {
    &&& w.wf()
    &&& b =~= spec_web_json(w)
}

/// Each piece of a canonical browser message, at its offset.
pub open spec fn web_layout(b: Seq<u8>, w: WebMessage) -> bool {
    &&& b.subrange(0, 10) =~= l_web_sender()
    &&& b.subrange(10, 12 + str_bytes(w.sender@).len() as int) =~= jstr(str_bytes(w.sender@))
    &&& b.subrange(
        12 + str_bytes(w.sender@).len() as int,
        20 + str_bytes(w.sender@).len() as int,
    ) =~= l_web_text()
    &&& b.subrange(
        20 + str_bytes(w.sender@).len() as int,
        22 + str_bytes(w.sender@).len() as int + str_bytes(w.text@).len() as int,
    ) =~= jstr(str_bytes(w.text@))
    &&& b.subrange(
        22 + str_bytes(w.sender@).len() as int + str_bytes(w.text@).len() as int,
        35 + str_bytes(w.sender@).len() as int + str_bytes(w.text@).len() as int,
    ) =~= l_web_ts()
    &&& b.subrange(
        35 + str_bytes(w.sender@).len() as int + str_bytes(w.text@).len() as int,
        37 + str_bytes(w.sender@).len() as int + str_bytes(w.text@).len() as int + str_bytes(
            w.timestamp@,
        ).len() as int,
    ) =~= jstr(str_bytes(w.timestamp@))
    &&& b.subrange(
        37 + str_bytes(w.sender@).len() as int + str_bytes(w.text@).len() as int + str_bytes(
            w.timestamp@,
        ).len() as int,
        b.len() as int,
    ) =~= l_web_close()
    &&& b.len() == 59 + str_bytes(w.sender@).len() + str_bytes(w.text@).len() + str_bytes(
        w.timestamp@,
    ).len()
}

/// A canonical browser message decomposes into its pieces.
#[verifier::rlimit(100)]
#[verifier::spinoff_prover]
proof fn lemma_web_regions(b: Seq<u8>, w: WebMessage)
    requires
        web_premise(b, w),
    ensures
        web_layout(b, w),
{
    let sb = str_bytes(w.sender@);
    let tb = str_bytes(w.text@);
    let mb = str_bytes(w.timestamp@);
    let p1 = l_web_sender();
    let p2 = p1 + jstr(sb);
    let p3 = p2 + l_web_text();
    let p4 = p3 + jstr(tb);
    let p5 = p4 + l_web_ts();
    let p6 = p5 + jstr(mb);
    let p7 = p6 + l_web_close();
    assert(spec_web_json(w) =~= p7);
    assert(b.subrange(0, b.len() as int) =~= b);
    assert(b =~= p7);
    lemma_peel(p1, jstr(sb));
    lemma_peel(p2, l_web_text());
    lemma_peel(p3, jstr(tb));
    lemma_peel(p4, l_web_ts());
    lemma_peel(p5, jstr(mb));
    lemma_peel(p6, l_web_close());
    lemma_sub_sub(b, 0, p7.len() as int, 0, p1.len() as int);
    lemma_sub_sub(b, 0, p7.len() as int, p1.len() as int, p2.len() as int);
    lemma_sub_sub(b, 0, p7.len() as int, p2.len() as int, p3.len() as int);
    lemma_sub_sub(b, 0, p7.len() as int, p3.len() as int, p4.len() as int);
    lemma_sub_sub(b, 0, p7.len() as int, p4.len() as int, p5.len() as int);
    lemma_sub_sub(b, 0, p7.len() as int, p5.len() as int, p6.len() as int);
    lemma_sub_sub(b, 0, p7.len() as int, p6.len() as int, p7.len() as int);
    assert(b.subrange(0, p1.len() as int) =~= p1);
    assert(b.subrange(p1.len() as int, p2.len() as int) =~= jstr(sb));
    assert(b.subrange(p2.len() as int, p3.len() as int) =~= l_web_text());
    assert(b.subrange(p3.len() as int, p4.len() as int) =~= jstr(tb));
    assert(b.subrange(p4.len() as int, p5.len() as int) =~= l_web_ts());
    assert(b.subrange(p5.len() as int, p6.len() as int) =~= jstr(mb));
    assert(b.subrange(p6.len() as int, p7.len() as int) =~= l_web_close());
}

/// Scan a browser message, without the canonicality check; the canonical
/// form of any well-formed browser message is always read, field-exact.
#[verifier::rlimit(100)]
#[verifier::spinoff_prover]
fn scan_web(b: &Vec<u8>) -> (r: Option<WebMessage>)
    ensures
        r matches Some(w) ==> w.wf(),
        forall|w: WebMessage|
            #[trigger] web_premise(b@, w) ==> (r matches Some(w2) && w2.sender@ == w.sender@
                && w2.text@ == w.text@ && w2.timestamp@ == w.timestamp@),
{
    proof {
        assert forall|w: WebMessage| web_premise(b@, w) implies web_layout(b@, w) by {
            lemma_web_regions(b@, w);
        }
    }
    let mut pos: usize = 0;
    let mut l: Vec<u8> = Vec::new();
    emit_web_sender(&mut l);
    let sender = match read_field(b, &mut pos, &l) {
        Some(s) => s,
        None => {
            return None;
        },
    };
    let mut lt: Vec<u8> = Vec::new();
    emit_web_text(&mut lt);
    let text = match read_field(b, &mut pos, &lt) {
        Some(s) => s,
        None => {
            return None;
        },
    };
    let mut lm: Vec<u8> = Vec::new();
    emit_web_ts(&mut lm);
    let timestamp = match read_field(b, &mut pos, &lm) {
        Some(s) => s,
        None => {
            return None;
        },
    };
    let mut lc: Vec<u8> = Vec::new();
    emit_web_close(&mut lc);
    if !take_lit(b, &mut pos, &lc) {
        return None;
    }
    if pos < b.len() {
        return None;
    }
    let msg_type = crate::transport::web_tag_string();
    let built = WebMessage { msg_type, sender, text, timestamp };
    proof {
        assert forall|w: WebMessage| web_premise(b@, w) implies (built.sender@ == w.sender@
            && built.text@ == w.text@ && built.timestamp@ == w.timestamp@) by {
            crate::crypto::lemma_utf8_unique(w.sender@);
            crate::crypto::lemma_utf8_unique(w.text@);
            crate::crypto::lemma_utf8_unique(w.timestamp@);
        }
    }
    Some(built)
}

/// Parse the canonical wire bytes of a browser message; exactly the
/// canonical forms of well-formed browser messages are accepted.
pub fn web_message_from_json_bytes(b: &Vec<u8>) -> (r: Option<WebMessage>)
    ensures
        r matches Some(w) ==> w.wf() && b@ == spec_web_json(w),
        forall|w: WebMessage|
            (w.wf() && b@ == #[trigger] spec_web_json(w)) ==> (r matches Some(w2) && w2.sender@
                == w.sender@ && w2.text@ == w.text@ && w2.timestamp@ == w.timestamp@),
{
    let w = match scan_web(b) {
        Some(w) => w,
        None => {
            proof {
                assert forall|w0: WebMessage| w0.wf() && b@ == spec_web_json(w0) implies false
                    by {
                    assert(web_premise(b@, w0));
                }
            }
            return None;
        },
    };
    let ser = web_message_to_json_bytes(&w);
    if util::bytes_eq(&ser, b) {
        proof {
            assert forall|w0: WebMessage| w0.wf() && b@ == spec_web_json(w0) implies (w.sender@
                == w0.sender@ && w.text@ == w0.text@ && w.timestamp@ == w0.timestamp@) by {
                assert(web_premise(b@, w0));
            }
        }
        Some(w)
    } else {
        proof {
            assert forall|w0: WebMessage| w0.wf() && b@ == spec_web_json(w0) implies false by {
                assert(web_premise(b@, w0));
                assert(str_bytes(w.sender@) == str_bytes(w0.sender@));
                assert(str_bytes(w.text@) == str_bytes(w0.text@));
                assert(str_bytes(w.timestamp@) == str_bytes(w0.timestamp@));
                assert(spec_web_json(w) == spec_web_json(w0));
            }
        }
        None
    }
}

/// Powers of ten.
pub open spec fn pow10(k: nat) -> nat
    decreases k,
{
    if k == 0 {
        1
    } else {
        10 * pow10((k - 1) as nat)
    }
}

/// A number below the k-th power of ten has at most k decimal digits.
proof fn lemma_dec_len_bound(n: nat, k: nat)
    requires
        n < pow10(k),
        k >= 1,
    ensures
        spec_dec_u64(n).len() <= k,
    decreases k,
{
    if n < 10 {
    } else {
        assert(pow10(k) == 10 * pow10((k - 1) as nat));
        assert(n / 10 < pow10((k - 1) as nat)) by (nonlinear_arith)
            requires
                n < 10 * pow10((k - 1) as nat),
        ;
        assert(k >= 2);
        lemma_dec_len_bound(n / 10, (k - 1) as nat);
    }
}

/// The decimal form of a 64-bit value has at most 20 digits; with a sign,
/// at most 21 bytes.
pub proof fn lemma_dec_i64_len(n: i64)
    ensures
        spec_dec_i64(n as int).len() <= 21,
{
    assert(pow10(0) == 1);
    assert(pow10(1) == 10);
    assert(pow10(2) == 100);
    assert(pow10(3) == 1000);
    assert(pow10(4) == 10000);
    assert(pow10(5) == 100000);
    assert(pow10(6) == 1000000);
    assert(pow10(7) == 10000000);
    assert(pow10(8) == 100000000);
    assert(pow10(9) == 1000000000);
    assert(pow10(10) == 10000000000);
    assert(pow10(11) == 100000000000);
    assert(pow10(12) == 1000000000000);
    assert(pow10(13) == 10000000000000);
    assert(pow10(14) == 100000000000000);
    assert(pow10(15) == 1000000000000000);
    assert(pow10(16) == 10000000000000000);
    assert(pow10(17) == 100000000000000000);
    assert(pow10(18) == 1000000000000000000);
    assert(pow10(19) == 10000000000000000000);
    assert(pow10(20) == 100000000000000000000);
    if n >= 0 {
        assert((n as nat) < pow10(20));
        lemma_dec_len_bound(n as nat, 20);
    } else {
        let m = (-(n as int)) as nat;
        assert(m < pow10(20));
        lemma_dec_len_bound(m, 20);
    }
}

/// The wire length of an encrypted payload: its three fields plus the
/// fixed frame.
pub proof fn lemma_payload_env_json_len(p: Payload)
    requires
        p matches Payload::Encrypted { .. },
    ensures
        spec_payload_json(p).len() == payload_env(p).ct_bytes().len() + payload_env(
            p,
        ).epk_bytes().len() + payload_env(p).nonce_bytes().len() + 87,
{
}

/// The wire length of a message is bounded by its variable parts plus a
/// fixed frame allowance.
pub proof fn lemma_message_json_len(m: Message)
    ensures
        spec_message_json(m).len() <= str_bytes(m.id@).len() + spec_payload_json(
            m.payload,
        ).len() + opt_bytes(m.recipient_id).len() + opt_bytes(m.sender_id).len() + opt_bytes(
            m.signature,
        ).len() + str_bytes(m.version@).len() + 160,
{
    lemma_dec_i64_len(m.timestamp);
    assert(m.msg_type.spec_tag().len() <= 12) by {
        match m.msg_type {
            MessageType::Text => {},
            MessageType::Handshake => {},
            MessageType::Ack => {},
            MessageType::KeyExchange => {},
            MessageType::Ping => {},
            MessageType::Pong => {},
            MessageType::Image => {},
            MessageType::Audio => {},
            MessageType::File => {},
            MessageType::Ipfs => {},
        }
    }
    assert(spec_opt_field(l_recipient(), m.recipient_id).len() <= opt_bytes(
        m.recipient_id,
    ).len() + 18) by {
        match m.recipient_id {
            Some(_) => {},
            None => {},
        }
    }
    assert(spec_opt_field(l_sender(), m.sender_id).len() <= opt_bytes(m.sender_id).len() + 15)
        by {
        match m.sender_id {
            Some(_) => {},
            None => {},
        }
    }
    assert(spec_opt_field(l_signature(), m.signature).len() <= opt_bytes(m.signature).len() + 15)
        by {
        match m.signature {
            Some(_) => {},
            None => {},
        }
    }
}

} // verus!
