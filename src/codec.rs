//! Decoding a vmess link: base64 (standard alphabet), then UTF-8, then a JSON
//! object whose members are the descriptor's fields.

use vstd::prelude::*;
use vstd::string::*;
use vstd::utf8::*;

use crate::text::str_eq;
use crate::vmess::{VmessConfig, VmessView};

verus! {

/// Why a link could not be decoded.
#[derive(Clone, Copy, Debug, PartialEq, Eq, Structural)]
pub enum ConvertError {
    /// The payload is not standard base64.
    Base64,
    /// The decoded bytes are not UTF-8.
    TextEncoding,
    /// The text is not a JSON object with a string for every descriptor key.
    JsonShape,
}

#[verifier::external_type_specification]
#[verifier::external_body]
pub struct ExBase64DecodeError(base64::DecodeError);

#[verifier::external_type_specification]
#[verifier::external_body]
pub struct ExFromUtf8Error(std::string::FromUtf8Error);

#[verifier::external_type_specification]
#[verifier::external_body]
pub struct ExJsonError(serde_json::Error);

/// The bytes that the `base64` crate decodes from `text` with the standard
/// alphabet and padding, or `None` where it reports an error.
pub uninterp spec fn standard_base64_decoded(text: Seq<char>) -> Option<Seq<u8>>;

/// Relies on `base64::decode` (standard alphabet, padded): it succeeds or fails
/// and gives its bytes as a function of the text alone.
#[verifier::external_body]
fn decode_standard(text: &str) -> (r: Result<Vec<u8>, base64::DecodeError>)
    ensures
        match r {
            Ok(bytes) => standard_base64_decoded(text@) == Some(bytes@),
            Err(_) => standard_base64_decoded(text@) is None,
        },
{
    base64::decode(text)
}

/// Relies on `String::from_utf8`: it succeeds exactly on valid UTF-8, and the
/// string then holds those bytes.
#[verifier::external_body]
fn string_from_utf8(bytes: Vec<u8>) -> (r: Result<String, std::string::FromUtf8Error>)
    ensures
        r is Ok <==> valid_utf8(bytes@),
        r matches Ok(s) ==> encode_utf8(s@) == bytes@,
{
    String::from_utf8(bytes)
}

/// A JSON object member as this library reads it: its key, and its value where
/// that value is a string.
pub type Member = (Seq<char>, Option<Seq<char>>);

/// The members of the JSON object that `serde_json` reads from `text`, in key
/// order, or `None` where `text` is not a JSON object.
pub uninterp spec fn json_object_members(text: Seq<char>) -> Option<Seq<Member>>;

/// Relies on `serde_json::from_str` into a `BTreeMap<String, serde_json::Value>`:
/// whether `text` is a JSON object, and its members, depend on `text` alone.
/// Each value is kept where it is a JSON string and dropped to `None` otherwise.
#[verifier::external_body]
fn parse_json_object(text: &str) -> (r: Result<Vec<(String, Option<String>)>, serde_json::Error>)
    ensures
        match r {
            Ok(members) => json_object_members(text@) == Some(members.deep_view()),
            Err(_) => json_object_members(text@) is None,
        },
{
    let object: std::collections::BTreeMap<String, serde_json::Value> = serde_json::from_str(text)?;
    Ok(object.into_iter().map(|(k, v)| match v {
        serde_json::Value::String(s) => (k, Some(s)),
        _ => (k, None),
    }).collect())
}

/// The string value of the first member named `key`, if it has one.
pub open spec fn string_member(members: Seq<Member>, key: Seq<char>) -> Option<Seq<char>>
    decreases members.len(),
{
    if members.len() == 0 {
        None
    } else if members[0].0 == key {
        members[0].1
    } else {
        string_member(members.drop_first(), key)
    }
}

/// The descriptor that a member list describes: every key must hold a string.
pub open spec fn descriptor_of_members(m: Seq<Member>) -> Option<VmessView> {
    if string_member(m, "v"@) is Some && string_member(m, "ps"@) is Some && string_member(m, "add"@) is Some
        && string_member(m, "port"@) is Some && string_member(m, "id"@) is Some && string_member(m, "aid"@) is Some
        && string_member(m, "net"@) is Some && string_member(m, "type"@) is Some && string_member(m, "host"@) is Some
        && string_member(m, "path"@) is Some && string_member(m, "tls"@) is Some {
        Some(VmessView {
            v: string_member(m, "v"@)->0,
            ps: string_member(m, "ps"@)->0,
            add: string_member(m, "add"@)->0,
            port: string_member(m, "port"@)->0,
            id: string_member(m, "id"@)->0,
            aid: string_member(m, "aid"@)->0,
            net: string_member(m, "net"@)->0,
            obfs_type: string_member(m, "type"@)->0,
            host: string_member(m, "host"@)->0,
            path: string_member(m, "path"@)->0,
            tls: string_member(m, "tls"@)->0,
        })
    } else {
        None
    }
}

/// The descriptor that JSON text describes.
pub open spec fn descriptor_of_json(text: Seq<char>) -> Result<VmessView, ConvertError> {
    match json_object_members(text) {
        None => Err(ConvertError::JsonShape),
        Some(m) => match descriptor_of_members(m) {
            None => Err(ConvertError::JsonShape),
            Some(c) => Ok(c),
        },
    }
}

/// The descriptor that a link's base64 payload carries.
pub open spec fn descriptor_of_payload(payload: Seq<char>) -> Result<VmessView, ConvertError> {
    match standard_base64_decoded(payload) {
        None => Err(ConvertError::Base64),
        Some(bytes) => if valid_utf8(bytes) {
            descriptor_of_json(decode_utf8(bytes))
        } else {
            Err(ConvertError::TextEncoding)
        },
    }
}

/// The descriptor that a link carries: its first eight characters (the
/// `vmess://` prefix) are dropped and the rest is the payload.
pub open spec fn descriptor_of_uri(ins: Seq<char>) -> Result<VmessView, ConvertError>
    recommends
        ins.len() >= 8,
{
    descriptor_of_payload(ins.skip(8))
}

fn find_string_member(members: &Vec<(String, Option<String>)>, key: &str) -> (r: Option<String>)
    ensures
        r.deep_view() == string_member(members.deep_view(), key@),
{
    let mut i: usize = 0;
    assert(members.deep_view().skip(0) =~= members.deep_view());
    while i < members.len()
        invariant
            i <= members.len(),
            string_member(members.deep_view(), key@) == string_member(
                members.deep_view().skip(i as int),
                key@,
            ),
        decreases members.len() - i,
    {
        let ghost rest = members.deep_view().skip(i as int);
        assert(rest.drop_first() =~= members.deep_view().skip(i + 1));
        if str_eq(members[i].0.as_str(), key) {
            return members[i].1.clone();
        }
        i = i + 1;
    }
    None
}

impl VmessConfig {
    /// Reads a descriptor from JSON text.
    pub fn from_json(text: &str) -> (r: Result<VmessConfig, ConvertError>)
        ensures
            match r {
                Ok(c) => descriptor_of_json(text@) == Ok::<VmessView, ConvertError>(c@),
                Err(e) => descriptor_of_json(text@) == Err::<VmessView, ConvertError>(e),
            },
    {
        let members = match parse_json_object(text) {
            Ok(m) => m,
            Err(_) => return Err(ConvertError::JsonShape),
        };
        let v = find_string_member(&members, "v");
        let ps = find_string_member(&members, "ps");
        let add = find_string_member(&members, "add");
        let port = find_string_member(&members, "port");
        let id = find_string_member(&members, "id");
        let aid = find_string_member(&members, "aid");
        let net = find_string_member(&members, "net");
        let obfs_type = find_string_member(&members, "type");
        let host = find_string_member(&members, "host");
        let path = find_string_member(&members, "path");
        let tls = find_string_member(&members, "tls");
        match (v, ps, add, port, id, aid, net, obfs_type, host, path, tls) {
            (Some(v), Some(ps), Some(add), Some(port), Some(id), Some(aid), Some(net), Some(obfs_type), Some(host), Some(path), Some(tls)) => {
                Ok(VmessConfig { v, ps, add, port, id, aid, net, obfs_type, host, path, tls })
            },
            _ => Err(ConvertError::JsonShape),
        }
    }
}

/// Decodes a base64 payload into a descriptor.
pub fn decode_payload(payload: &str) -> (r: Result<VmessConfig, ConvertError>)
    ensures
        match r {
            Ok(c) => descriptor_of_payload(payload@) == Ok::<VmessView, ConvertError>(c@),
            Err(e) => descriptor_of_payload(payload@) == Err::<VmessView, ConvertError>(e),
        },
{
    let bytes = match decode_standard(payload) {
        Ok(b) => b,
        Err(_) => return Err(ConvertError::Base64),
    };
    let text = match string_from_utf8(bytes) {
        Ok(t) => t,
        Err(_) => return Err(ConvertError::TextEncoding),
    };
    proof {
        encode_utf8_decode_utf8(text@);
    }
    VmessConfig::from_json(text.as_str())
}

/// Decodes a whole link, `vmess://` prefix included, into a descriptor.
pub fn decode_vmess_uri(ins: &str) -> (r: Result<VmessConfig, ConvertError>)
    requires
        ins@.len() >= 8,
    ensures
        match r {
            Ok(c) => descriptor_of_uri(ins@) == Ok::<VmessView, ConvertError>(c@),
            Err(e) => descriptor_of_uri(ins@) == Err::<VmessView, ConvertError>(e),
        },
{
    let n = ins.unicode_len();
    let payload = ins.substring_char(8, n);
    proof {
        assert(payload@ =~= ins@.skip(8));
    }
    decode_payload(payload)
}

} // verus!
