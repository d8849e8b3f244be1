//! The connection descriptor carried by a vmess link, the settings that the
//! Quantumult form adds to it, and the encoder into that form.

use vstd::prelude::*;
use vstd::string::*;
use vstd::utf8::*;

use crate::text::{push, str_eq};

verus! {

/// The user agent that the obfuscation header announces.
pub const USER_AGENT: &'static str =
    "Mozilla/5.0 (iPhone; CPU iPhone OS 11_2_6 like Mac OS X) AppleWebKit/604.5.6 (KHTML, like Gecko) Mobile/15D100";

/// Group label used when the caller gives none.
pub const DEFAULT_GROUP: &'static str = "V2NtoQuan";

/// Cipher method used when the caller gives none.
pub const DEFAULT_METHOD: &'static str = "chacha20-ietf-poly1305";

/// Settings that the Quantumult form takes from the caller, not from the link.
#[derive(Clone, Debug)]
pub struct ConvertConfig {
    pub group: String,
    pub method: String,
}

/// Mathematical view of a `ConvertConfig`.
pub struct ConvertConfigView {
    pub group: Seq<char>,
    pub method: Seq<char>,
}

impl View for ConvertConfig {
    type V = ConvertConfigView;

    open spec fn view(&self) -> ConvertConfigView {
        ConvertConfigView { group: self.group@, method: self.method@ }
    }
}

impl ConvertConfig {
    /// The settings used when the caller overrides nothing.
    pub fn default_config() -> (r: ConvertConfig)
        ensures
            r.group@ == DEFAULT_GROUP@,
            r.method@ == DEFAULT_METHOD@,
    {
        ConvertConfig { group: String::from_str(DEFAULT_GROUP), method: String::from_str(DEFAULT_METHOD) }
    }
}

impl Default for ConvertConfig {
    fn default() -> (r: ConvertConfig)
        ensures
            r.group@ == DEFAULT_GROUP@,
            r.method@ == DEFAULT_METHOD@,
    {
        ConvertConfig::default_config()
    }
}

/// A decoded vmess descriptor. Every field is kept as the text it was given.
#[derive(Clone, Debug)]
pub struct VmessConfig {
    /// Schema version.
    pub v: String,
    /// Display name.
    pub ps: String,
    /// Server address.
    pub add: String,
    /// Server port.
    pub port: String,
    /// User identifier.
    pub id: String,
    /// Alter id.
    pub aid: String,
    /// Transport: tcp, kcp, ws, ...
    pub net: String,
    /// Obfuscation type: none, http, ... (the `type` key of the link).
    pub obfs_type: String,
    /// Obfuscation host.
    pub host: String,
    /// Obfuscation path.
    pub path: String,
    /// TLS mode: `tls` or anything else.
    pub tls: String,
}

/// Mathematical view of a `VmessConfig`.
pub struct VmessView {
    pub v: Seq<char>,
    pub ps: Seq<char>,
    pub add: Seq<char>,
    pub port: Seq<char>,
    pub id: Seq<char>,
    pub aid: Seq<char>,
    pub net: Seq<char>,
    pub obfs_type: Seq<char>,
    pub host: Seq<char>,
    pub path: Seq<char>,
    pub tls: Seq<char>,
}

impl View for VmessConfig {
    type V = VmessView;

    open spec fn view(&self) -> VmessView {
        VmessView {
            v: self.v@,
            ps: self.ps@,
            add: self.add@,
            port: self.port@,
            id: self.id@,
            aid: self.aid@,
            net: self.net@,
            obfs_type: self.obfs_type@,
            host: self.host@,
            path: self.path@,
            tls: self.tls@,
        }
    }
}

/// The URL-safe, padded base64 text of a byte sequence, as the `base64` crate
/// writes it.
pub uninterp spec fn url_safe_base64_of(bytes: Seq<u8>) -> Seq<char>;

/// Relies on `base64::encode_config` with `base64::URL_SAFE`: the text depends
/// on the bytes of `s` alone.
#[verifier::external_body]
fn encode_url_safe(s: &str) -> (r: String)
    ensures
        r@ == url_safe_base64_of(encode_utf8(s@)),
{
    base64::encode_config(s, base64::URL_SAFE)
}

/// `obfs=` value: `ws` for the ws transport, `http` for every other one.
pub open spec fn obfs_transport(net: Seq<char>) -> Seq<char> {
    if net == "ws"@ { "ws"@ } else { "http"@ }
}

/// Obfuscation path, `/` when the descriptor gives none.
pub open spec fn obfs_path(c: VmessView) -> Seq<char> {
    if c.path.len() == 0 { "/"@ } else { c.path }
}

/// Obfuscation host, the server address when the descriptor gives none.
pub open spec fn obfs_host(c: VmessView) -> Seq<char> {
    if c.host.len() == 0 { c.add } else { c.host }
}

/// The obfuscation clause, leading comma included.
pub open spec fn obfs_clause(c: VmessView) -> Seq<char> {
    ", obfs="@ + obfs_transport(c.net) + ", obfs-path=\""@ + obfs_path(c) + "\", obfs-header=\"Host: "@
        + obfs_host(c) + "[Rr][Nn]User-Agent: "@ + USER_AGENT@ + "\""@
}

/// Whether the obfuscation clause is written: always, except for obfuscation
/// type `none` on a transport other than ws.
pub open spec fn obfs_included(c: VmessView) -> bool {
    c.obfs_type != "none"@ || c.net == "ws"@
}

/// `over-tls=` value.
pub open spec fn tls_flag(tls: Seq<char>) -> Seq<char> {
    if tls == "tls"@ { "true"@ } else { "false"@ }
}

/// The Quantumult clause up to and including the group label.
pub open spec fn head_clause(c: VmessView, cfg: ConvertConfigView) -> Seq<char> {
    c.ps + " = vmess, "@ + c.add + ", "@ + c.port + ", "@ + cfg.method + ", \""@ + c.id + "\", group="@
        + cfg.group
}

/// The Quantumult clause up to and including `certificate=1`.
pub open spec fn base_clause(c: VmessView, cfg: ConvertConfigView) -> Seq<char> {
    head_clause(c, cfg) + ", over-tls="@ + tls_flag(c.tls) + ", certificate=1"@
}

/// The whole Quantumult clause.
pub open spec fn quan_clause(c: VmessView, cfg: ConvertConfigView) -> Seq<char> {
    base_clause(c, cfg) + if obfs_included(c) { obfs_clause(c) } else { Seq::empty() }
}

/// The Quantumult link: the clause, base64-wrapped, behind `vmess://`.
pub open spec fn quan_uri(c: VmessView, cfg: ConvertConfigView) -> Seq<char> {
    "vmess://"@ + url_safe_base64_of(encode_utf8(quan_clause(c, cfg)))
}

impl VmessConfig {
    fn build_obfs_clause(&self) -> (r: String)
        ensures
            r@ == obfs_clause(self@),
    {
        let mut out = String::new();
        push(&mut out, ", obfs=");
        if str_eq(self.net.as_str(), "ws") {
            push(&mut out, "ws");
        } else {
            push(&mut out, "http");
        }
        push(&mut out, ", obfs-path=\"");
        if self.path.as_str().is_empty() {
            push(&mut out, "/");
        } else {
            push(&mut out, self.path.as_str());
        }
        push(&mut out, "\", obfs-header=\"Host: ");
        if self.host.as_str().is_empty() {
            push(&mut out, self.add.as_str());
        } else {
            push(&mut out, self.host.as_str());
        }
        push(&mut out, "[Rr][Nn]User-Agent: ");
        push(&mut out, USER_AGENT);
        push(&mut out, "\"");
        out
    }

    /// The Quantumult link for this descriptor under the given settings.
    pub fn to_quan_uri(&self, convert_cfg: &ConvertConfig) -> (r: String)
        ensures
            r@ == quan_uri(self@, convert_cfg@),
    {
        let mut clause = String::new();
        push(&mut clause, self.ps.as_str());
        push(&mut clause, " = vmess, ");
        push(&mut clause, self.add.as_str());
        push(&mut clause, ", ");
        push(&mut clause, self.port.as_str());
        push(&mut clause, ", ");
        push(&mut clause, convert_cfg.method.as_str());
        push(&mut clause, ", \"");
        push(&mut clause, self.id.as_str());
        push(&mut clause, "\", group=");
        push(&mut clause, convert_cfg.group.as_str());
        push(&mut clause, ", over-tls=");
        if str_eq(self.tls.as_str(), "tls") {
            push(&mut clause, "true");
        } else {
            push(&mut clause, "false");
        }
        push(&mut clause, ", certificate=1");
        if !str_eq(self.obfs_type.as_str(), "none") || str_eq(self.net.as_str(), "ws") {
            let obfs = self.build_obfs_clause();
            push(&mut clause, obfs.as_str());
        }
        let encoded = encode_url_safe(clause.as_str());
        let mut out = String::new();
        push(&mut out, "vmess://");
        push(&mut out, encoded.as_str());
        out
    }
}

/// Without obfuscation type `none` on a transport other than ws, the clause
/// stops at `certificate=1`: no obfuscation settings follow.
pub proof fn lemma_obfs_omitted(c: VmessView, cfg: ConvertConfigView)
    requires
        c.obfs_type == "none"@,
        c.net != "ws"@,
    ensures
        quan_clause(c, cfg) == base_clause(c, cfg),
        quan_clause(c, cfg).len() >= 13,
        quan_clause(c, cfg).skip(quan_clause(c, cfg).len() - 13) == "certificate=1"@,
{
    reveal_strlit("certificate=1");
    reveal_strlit(", certificate=1");
    let b = base_clause(c, cfg);
    assert(quan_clause(c, cfg) =~= b);
    let front = head_clause(c, cfg) + ", over-tls="@ + tls_flag(c.tls);
    assert(b =~= front + ", certificate=1"@);
    assert(b.skip(b.len() - 13) =~= "certificate=1"@);
}

/// Where obfuscation settings are written, they start with `, obfs=ws` exactly
/// when the transport is ws, and with `, obfs=http` otherwise.
pub proof fn lemma_transport_switch(c: VmessView, cfg: ConvertConfigView)
    requires
        obfs_included(c),
    ensures
        ({
            let q = quan_clause(c, cfg);
            let b = base_clause(c, cfg).len() as int;
            &&& q.len() >= b + 11
            &&& (q.subrange(b, b + 9) == ", obfs=ws"@ <==> c.net == "ws"@)
            &&& (q.subrange(b, b + 11) == ", obfs=http"@ <==> c.net != "ws"@)
        }),
{
    reveal_strlit(", obfs=");
    reveal_strlit(", obfs=ws");
    reveal_strlit(", obfs=http");
    reveal_strlit("ws");
    reveal_strlit("http");
    reveal_strlit(", obfs-path=\"");
    let q = quan_clause(c, cfg);
    let base = base_clause(c, cfg);
    let b = base.len() as int;
    let rest = ", obfs-path=\""@ + obfs_path(c) + "\", obfs-header=\"Host: "@ + obfs_host(c) + "[Rr][Nn]User-Agent: "@
        + USER_AGENT@ + "\""@;
    assert(obfs_clause(c) =~= ", obfs="@ + obfs_transport(c.net) + rest);
    assert(q =~= base + (", obfs="@ + obfs_transport(c.net) + rest));
    assert(q.len() >= b + 11);
    if c.net == "ws"@ {
        assert(q.subrange(b, b + 9) =~= ", obfs=ws"@);
        assert(q[b + 8] == 's');
        assert(", obfs=http"@[8] == 't');
    } else {
        assert(q.subrange(b, b + 11) =~= ", obfs=http"@);
        assert(q[b + 8] == 't');
        assert(", obfs=ws"@[8] == 's');
    }
}

/// The clause says `over-tls=true` right after the group label exactly when the
/// TLS mode is `tls`, and `over-tls=false` otherwise.
pub proof fn lemma_tls_flag(c: VmessView, cfg: ConvertConfigView)
    ensures
        ({
            let q = quan_clause(c, cfg);
            let h = head_clause(c, cfg).len() as int;
            &&& q.len() >= h + 16
            &&& (q.subrange(h, h + 15) == ", over-tls=true"@ <==> c.tls == "tls"@)
            &&& (q.subrange(h, h + 16) == ", over-tls=false"@ <==> c.tls != "tls"@)
        }),
{
    reveal_strlit(", over-tls=");
    reveal_strlit(", over-tls=true");
    reveal_strlit(", over-tls=false");
    reveal_strlit("true");
    reveal_strlit("false");
    reveal_strlit(", certificate=1");
    let q = quan_clause(c, cfg);
    let head = head_clause(c, cfg);
    let h = head.len() as int;
    let tail = ", certificate=1"@ + if obfs_included(c) { obfs_clause(c) } else { Seq::empty() };
    assert(q =~= head + (", over-tls="@ + tls_flag(c.tls) + tail));
    if c.tls == "tls"@ {
        assert(q.subrange(h, h + 15) =~= ", over-tls=true"@);
        assert(q[h + 11] == 't');
        assert(", over-tls=false"@[11] == 'f');
    } else {
        assert(q.subrange(h, h + 16) =~= ", over-tls=false"@);
        assert(q[h + 11] == 'f');
        assert(", over-tls=true"@[11] == 't');
    }
}

} // verus!
