//! Rewrites vmess share links into Quantumult-style vmess links.

pub mod codec;
pub mod convert;
pub mod routes;
pub mod text;
pub mod vmess;

pub use codec::{decode_payload, decode_vmess_uri, ConvertError};
pub use convert::{convert_cfg_str, convert_vmess_uri};
pub use routes::index;
pub use vmess::{ConvertConfig, VmessConfig};
