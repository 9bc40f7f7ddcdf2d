//! NVIDIA NGX OTA server (https://ngx.download.nvidia.com) access.
//!
//! The NGX update servers are public S3 buckets whose object keys follow the pattern
//! `<namespace>/org/nvidia/team/ngx/models/<feature>/versions/<version-id>/files/<name>`.
//!
//! An entry keeps as its namespace all that stands before `org/` in its key, the
//! slash included. The address of an object is the server, a slash and its key.
//!
//! Relevant features:
//!  - `dlss`  -> DLSS Super Resolution, payload `160_E658700.bin` (= nvngx_dlss.dll)
//!  - `dlssd` -> DLSS Ray Reconstruction, payload `160_E658700.bin` (= nvngx_dlssd.dll)
//!  - `dlssg` -> DLSS Frame Generation, payload `160_E658700.bin` (= nvngx_dlssg.dll)
//!  - `sl_sdk_0` -> Streamline SDK, payload `160_E658703.zip` (contains sl.common.dll, ...)
//!
//! `<version-id>` packs as `major << 16 | minor << 8 | patch`
//! (e.g. 20317442 -> 310.5.2, 133888 -> 2.11.0).
//!
//! The DLLs are stored as plain PE files (the `.bin` suffix is not an encryption
//! wrapper), so they only need to be renamed to their consumer names.

pub mod answering;
pub mod archive;
pub mod asking;
pub mod config;
pub mod digest;
pub mod download;
pub mod error;
pub mod feature;
pub mod fetch;
pub mod fetching;
pub mod grouping;
pub mod key;
pub mod listing;
pub mod offer;
pub mod offered;
pub mod offering;
pub mod payload;
pub mod probe;
pub mod scan;
pub mod urls;
pub mod version;

pub use crate::size::human_size;
pub use download::download_offer;
pub use feature::Feature;
pub use fetch::fetch_offers;
pub use offer::{Candidate, Group, Offer};
pub use urls::NGX_HOST;
pub use version::{decode_version, pack_semver};
