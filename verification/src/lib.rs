//! Verified core of a LAN file-transfer tool.
//!
//! The wire protocol frames an ordered file manifest (magic, version, total
//! length, then one record of file size and relative path per file) ahead of
//! the concatenated raw file bodies. This crate holds the protocol logic:
//! manifest encoding and decoding, the common-path-prefix reduction used for
//! space-efficient receiving, the discovery-datagram codec, and the decision
//! kernels of the transfer and survey loops. All I/O stays outside.

use vstd::prelude::*;

pub mod addr;
pub mod args;
pub mod manifest;
pub mod prefix;
pub mod session;
pub mod utf8;

verus! {

/// Protocol version carried in byte 3 of the manifest header.
pub const VERSION: u8 = 3;

/// Size of the reusable chunk buffer for streaming file bodies.
pub const CHUNK_SIZE: usize = 4 * 1024 * 1024;

/// Seconds to sleep between discovery broadcasts while surveying.
pub const SIGNAL_DELAY_SECS: u64 = 2;

/// Fixed TCP port for file transfers.
pub const PORT: u16 = 8370;

/// Fixed UDP port the sender listens on for discovery datagrams.
pub const SIGNALING_PORT: u16 = 8369;

/// Fixed UDP port the receiver binds to broadcast its address from.
pub const CLIENT_BROADCAST_PORT: u16 = 38369;

/// The three magic bytes "sf-" that open every manifest.
pub const MAGIC0: u8 = 0x73;

/// Second magic byte ('f').
pub const MAGIC1: u8 = 0x66;

/// Third magic byte ('-').
pub const MAGIC2: u8 = 0x2d;

/// Every fatal condition the protocol logic can detect.
#[derive(Clone, Copy, Debug, PartialEq, Eq, Structural)]
pub enum TransferError {
    /// Manifest did not open with the three magic bytes.
    BadMagic,
    /// Magic matched but the version byte is not the supported version.
    BadVersion,
    /// A record runs past the declared manifest length, the declared length
    /// is impossible, or a path is not valid UTF-8.
    MalformedManifest,
    /// The stream ended before a file's declared byte count arrived.
    TruncatedTransfer,
    /// A discovery datagram carried an address family tag other than 4 or 6.
    InvalidDiscoveryDatagram,
    /// The manifest would not fit in its 32-bit length field.
    ManifestTooLarge,
}

impl TransferError {
    /// Human-readable description for diagnostics.
    pub fn message(&self) -> String {
        match self {
            TransferError::BadMagic => "bad header magic".to_owned(),
            TransferError::BadVersion => "incompatible protocol version".to_owned(),
            TransferError::MalformedManifest => "malformed manifest".to_owned(),
            TransferError::TruncatedTransfer => {
                "connection ended without receiving full file".to_owned()
            },
            TransferError::InvalidDiscoveryDatagram => {
                "invalid socket addr version".to_owned()
            },
            TransferError::ManifestTooLarge => {
                "manifest exceeds the 32-bit length field".to_owned()
            },
        }
    }
}

} // verus!
