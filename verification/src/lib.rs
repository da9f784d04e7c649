//! Core logic of a sandboxed file-sharing server.
//!
//! Every client-supplied path runs through two stages before any byte
//! is read: the pure [`paths::sanitize`] normalization, and the
//! [`validate`] judgment of what the filesystem made of the joined
//! path, which accepts only component-wise descendants of the served
//! root.  [`listing`] turns raw directory facts into sorted display
//! rows, [`share`] keeps the token registry and re-validates every
//! redemption, and [`transfer`] fixes the metadata a download is
//! served with.  The surrounding HTTP server only wires these
//! functions to the network.
pub mod chars;
pub mod listing;
pub mod paths;
pub mod preview;
pub mod share;
pub mod token;
pub mod transfer;
pub mod validate;
