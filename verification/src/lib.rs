//! Beckhoff ADS/AMS protocol: wire formats, request and reply handling,
//! notification parsing and the UDP sideband messages, with machine-checked
//! contracts.
//!
//! The library does no input or output.  For each operation it gives the
//! frame to send and judges the frame that came back; for the reader it says
//! what is to be done with each frame read.  Sockets, threads and channels
//! belong to the caller.

pub mod bytes;
pub mod client;
pub mod device;
pub mod errors;
pub mod index;
pub mod mapping;
pub mod netid;
pub mod notif;
pub mod reader;
pub mod registry;
pub mod state;
pub mod sumup;
pub mod text;
pub mod udp;
pub mod wire;

pub use client::{Client, Command, DeviceInfo, Request, Source};
pub use device::Device;
pub use errors::{Error, IoError};
pub use mapping::AdsMapping;
pub use netid::{AmsAddr, AmsNetId, AmsPort};
pub use reader::{Frame, Reader, RestartEvent};
pub use registry::ReplyRegistry;
pub use state::AdsState;
pub use sumup::{AddNotifRequest, DelNotifRequest, ReadRequest, WriteReadRequest, WriteRequest};

use vstd::prelude::*;

verus! {

/// The default port for TCP communication.
pub const PORT: u16 = 0xBF02;

/// The default port for UDP communication.
pub const UDP_PORT: u16 = 0xBF03;

} // verus!
