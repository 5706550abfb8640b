//! Discovery of devices and services over multicast UDP (SSDP).
//!
//! The library holds the verified core: typed headers, the message model and
//! its wire format, the address rules of the transport layer and the decisions
//! of a listener. Sockets, threads and interface enumeration live around it.

pub mod error;
pub mod header;
pub mod message;
pub mod net;
pub mod notify;
pub mod receiver;
pub mod search;
pub mod wire;

pub use error::SSDPError;
pub use message::{Config, FromRawSSDP, Headers, SSDPMessage};
pub use net::{IpAddress, IpVersionMode, SocketAddress};
pub use notify::{NotifyListener, NotifyMessage};
pub use search::{SearchListener, SearchRequest, SearchResponse};
pub use wire::MessageType;
