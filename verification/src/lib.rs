//! A verified streaming codec for a GAIA-style binary framing protocol.
//!
//! The codec reconstructs discrete packets from an unbounded,
//! arbitrarily-chunked byte stream ([`GaiaParser`]) and serializes outgoing
//! commands into the same wire format ([`gaia_frame`]).

pub mod decoder;
pub mod encoder;
pub mod laws;
pub mod packet;
pub mod util;

pub use decoder::GaiaParser;
pub use encoder::gaia_frame;
pub use packet::parse_gaia_packet;
pub use packet::GaiaPacketEvent;
pub use util::default_true;
pub use util::ioreturn_name;
