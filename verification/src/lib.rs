//! An IPTV playlist bridge presented as a hardware tuner appliance.
//!
//! The library holds the verified core: the playlist parser, the stream
//! identifier codec, the lineup builder, the device descriptor and the
//! planning half of the streaming proxy. The surrounding HTTP server and
//! process supervision live outside, calling in through these types.

pub mod codec;
pub mod config;
pub mod device;
pub mod ffmpeg;
pub mod lineup;
pub mod m3u;
pub mod text;
