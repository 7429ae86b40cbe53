//! Drivers for a small badge board: an AT-style command/response client for
//! an NB-IoT radio module, and a three-colour e-paper display controller.
//!
//! The radio side parses an open-ended byte stream into framed response
//! records, classifies each record against a fixed grammar, and wraps the
//! request/response cycle in a session handle whose remote state is opened
//! and closed by paired commands.

mod at;
mod coap;
mod ec01f;
mod epd2in66b;
mod hw;
mod linebuf;
mod sim;
mod transport;
mod utf8;

pub use at::response;
pub use at::Device;
pub use at::ParseOutcome;
pub use at::Response;
pub use coap::CoAPClient;
pub use ec01f::EC01F;
pub use ec01f::Error;
pub use epd2in66b::Color;
pub use epd2in66b::DataEntryModeDir;
pub use epd2in66b::DataEntryModeIncr;
pub use epd2in66b::DeepSleepMode;
pub use epd2in66b::DisplayRamOption;
pub use epd2in66b::Epd2in66bDisplay;
pub use epd2in66b::SourceOutputMode;
pub use hw::DelayUs;
pub use hw::InPin;
pub use hw::OutPin;
pub use hw::SimBusy;
pub use hw::SimDelay;
pub use hw::SimPin;
pub use hw::SimSpi;
pub use hw::SpiBus;
pub use hw::SpiFault;
pub use sim::SimFault;
pub use sim::SimTransport;
pub use transport::Transport;
