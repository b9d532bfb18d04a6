//! A publish/subscribe broker for the Foxglove WebSocket protocol.
//!
//! The library keeps the broker's state (advertised channels, connected
//! clients and their subscriptions, parameters) and decides, for every
//! event, which frames go to which client. Transport, task spawning and JSON
//! serialisation live around it.

pub mod broker;
pub mod codec;
pub mod protocol;
pub mod schema;
pub mod subscriptions;

pub use broker::{Channel, Delivery, FoxgloveWebSocket, ProtocolError};
pub use codec::{decode_message_data, encode_message_data};
pub use protocol::{
    ClientMessage, ClientSubscriptionMessage, IncomingFrame, OutboundFrame, ParameterValue,
    ServerChannelMessage, ServerMessage,
};
pub use schema::SchemaDescriptor;
