//! Messages of the protocol, as values. Server messages are queued to clients as they are
//! and turned into JSON at the transport; client messages arrive here already parsed.

use vstd::prelude::*;

verus! {

/// The description of one channel in an `advertise` message.
#[derive(Clone, Debug, PartialEq, Eq)]
pub struct ServerChannelMessage {
    pub id: usize,
    pub topic: String,
    pub encoding: String,
    pub schema_name: String,
    pub schema: String,
    pub schema_encoding: Option<String>,
}

impl ServerChannelMessage {
    /// An equal copy.
    pub fn duplicate(&self) -> (r: Self)
        ensures
            r == *self,
    {
        let schema_encoding = match &self.schema_encoding {
            Some(e) => Some(e.clone()),
            None => None,
        };
        ServerChannelMessage {
            id: self.id,
            topic: self.topic.clone(),
            encoding: self.encoding.clone(),
            schema_name: self.schema_name.clone(),
            schema: self.schema.clone(),
            schema_encoding,
        }
    }
}

/// One named parameter value, with an optional type tag.
#[derive(Clone, Debug, PartialEq, Eq)]
pub struct ParameterValue {
    pub name: String,
    pub value: String,
    pub field_type: Option<String>,
}

impl ParameterValue {
    /// A value without a type tag.
    pub fn new(name: &str, value: &str) -> (r: Self)
        ensures
            r.name@ == name@,
            r.value@ == value@,
            r.field_type is None,
    {
        ParameterValue { name: name.to_owned(), value: value.to_owned(), field_type: None }
    }

    /// A value with the type tag `field_type`.
    pub fn with_type(name: &str, value: &str, field_type: &str) -> (r: Self)
        ensures
            r.name@ == name@,
            r.value@ == value@,
            r.field_type matches Some(t) && t@ == field_type@,
    {
        ParameterValue {
            name: name.to_owned(),
            value: value.to_owned(),
            field_type: Some(field_type.to_owned()),
        }
    }
}

/// A control message from the server to a client.
#[derive(Clone, Debug, PartialEq, Eq)]
pub enum ServerMessage {
    ServerInfo {
        name: String,
        capabilities: Vec<String>,
        supported_encodings: Vec<String>,
        metadata: Vec<(String, String)>,
        session_id: String,
    },
    Advertise { channels: Vec<ServerChannelMessage> },
    Unadvertise { channel_ids: Vec<usize> },
    ParameterValues { parameters: Vec<ParameterValue>, id: Option<String> },
}

/// One entry of a `subscribe` message: the client's own id for the channel `channel_id`.
#[derive(Clone, Copy, Debug, PartialEq, Eq, Structural)]
pub struct ClientSubscriptionMessage {
    pub id: u32,
    pub channel_id: usize,
}

/// A control message from a client to the server.
#[derive(Clone, Debug, PartialEq, Eq)]
pub enum ClientMessage {
    Subscribe { subscriptions: Vec<ClientSubscriptionMessage> },
    Unsubscribe { subscription_ids: Vec<u32> },
    GetParameters { parameter_names: Vec<String>, id: String },
    SetParameters { parameters: Vec<(String, String)>, id: String },
}

/// A frame queued for one client: binary data or a control message.
#[derive(Clone, Debug, PartialEq, Eq)]
pub enum OutboundFrame {
    Data(Vec<u8>),
    Control(ServerMessage),
}

/// A frame read from a client, as the transport classified it.
#[derive(Clone, Debug, PartialEq, Eq)]
pub enum IncomingFrame {
    /// A text frame, parsed as a client control message.
    Text(ClientMessage),
    Binary(Vec<u8>),
    Close,
    /// Anything else (ping, pong).
    Other,
}

} // verus!
