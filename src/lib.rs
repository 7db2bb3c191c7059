//! A multi-room chat service: the session state and its broadcast rules,
//! the connection-task decisions, the wire framing, and the client-side
//! event log.

pub mod client_db;
pub mod connection;
pub mod db;
pub mod event;
pub mod frame;
pub mod ids;
pub mod laws;
pub mod layout;
pub mod model;
pub mod protocol;
pub mod ring;
pub mod session;
pub mod widgets;

pub use ids::ClientId;
pub use ids::RoomId;
pub use ids::UserId;
pub use model::ServerToClient;
pub use protocol::Channel;
pub use protocol::Client;
pub use protocol::Event;
pub use protocol::EventType;
pub use protocol::Message;
pub use protocol::Request;
pub use protocol::Response;
pub use protocol::Room;
pub use protocol::User;
pub use session::Dispatch;
