//! Controller, host and voice logic of a Mumble server whose rooms are "Spaces".

pub mod actor;
pub mod actor_laws;
pub mod actor_model;
pub mod actor_promises;
pub mod arguments;
pub mod campaign;
pub mod channel;
pub mod clock;
pub mod config;
pub mod control;
pub mod core_wire;
pub mod counter;
pub mod driver_wire;
pub mod entropy;
pub mod framing;
pub mod host;
pub mod identity;
pub mod ledger;
pub mod messages;
pub mod metrics;
pub mod ocb2;
pub mod ordered;
pub mod ownership;
pub mod profile;
pub mod protobuf;
pub mod queue;
pub mod reliable;
pub mod router;
pub mod runtime;
pub mod server;
pub mod service;
pub mod session;
pub mod snapshot;
pub mod space_logic;
pub mod spaces;
pub mod spaces_wire;
pub mod text;
pub mod text_set;
pub mod voice;
pub mod watched;
