//! The logic of a mail client that works on a remote mail store through a
//! batched JSON protocol: requests and the meaning of responses, the
//! structure of message bodies, calendar invitations, the search language
//! and the rules of split inboxes.
//!
//! Nothing in this crate touches the network or the disk. A caller sends
//! what the crate builds and hands back what it received.
//!
//! * [`session`] holds what is known of the account and says, for every
//!   operation, what to send and what the answer means; [`request`] builds
//!   the method calls, [`message`] reads the records.
//! * [`mime`] finds readable text, attachments and calendar data in a body
//!   structure; [`draft`] builds the body structure of an outgoing message.
//! * [`calendar`] reads events and writes replies; [`calendar_laws`] proves
//!   that a reply can be read again.
//! * [`search`] reads queries and turns them into filters.
//! * [`splits`] matches messages against rules, with [`glob`] for
//!   addresses; [`routes`] holds the decisions of the request handlers.
//! * [`theme`] reads terminal colour schemes, [`config`] the settings file.
//! * [`json`], [`text`], [`text_laws`], [`number`], [`clock`], [`types`] and
//!   [`error`] are what the others are built from.

pub mod calendar;
pub mod calendar_laws;
pub mod clock;
pub mod config;
pub mod draft;
pub mod error;
pub mod glob;
pub mod json;
pub mod message;
pub mod mime;
pub mod number;
pub mod request;
pub mod routes;
pub mod search;
pub mod session;
pub mod splits;
pub mod text;
pub mod text_laws;
pub mod theme;
pub mod types;
