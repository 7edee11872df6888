//! A sans-io NNTP (Network News Transfer Protocol) client library.
//!
//! Protocol logic (command encoding, response framing and parsing, the
//! client state machine, thread building) lives here and is verified;
//! network I/O is left to the caller.

pub mod text;
pub mod search;
pub mod encoding;
pub mod error;
pub mod command;
pub mod response;
pub mod client;
pub mod utils;
pub mod threading;
pub mod mock;
pub mod net_client;

pub use client::Client;
pub use command::{ArticleSpec, Command, ListVariant};
pub use error::{Error, Result};
pub use response::{Article, Attachment, HeaderEntry, NewsGroup, OverviewEntry, ParsedArticle, Response};
pub use utils::{normalize_subject, parse_references};
pub use mail_parser::Message;
