//! Building blocks for mail delivery agents: message normalization, header
//! access, regular-expression search and the Maildir delivery protocol.
//!
//! A message is normalized for inspection: each header field stands on one
//! line, text that is base64 or quoted-printable encoded is decoded, MIME
//! encoded-words are decoded, and all text is converted to UTF-8. For
//! delivery the message is kept as it came.

pub mod ascii;
pub mod charset;
pub mod decode;
pub mod deliver;
pub mod email;
pub mod error;
pub mod fields;
pub mod filename;
pub mod lines;
pub mod normalize;
pub mod parser;
pub mod pattern;
pub mod scan;
pub mod search;
pub mod text;

pub use crate::decode::{base64_decode_into_buf, qp_decode_into_buf};
pub use crate::deliver::{
    Action, Delivery, DeliveryDurability, DeliveryError, Event, LinkOutcome, Stage, Subdir,
};
pub use crate::email::Email;
pub use crate::error::{DecodeError, EmailError};
pub use crate::filename::EmailFilenameGenerator;
pub use crate::lines::SliceLines;
pub use crate::normalize::normalize_email;
pub use crate::search::{Captures, EmailRegex, Match, SetMatches};
