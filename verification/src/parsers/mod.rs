//! The request protocol.
//!
//! A request is a text of lines. A line ends at CR LF or at the end of the
//! text; a CR or LF alone is a character like any other. The first line is
//! the header: `GET` or `NOTIFY`, one space, and a tag, which is
//! `SHIORI/3.0` or, for a legacy request, an id, a slash, a major number, a
//! dot and a minor number. The lines behind the header, up to the first
//! empty line or the end of the text, are key-value lines: a key, a colon
//! and a space, and a value. What follows the empty line is not looked at.
//!
//! `scan` and `number` read characters, `shiori` holds the grammar, `req`
//! the decoded request and the decoder, `wire` the canonical text of a
//! request, and `law` the proof that the decoder reads that text back.

pub mod law;
pub mod number;
pub mod req;
pub mod scan;
pub mod shiori;
pub mod wire;
