//! Binary front end of a Z-machine: the instruction decoder and the text
//! codec for packed strings of 5-bit characters.
//!
//! - [`zcode`]: decodes one instruction from the bytes of a story file.
//! - [`util`]: packs and unpacks z-characters, maps them to and from
//!   Unicode characters, and converts whole strings.
//! - [`zscii`]: the alphabet tables and the ZSCII table.
//! - [`roundtrip`]: proofs that a text is read back as it was written.
//! - [`zchar`]: the text encoder over the table of extra characters, and a
//!   hexadecimal dump of bytes.
//!
//! Every function is pure: it reads its arguments and the tables, and
//! returns a new value.

pub mod roundtrip;
pub mod util;
pub mod zchar;
pub mod zcode;
pub mod zscii;
