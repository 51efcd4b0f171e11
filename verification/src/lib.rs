//! Verified core of the dvipdfmx font-file helpers: stream sniffing for font
//! formats, file-name rules, temporary-file settings, and the Type 1 to CFF
//! encoding, charset and layout computations.

pub mod bytes;
pub mod charstrings;
pub mod encoding;
pub mod fontfile;
pub mod names;
pub mod settings;
pub mod type1;
pub mod sniff;

