//! Size-preserving padding for ZIP archives.
//!
//! A ZIP archive ends with an End-Of-Central-Directory record whose last
//! field is a free-form comment. Growing that comment makes the file longer
//! without disturbing anything a ZIP reader looks at. This crate finds the
//! record in a byte buffer ([`eocd`]), grows its comment by a requested
//! number of bytes ([`pad`]), and brings a buffer to an exact target length,
//! falling back to appending raw zero bytes when the comment cannot take the
//! difference ([`fit`]).
//!
//! Every function works on in-memory buffers only.

pub mod eocd;
pub mod pad;
pub mod fit;
