//! A binary codec core: values are decoded from and encoded into byte
//! streams under a caller-chosen byte order, with per-type arguments.
//!
//! The stream interface (`io`) models a stream as the bytes it holds and a
//! cursor; every codec states, over that model, which bytes it takes or
//! writes and what they mean.
pub mod endian;
pub mod io;
pub mod error;
pub mod private;
pub mod read;
pub mod write;
pub mod strings;

pub use endian::{native, Endian};
pub use error::{Backtrace, BacktraceFrame, BinResult, ContextExt, CustomError, Error};
pub use private::{MissingArgsDirective, Required};
pub use read::{BinRead, BinReaderExt, ReadMany};
pub use strings::{display_utf16, display_utf8, NullString, NullWideString};
pub use write::{BinWrite, BinWriterExt, WriteMany};
