//! ASCII-only character and string types.
//!
//! Every value of the types in this crate is guaranteed to lie in the ASCII
//! range `0..=127`; the guarantee is established by a single validation pass
//! at the boundary and maintained by every operation afterwards.

pub mod ascii;
pub mod ascii_char;
pub mod ascii_str;
pub mod ascii_string;
pub mod ffi;
pub mod free_functions;
pub mod iter;

pub use ascii::Ascii;
pub use ascii_char::{AsciiChar, ToAsciiChar, ToAsciiCharError};
pub use ascii_str::{AsAsciiStr, AsAsciiStrError, AsciiStr};
pub use ascii_string::{AsciiString, IntoAsciiString};
pub use free_functions::{caret_decode, caret_encode};
pub use iter::{Chars, CharsRef, Lines, Split};
