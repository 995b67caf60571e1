//! A UTF-8 string representation meant to be shared with a foreign component
//! that reads and writes a fixed byte buffer in place, bypassing the owning
//! side's API. The logical length of the text is never cached: it is the
//! offset of the first terminator (zero) byte, recomputed from the buffer's
//! contents whenever the owning side reads or extends the text.

pub mod encoding;
pub mod string;
pub mod term;
pub mod view;

pub use string::ImString;
pub use view::ImStr;

pub use term::find_nul;
pub use term::first_nul;
pub use term::has_nul;
pub use term::text_of;
