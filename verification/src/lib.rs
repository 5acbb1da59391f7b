//! Verified extraction of regular-expression capture groups.
//!
//! Given a pattern, a text and a mode, the library compiles the pattern and
//! returns every non-overlapping match (or only the first) as a structured
//! record: the matched bytes, one entry per declared capture group, and the
//! byte span of the match inside the text. The regex engine itself is called
//! through the trusted boundary in `engine`; everything built on top of it is
//! verified against the model in `model`.

pub mod engine;
pub mod model;
pub mod extract;

pub use engine::Matcher;
pub use extract::ExtractError;
pub use extract::ExtractionResult;
pub use extract::MatchRecord;
pub use extract::build_match;
pub use extract::compile;
pub use extract::default_all;
pub use extract::find_all;
pub use extract::find_first;
pub use extract::group_count;
pub use extract::handle;
