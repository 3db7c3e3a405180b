//! Line-oriented substring search: option parsing, leftmost byte-wise
//! matching with an ASCII case-insensitive fallback, line numbering, and the
//! highlighted rendering of each matching line.
pub mod command;
pub mod matching;
pub mod options;
pub mod render;
pub mod report;

pub use command::{parse_command, ArgError, Command};
pub use matching::{find_bytes, find_match, lowercase_ascii};
pub use options::CliOptions;
pub use render::{highlight_line, line_number_field, render, render_hit, segments, Segment, Style};
pub use report::{search_lines, Hit, Searcher};
