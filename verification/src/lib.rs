//! A converter from a line-oriented visual-novel script notation to wiki
//! markup.  Each input line is either free-form narration or a bracketed
//! command (a tag name with key/value arguments and optional trailing text).
//! The library tokenizes each line, types it into a `Line` command, and runs
//! a rendering state machine over the command sequence to produce a
//! transcript document with a header listing characters and backgrounds.

pub mod args;
pub mod command;
pub mod laws;
pub mod num;
pub mod patt;
pub mod render;
pub mod roundtrip;
pub mod story;
pub mod text;
pub mod tokenize;

pub use command::Line;
pub use command::StoryError;
pub use command::parse_line;
pub use story::story_to_wiki;
