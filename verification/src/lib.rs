//! Line-oriented `tail`: finding where the last lines of a byte stream begin,
//! skipping leading lines, and the decisions of the command-line tool around them.

pub mod cli;
pub mod copier;
pub mod dispatch;
pub mod failure;
pub mod lines;
pub mod options;
pub mod scanner;
pub mod skipper;
pub mod tail;
pub mod window;
