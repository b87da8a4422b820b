//! A task list kept in a flat text file: the tasks in memory, the file format they are saved
//! in, and the commands typed at the console that act on them.
pub mod codec;
pub mod command;
pub mod store;
pub mod text;

pub use codec::{decode_text, encode_text, Task};
pub use command::{parse_command, split_words, Command, IndexArg};
pub use store::{zero_based, StoreError, TodoList};
