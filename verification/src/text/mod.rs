//! Text primitives. A text is modelled by its sequence of characters.
pub mod chars;
pub mod compose;
pub mod number;
pub mod order;
pub mod path;
pub mod placeholder;
pub mod search;
pub mod split;
pub mod trim;
pub mod word;
