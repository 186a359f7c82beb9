//! Core of a terminal hypertext client: a markup-to-text transducer,
//! a viewport pager, a single-line editor, and a linear page history.

pub mod editor;
pub mod history;
pub mod page;
pub mod pager;
pub mod style;
pub mod text;
pub mod url;
