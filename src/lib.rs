//! Markdown slide decks for the terminal: splitting a document into slides at
//! thematic breaks, navigating them, and rendering one slide into terminal text.
pub mod deck;
pub mod escape;
pub mod image;
pub mod markdown;
pub mod present;
pub mod split;
pub mod style;
pub mod view;
pub mod viewer;
