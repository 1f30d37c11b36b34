//! Front end of a small interpreted language.
//!
//! Source text goes through two stages. The [`lexer`] scans the text, one
//! character at a time, into a sequence of [`token::Token`]s that always ends
//! with an end-of-input token. The [`parser`] then walks the tokens by
//! recursive descent and builds the syntax tree, a sequence of
//! [`nodes::Node`]s.
//!
//! Every function states what it computes over a mathematical model of its
//! arguments: text is a `Seq<char>`, a token is a [`token::TokenView`], a
//! syntax tree is a sequence of [`nodes::NodeView`]s.

pub mod state;
pub mod error;
pub mod token;
pub mod classes;
pub mod lexer;
pub mod nodes;
pub mod parser;
pub mod helper_functions;
pub mod theorems;
