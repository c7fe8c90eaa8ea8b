pub mod agreement;
pub mod cst;
pub mod diagnostics;
pub mod formatter;
pub mod fragment;
pub mod grammar;
pub mod hir;
pub mod indent;
pub mod interner;
pub mod layout;
pub mod lex;
pub mod lex_facts;
pub mod lossless;
pub mod lossless_cst;
pub mod lowering;
pub mod parse;
pub mod scan;
pub mod query;
pub mod runtime;
pub mod spacing;
pub mod span;
pub mod strings;
pub mod text;
pub mod utf8_facts;

pub use cst::{CstNode, NodeId};
pub use formatter::{format_source, format_source_with_options, FormatError, FormatOptions};
pub use lex::{Lexer, Token};
pub use lossless::{LosslessLexError, LosslessToken, LosslessTokenStream};
pub use lossless_cst::{
    associate_lossless_tokens, parse_lossless_cst, LosslessCst, LosslessCstError, TokenRange,
};
pub use parse::Parser;
pub use strings::{decode_string_literal, normalize_multiline_string};
