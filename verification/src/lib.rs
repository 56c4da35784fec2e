//! A small lexical-analysis library: a character cursor over an immutable
//! source text, a lexeme/token data model, and a lookahead-buffered lexer
//! that can fuse consecutive primitive tokens into compound tokens on demand.
//!
//! All offsets and lengths are counted in Unicode code points of the source
//! text, applied uniformly to lexemes, tokens, and all offset arithmetic.

mod chars;
mod lexeme;
mod lexer;
mod scan;
mod token;

pub use chars::is_identifier_continue;
pub use chars::is_identifier_start;
pub use chars::is_integer;
pub use chars::is_whitespace;
pub use chars::spec_is_identifier_continue;
pub use chars::spec_is_identifier_start;
pub use chars::spec_is_integer;
pub use chars::spec_is_whitespace;

pub use lexeme::Cursor;
pub use lexeme::CursorModel;
pub use lexeme::Lexeme;

pub use token::combinable;
pub use token::lemma_keyword_spelling_round_trip;
pub use token::spec_combined;
pub use token::spec_decompose;
pub use token::spec_keyword;
pub use token::spec_keyword_spelling;
pub use token::spec_token_spelling;
pub use token::KeywordKind;
pub use token::Token;
pub use token::TokenKind;
pub use token::TokenModel;

pub use scan::concat_text;
pub use scan::identifier_pred;
pub use scan::integer_pred;
pub use scan::lemma_contiguous;
pub use scan::lemma_round_trip;
pub use scan::lemma_run_end;
pub use scan::lemma_run_end_unique;
pub use scan::lemma_token_end_in_range;
pub use scan::lemma_tokens_from_structure;
pub use scan::run_end;
pub use scan::spec_punctuation_kind;
pub use scan::token_at;
pub use scan::token_end;
pub use scan::token_kind_at;
pub use scan::tokens_from;
pub use scan::tokens_of;
pub use scan::valid_token;
pub use scan::whitespace_pred;

pub use lexer::lemma_peek_stability;
pub use lexer::spec_combine_at;
pub use lexer::Lexer;
