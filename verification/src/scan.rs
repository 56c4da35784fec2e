//! The mathematical model of lexing: which tokens a source text scans into.
//!
//! `tokens_of` gives the full token sequence of a text, built by taking at
//! each position the one token the classification rules yield there. The
//! lemmas at the end state the structural laws of that sequence: tokens are
//! contiguous, and concatenating their texts reproduces the input exactly.

use vstd::prelude::*;

use crate::chars::spec_is_identifier_continue;
use crate::chars::spec_is_identifier_start;
use crate::chars::spec_is_integer;
use crate::chars::spec_is_whitespace;
use crate::token::spec_keyword;
use crate::token::TokenKind;
use crate::token::TokenModel;

verus! {

/// One past the end of the maximal run of characters satisfying `pred`,
/// starting at `pos`.
pub open spec fn run_end(text: Seq<char>, pos: int, pred: spec_fn(char) -> bool) -> int
    decreases text.len() - pos,
    when 0 <= pos <= text.len()
{
    if pos < text.len() && pred(text[pos]) {
        run_end(text, pos + 1, pred)
    } else {
        pos
    }
}

/// The continuation class of a white-space token.
pub open spec fn whitespace_pred() -> spec_fn(char) -> bool {
    |c: char| spec_is_whitespace(c)
}

/// The continuation class of an identifier or keyword token.
pub open spec fn identifier_pred() -> spec_fn(char) -> bool {
    |c: char| spec_is_identifier_continue(c)
}

/// The continuation class of an integer token.
pub open spec fn integer_pred() -> spec_fn(char) -> bool {
    |c: char| spec_is_integer(c)
}

/// Bounds and characterization of `run_end`: it stays within the text, every
/// character of the run satisfies `pred`, and the character after the run,
/// if any, fails it.
pub proof fn lemma_run_end(text: Seq<char>, pos: int, pred: spec_fn(char) -> bool)
    requires
        0 <= pos <= text.len(),
    ensures
        pos <= run_end(text, pos, pred) <= text.len(),
        forall|i: int| pos <= i < run_end(text, pos, pred) ==> pred(#[trigger] text[i]),
        run_end(text, pos, pred) < text.len() ==> !pred(text[run_end(text, pos, pred)]),
    decreases text.len() - pos,
{
    if pos < text.len() && pred(text[pos]) {
        lemma_run_end(text, pos + 1, pred);
    }
}

/// `run_end` is the only position with that characterization: any bound that
/// closes a run of `pred`-characters and is not itself extendable is it.
pub proof fn lemma_run_end_unique(text: Seq<char>, pos: int, end: int, pred: spec_fn(char) -> bool)
    requires
        0 <= pos <= end <= text.len(),
        forall|i: int| pos <= i < end ==> pred(#[trigger] text[i]),
        end < text.len() ==> !pred(text[end]),
    ensures
        run_end(text, pos, pred) == end,
    decreases end - pos,
{
    if pos < end {
        lemma_run_end_unique(text, pos + 1, end, pred);
    }
}

/// One past the end of the token that starts at `pos`: white space,
/// identifiers and integers extend greedily through their continuation
/// class; every other token is a single code point.
#[verifier::opaque]
pub open spec fn token_end(text: Seq<char>, pos: int) -> int
    recommends
        0 <= pos < text.len(),
{
    let c = text[pos];
    if spec_is_whitespace(c) {
        run_end(text, pos + 1, whitespace_pred())
    } else if spec_is_identifier_start(c) {
        run_end(text, pos + 1, identifier_pred())
    } else if spec_is_integer(c) {
        run_end(text, pos + 1, integer_pred())
    } else {
        pos + 1
    }
}

/// The kind of the single-character punctuation or delimiter `c`, or
/// `Unknown` for a code point outside the fixed table.
pub open spec fn spec_punctuation_kind(c: char) -> TokenKind {
    if c == ',' {
        TokenKind::Comma
    } else if c == ';' {
        TokenKind::Semicolon
    } else if c == ':' {
        TokenKind::Colon
    } else if c == '=' {
        TokenKind::Equals
    } else if c == '-' {
        TokenKind::Minus
    } else if c == '>' {
        TokenKind::GreaterThan
    } else if c == '{' {
        TokenKind::LeftBrace
    } else if c == '}' {
        TokenKind::RightBrace
    } else if c == '(' {
        TokenKind::LeftParentheses
    } else if c == ')' {
        TokenKind::RightParentheses
    } else {
        TokenKind::Unknown
    }
}

/// The kind of the token that starts at `pos`, classified by the first
/// character in priority order: white space, identifier start, digit, the
/// punctuation table, `Unknown`. An identifier whose text equals a keyword's
/// spelling is that keyword.
#[verifier::opaque]
pub open spec fn token_kind_at(text: Seq<char>, pos: int) -> TokenKind
    recommends
        0 <= pos < text.len(),
{
    let c = text[pos];
    if spec_is_whitespace(c) {
        TokenKind::Whitespace
    } else if spec_is_identifier_start(c) {
        match spec_keyword(text.subrange(pos, token_end(text, pos))) {
            Some(keyword) => TokenKind::Keyword(keyword),
            None => TokenKind::Identifier,
        }
    } else if spec_is_integer(c) {
        TokenKind::Integer
    } else {
        spec_punctuation_kind(c)
    }
}

/// The token that starts at `pos`.
pub open spec fn token_at(text: Seq<char>, pos: int) -> TokenModel
    recommends
        0 <= pos < text.len(),
{
    TokenModel {
        kind: token_kind_at(text, pos),
        start: pos,
        text: text.subrange(pos, token_end(text, pos)),
    }
}

/// A token always covers at least its first character and never runs past
/// the end of the text.
pub proof fn lemma_token_end_in_range(text: Seq<char>, pos: int)
    requires
        0 <= pos < text.len(),
    ensures
        pos < token_end(text, pos) <= text.len(),
{
    reveal(token_end);
    lemma_run_end(text, pos + 1, whitespace_pred());
    lemma_run_end(text, pos + 1, identifier_pred());
    lemma_run_end(text, pos + 1, integer_pred());
}

/// The tokens of `text` from `pos` to the end.
pub open spec fn tokens_from(text: Seq<char>, pos: int) -> Seq<TokenModel>
    decreases text.len() - pos,
    when 0 <= pos <= text.len()
    via tokens_from_decreases
{
    if pos < text.len() {
        seq![token_at(text, pos)] + tokens_from(text, token_end(text, pos))
    } else {
        Seq::empty()
    }
}

#[via_fn]
proof fn tokens_from_decreases(text: Seq<char>, pos: int) {
    if 0 <= pos < text.len() {
        lemma_token_end_in_range(text, pos);
    }
}

/// The full token sequence of `text`.
pub open spec fn tokens_of(text: Seq<char>) -> Seq<TokenModel> {
    tokens_from(text, 0)
}

/// A token of `text` as the scan produces it: the token the classification
/// rules yield at its start position, covering at least one character and
/// lying within the text.
pub open spec fn valid_token(text: Seq<char>, token: TokenModel) -> bool {
    &&& 0 <= token.start < text.len()
    &&& token.end() <= text.len()
    &&& token.text.len() >= 1
    &&& token == token_at(text, token.start)
}

/// The structure of the scanned token sequence: it is empty only for an
/// exhausted text, begins at `pos`, reaches the end of the text, consists of
/// valid tokens, and consecutive tokens meet exactly.
#[verifier::rlimit(50)]
pub proof fn lemma_tokens_from_structure(text: Seq<char>, pos: int)
    requires
        0 <= pos <= text.len(),
    ensures
        tokens_from(text, pos).len() == 0 <==> pos == text.len(),
        tokens_from(text, pos).len() <= text.len() - pos,
        tokens_from(text, pos).len() > 0 ==> tokens_from(text, pos)[0].start == pos,
        tokens_from(text, pos).len() > 0 ==> tokens_from(text, pos).last().end() == text.len(),
        forall|i: int|
            0 <= i < tokens_from(text, pos).len() ==> valid_token(
                text,
                #[trigger] tokens_from(text, pos)[i],
            ),
        forall|i: int|
            #![trigger tokens_from(text, pos)[i], tokens_from(text, pos)[i + 1]]
            0 <= i < tokens_from(text, pos).len() - 1 ==> tokens_from(text, pos)[i].end()
                == tokens_from(text, pos)[i + 1].start,
    decreases text.len() - pos,
{
    if pos < text.len() {
        lemma_token_end_in_range(text, pos);
        let end = token_end(text, pos);
        lemma_tokens_from_structure(text, end);
        let head = token_at(text, pos);
        assert(head.end() == end);
        let rest = tokens_from(text, end);
        assert(tokens_from(text, pos) == seq![head] + rest);
        assert(tokens_from(text, pos)[0] == head);
        assert(forall|i: int|
            1 <= i < tokens_from(text, pos).len() ==> tokens_from(text, pos)[i] == rest[i - 1]);
        assert(valid_token(text, head));
        if rest.len() > 0 {
            assert(tokens_from(text, pos).last() == rest.last());
        }
        assert forall|i: int|
            0 <= i < tokens_from(text, pos).len() - 1 implies tokens_from(text, pos)[i].end()
            == tokens_from(text, pos)[i + 1].start by {
            assert(tokens_from(text, pos)[i + 1] == rest[i]);
            if i == 0 {
                assert(rest[0].start == end);
            } else {
                assert(tokens_from(text, pos)[i] == rest[i - 1]);
                assert(rest[i - 1].end() == rest[(i - 1) + 1].start);
                assert(rest[(i - 1) + 1] == rest[i]);
            }
        }
    }
}

/// The concatenation of the texts of `tokens`, in order.
pub open spec fn concat_text(tokens: Seq<TokenModel>) -> Seq<char>
    decreases tokens.len(),
{
    if tokens.len() == 0 {
        Seq::empty()
    } else {
        tokens[0].text + concat_text(tokens.drop_first())
    }
}

proof fn lemma_concat_from(text: Seq<char>, pos: int)
    requires
        0 <= pos <= text.len(),
    ensures
        concat_text(tokens_from(text, pos)) == text.subrange(pos, text.len() as int),
    decreases text.len() - pos,
{
    if pos < text.len() {
        lemma_token_end_in_range(text, pos);
        let end = token_end(text, pos);
        lemma_concat_from(text, end);
        let head = token_at(text, pos);
        let rest = tokens_from(text, end);
        assert((seq![head] + rest).drop_first() =~= rest);
        assert(head.text + text.subrange(end, text.len() as int) =~= text.subrange(
            pos,
            text.len() as int,
        ));
    } else {
        assert(concat_text(tokens_from(text, pos)) =~= text.subrange(pos, text.len() as int));
    }
}

/// Lossless round trip: concatenating the text of every token of `text`, in
/// order, reproduces `text` exactly.
pub proof fn lemma_round_trip(text: Seq<char>)
    ensures
        concat_text(tokens_of(text)) == text,
{
    lemma_concat_from(text, 0);
    assert(text.subrange(0, text.len() as int) =~= text);
}

/// Contiguity: each token of `text` ends exactly where the next one starts.
pub proof fn lemma_contiguous(text: Seq<char>)
    ensures
        forall|i: int|
            #![trigger tokens_of(text)[i], tokens_of(text)[i + 1]]
            0 <= i < tokens_of(text).len() - 1 ==> tokens_of(text)[i].end()
                == tokens_of(text)[i + 1].start,
{
    lemma_tokens_from_structure(text, 0);
}

} // verus!
