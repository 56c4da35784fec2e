//! The lexer: a demand-driven producer of tokens over a source text, with
//! unbounded lookahead and explicit, all-or-nothing combination of
//! consecutive primitive tokens into compound tokens.
//!
//! The lexer never combines tokens on its own: whether `-` followed by `>`
//! means `RightArrow` is a grammar decision that belongs to the caller, so
//! plain `next` and `peek` only ever yield primitive tokens.

use vstd::prelude::*;

use crate::chars::is_identifier_continue;
use crate::chars::is_identifier_start;
use crate::chars::is_integer;
use crate::chars::is_whitespace;
use crate::lexeme::Cursor;
use crate::scan::identifier_pred;
use crate::scan::integer_pred;
use crate::scan::lemma_run_end_unique;
use crate::scan::lemma_token_end_in_range;
use crate::scan::lemma_tokens_from_structure;
use crate::scan::run_end;
use crate::scan::token_at;
use crate::scan::token_end;
use crate::scan::tokens_from;
use crate::scan::tokens_of;
use crate::scan::whitespace_pred;
use crate::token::combinable;
use crate::token::spec_combined;
use crate::token::spec_decompose;
use crate::token::KeywordKind;
use crate::token::Token;
use crate::token::TokenKind;
use crate::token::TokenModel;

verus! {

/// The token that combining stream tokens in place yields: the next
/// `spec_decompose(kind).len()` tokens of `stream`, starting `offset` tokens
/// ahead, fused into one token of kind `kind` — or nothing, if too few
/// tokens remain or they do not make up that kind.
pub open spec fn spec_combine_at(
    text: Seq<char>,
    stream: Seq<TokenModel>,
    kind: TokenKind,
    offset: int,
) -> Option<TokenModel> {
    let arity = spec_decompose(kind).len() as int;
    if offset + arity <= stream.len() && combinable(kind, stream.subrange(offset, offset + arity)) {
        Some(spec_combined(kind, text, stream.subrange(offset, offset + arity)))
    } else {
        None
    }
}

/// Converts source text into a stream of tokens, on demand.
///
/// Already-produced but unconsumed tokens wait in a lookahead queue, so a
/// caller may peek arbitrarily far ahead without changing what is later
/// consumed.
pub struct Lexer<'text> {
    cursor: Cursor<'text>,
    queue: Vec<Token<'text>>,
}

impl<'text> Lexer<'text> {
    /// The source text being lexed.
    pub closed spec fn text(self) -> Seq<char> {
        self.cursor@.text
    }

    /// The scan position: every character before it has already been
    /// materialized into a token.
    pub closed spec fn scan_position(self) -> int {
        self.cursor@.start
    }

    /// The lookahead queue's tokens, abstractly.
    pub closed spec fn queued(self) -> Seq<TokenModel> {
        self.queue@.map_values(|token: Token<'text>| token@)
    }

    /// Where the stream's next unconsumed token starts.
    pub closed spec fn stream_start(self) -> int {
        if self.queue@.len() > 0 {
            self.queue@[0]@.start
        } else {
            self.scan_position()
        }
    }

    /// The tokens not yet consumed: the queued ones, then all that the scan
    /// has yet to materialize.
    pub closed spec fn stream(self) -> Seq<TokenModel> {
        self.queued() + tokens_from(self.text(), self.scan_position())
    }

    /// Well-formed: the cursor holds no half-read lexeme, and the queued
    /// tokens are exactly the tokens of the text from the stream's start up
    /// to the scan position.
    pub closed spec fn wf(self) -> bool {
        &&& self.cursor.wf()
        &&& self.cursor@.length == 0
        &&& 0 <= self.stream_start() <= self.text().len()
        &&& tokens_from(self.text(), self.stream_start()) == self.stream()
    }

    /// A fresh lexer over `text`, with nothing yet consumed: its stream is
    /// the full token sequence of `text`.
    pub fn new(text: &'text str) -> (lexer: Self)
        ensures
            lexer.wf(),
            lexer.text() == text@,
            lexer.stream() == tokens_of(text@),
    {
        let lexer = Self { cursor: Cursor::new(text), queue: Vec::new() };
        proof {
            assert(lexer.queued() =~= Seq::<TokenModel>::empty());
            assert(lexer.stream() =~= tokens_from(text@, 0));
        }
        lexer
    }

    /// Consumes and returns the next token; nothing, idempotently, once the
    /// input is exhausted.
    #[verifier::rlimit(80)]
    pub fn next(&mut self) -> (token: Option<Token<'text>>)
        requires
            old(self).wf(),
        ensures
            final(self).wf(),
            final(self).text() == old(self).text(),
            token is Some <==> old(self).stream().len() > 0,
            old(self).stream().len() > 0 ==> {
                &&& token->0@ == old(self).stream()[0]
                &&& final(self).stream() == old(self).stream().drop_first()
            },
            old(self).stream().len() == 0 ==> final(self).stream() == old(self).stream(),
    {
        proof {
            lemma_tokens_from_structure(old(self).text(), old(self).stream_start());
        }
        if self.queue.len() > 0 {
            let token = self.queue.remove(0);
            proof {
                self.lemma_after_pop(*old(self), token);
            }
            Some(token)
        } else {
            let token = self.create();
            proof {
                if old(self).scan_position() < old(self).text().len() {
                    lemma_token_end_in_range(old(self).text(), old(self).scan_position());
                    assert(self.queued() =~= Seq::<TokenModel>::empty());
                    assert(self.stream() =~= old(self).stream().drop_first());
                } else {
                    assert(self.stream() =~= old(self).stream());
                }
            }
            token
        }
    }

    /// Restores the stream equation after the queue's head was popped.
    #[verifier::rlimit(100)]
    proof fn lemma_after_pop(self, prev: Self, token: Token<'text>)
        requires
            prev.wf(),
            prev.queue@.len() > 0,
            token == prev.queue@[0],
            self.cursor == prev.cursor,
            self.queue@ == prev.queue@.remove(0),
        ensures
            self.wf(),
            token@ == prev.stream()[0],
            self.stream() == prev.stream().drop_first(),
    {
        let text = prev.text();
        let qs = prev.stream_start();
        lemma_tokens_from_structure(text, qs);
        assert(qs < text.len());
        lemma_token_end_in_range(text, qs);
        let end = token_end(text, qs);
        let head = token_at(text, qs);
        assert(prev.stream() == tokens_from(text, qs));
        assert(tokens_from(text, qs) == seq![head] + tokens_from(text, end));
        assert(prev.queued()[0] == prev.stream()[0]);
        assert(token@ == head);
        assert(head.end() == end);
        assert(self.queued() =~= prev.queued().drop_first());
        let tail_models = prev.queued().drop_first() + tokens_from(text, prev.scan_position());
        assert(tokens_from(text, end).len() == tail_models.len());
        assert forall|j: int| 0 <= j < tokens_from(text, end).len() implies tokens_from(
            text,
            end,
        )[j] == tail_models[j] by {
            assert((seq![head] + tokens_from(text, end))[j + 1] == tokens_from(text, end)[j]);
            assert((prev.queued() + tokens_from(text, prev.scan_position()))[j + 1]
                == tokens_from(text, qs)[j + 1]);
        }
        assert(tokens_from(text, end) =~= tail_models);
        assert(self.stream() == tokens_from(text, end));
        assert(prev.stream().drop_first() =~= tokens_from(text, end));
        if self.queue@.len() > 0 {
            assert(self.queued()[0] == prev.queued()[1]);
            assert(prev.queued()[1] == tokens_from(text, qs)[1]);
            lemma_tokens_from_structure(text, end);
            assert(self.stream_start() == end);
        } else {
            assert(prev.queued().len() == 1);
            assert(self.stream_start() == prev.scan_position());
            assert(tokens_from(text, prev.scan_position()) == tokens_from(text, end));
        }
    }

    /// Returns the next token without consuming it.
    pub fn peek(&mut self) -> (token: Option<Token<'text>>)
        requires
            old(self).wf(),
        ensures
            final(self).wf(),
            final(self).text() == old(self).text(),
            final(self).stream() == old(self).stream(),
            token is Some <==> old(self).stream().len() > 0,
            old(self).stream().len() > 0 ==> token->0@ == old(self).stream()[0],
    {
        self.peek_at_offset(0)
    }

    /// Returns the token `offset` places ahead without consuming anything,
    /// materializing tokens into the lookahead queue as needed. Safe to call
    /// repeatedly and past the end of the input.
    pub fn peek_at_offset(&mut self, offset: usize) -> (token: Option<Token<'text>>)
        requires
            old(self).wf(),
        ensures
            final(self).wf(),
            final(self).text() == old(self).text(),
            final(self).stream() == old(self).stream(),
            token is Some <==> offset < old(self).stream().len(),
            offset < old(self).stream().len() ==> token->0@ == old(self).stream()[offset as int],
    {
        while self.queue.len() <= offset
            invariant
                self.wf(),
                self.text() == old(self).text(),
                self.stream() == old(self).stream(),
            decreases offset + 1 - self.queue.len(),
        {
            let ghost prev = *self;
            let created = match self.create() {
                Some(created) => created,
                None => {
                    proof {
                        assert(tokens_from(self.text(), self.scan_position())
                            =~= Seq::<TokenModel>::empty());
                        assert(self.stream() =~= self.queued());
                        assert(self.stream().len() == self.queue@.len());
                    }
                    return None;
                },
            };
            self.queue.push(created);
            proof {
                lemma_token_end_in_range(prev.text(), prev.scan_position());
                assert(self.queued() =~= prev.queued() + seq![created@]);
                assert(tokens_from(prev.text(), prev.scan_position()) == seq![created@]
                    + tokens_from(self.text(), self.scan_position()));
                assert(self.stream() =~= prev.stream());
                assert(self.stream_start() == prev.stream_start());
                assert(tokens_from(self.text(), self.stream_start()) =~= self.stream());
            }
        }
        proof {
            assert(self.stream()[offset as int] == self.queued()[offset as int]);
        }
        Some(self.queue[offset])
    }

    /// Checks whether the tokens just ahead can be combined into one token
    /// of the expected kind. If so, consumes exactly those tokens and
    /// returns the combined token; otherwise consumes nothing.
    pub fn next_kind(&mut self, kind: TokenKind) -> (token: Option<Token<'text>>)
        requires
            old(self).wf(),
        ensures
            final(self).wf(),
            final(self).text() == old(self).text(),
            token is Some <==> spec_combine_at(old(self).text(), old(self).stream(), kind, 0)
                is Some,
            spec_combine_at(old(self).text(), old(self).stream(), kind, 0) is Some ==> {
                &&& token->0@ == spec_combine_at(old(self).text(), old(self).stream(), kind, 0)->0
                &&& final(self).stream() == old(self).stream().skip(
                    spec_decompose(kind).len() as int,
                )
            },
            spec_combine_at(old(self).text(), old(self).stream(), kind, 0) is None ==> final(
                self
            ).stream() == old(self).stream(),
    {
        let token = match self.peek_kind(kind) {
            Some(token) => token,
            None => { return None; },
        };
        let parts = kind.decompose();
        let arity = parts.len();
        let mut consumed: usize = 0;
        while consumed < arity
            invariant
                self.wf(),
                self.text() == old(self).text(),
                consumed <= arity,
                arity == spec_decompose(kind).len(),
                arity <= old(self).stream().len(),
                self.stream() == old(self).stream().skip(consumed as int),
            decreases arity - consumed,
        {
            let ghost before = self.stream();
            let _ = self.next();
            proof {
                assert(before.drop_first() =~= old(self).stream().skip(consumed + 1));
            }
            consumed = consumed + 1;
        }
        Some(token)
    }

    /// Checks whether the tokens just ahead can be combined into one token
    /// of the expected kind. If so, returns the combined token without
    /// consuming anything.
    pub fn peek_kind(&mut self, kind: TokenKind) -> (token: Option<Token<'text>>)
        requires
            old(self).wf(),
        ensures
            final(self).wf(),
            final(self).text() == old(self).text(),
            final(self).stream() == old(self).stream(),
            token is Some <==> spec_combine_at(old(self).text(), old(self).stream(), kind, 0)
                is Some,
            spec_combine_at(old(self).text(), old(self).stream(), kind, 0) is Some ==> token->0@
                == spec_combine_at(old(self).text(), old(self).stream(), kind, 0)->0,
    {
        self.peek_kind_at_offset(kind, 0)
    }

    /// Checks whether the tokens starting `offset` tokens ahead can be
    /// combined into one token of the expected kind. If so, returns the
    /// combined token without consuming anything.
    #[verifier::rlimit(80)]
    pub fn peek_kind_at_offset(&mut self, kind: TokenKind, offset: usize) -> (token: Option<
        Token<'text>,
    >)
        requires
            old(self).wf(),
        ensures
            final(self).wf(),
            final(self).text() == old(self).text(),
            final(self).stream() == old(self).stream(),
            token is Some <==> spec_combine_at(
                old(self).text(),
                old(self).stream(),
                kind,
                offset as int,
            ) is Some,
            spec_combine_at(old(self).text(), old(self).stream(), kind, offset as int)
                is Some ==> token->0@ == spec_combine_at(
                old(self).text(),
                old(self).stream(),
                kind,
                offset as int,
            )->0,
    {
        proof {
            lemma_tokens_from_structure(old(self).text(), old(self).stream_start());
        }
        let expected = kind.decompose();
        let arity = expected.len();
        let mut parts: Vec<Token<'text>> = Vec::new();
        let mut gathered: usize = 0;
        while gathered < arity
            invariant
                self.wf(),
                self.text() == old(self).text(),
                self.stream() == old(self).stream(),
                gathered <= arity,
                arity == spec_decompose(kind).len(),
                parts@.len() == gathered,
                gathered > 0 ==> offset + gathered <= old(self).stream().len(),
                forall|j: int|
                    0 <= j < gathered ==> parts@[j]@ == old(self).stream()[offset + j],
            decreases arity - gathered,
        {
            proof {
                lemma_tokens_from_structure(self.text(), self.stream_start());
                assert(old(self).stream().len() <= self.text().len());
            }
            let part = match self.peek_at_offset(offset + gathered) {
                Some(part) => part,
                None => { return None; },
            };
            parts.push(part);
            gathered = gathered + 1;
        }
        let ghost models = parts@.map_values(|part: Token<'text>| part@);
        proof {
            assert(models =~= old(self).stream().subrange(
                offset as int,
                offset + arity,
            ));
            assert(forall|j: int|
                0 <= j < models.len() ==> (#[trigger] models[j]).end() <= self.text().len()) by {
                lemma_tokens_from_structure(self.text(), self.stream_start());
            };
        }
        let source = self.cursor.source();
        let token = kind.combine(source, parts.as_slice());
        token
    }

    /// Synthesizes the next primitive token straight from the cursor,
    /// leaving the lookahead queue alone.
    fn create(&mut self) -> (token: Option<Token<'text>>)
        requires
            old(self).cursor.wf(),
            old(self).cursor@.length == 0,
        ensures
            final(self).cursor.wf(),
            final(self).cursor@.length == 0,
            final(self).cursor@.text == old(self).cursor@.text,
            final(self).queue == old(self).queue,
            old(self).scan_position() < old(self).text().len() ==> {
                &&& token is Some
                &&& token->0@ == token_at(old(self).text(), old(self).scan_position())
                &&& final(self).scan_position() == token_end(
                    old(self).text(),
                    old(self).scan_position(),
                )
            },
            old(self).scan_position() >= old(self).text().len() ==> {
                &&& token is None
                &&& final(self).cursor@ == old(self).cursor@
            },
    {
        let ghost text = old(self).text();
        let ghost start = old(self).scan_position();
        let next = match self.cursor.consume() {
            Some(next) => next,
            None => {
                proof {
                    assert(self.cursor@ == old(self).cursor@);
                }
                return None;
            },
        };
        let kind = if is_whitespace(next) {
            self.whitespace()
        } else if is_identifier_start(next) {
            self.identifier()
        } else if is_integer(next) {
            self.integer()
        } else if next == ',' {
            TokenKind::Comma
        } else if next == ';' {
            TokenKind::Semicolon
        } else if next == ':' {
            TokenKind::Colon
        } else if next == '=' {
            TokenKind::Equals
        } else if next == '-' {
            TokenKind::Minus
        } else if next == '>' {
            TokenKind::GreaterThan
        } else if next == '{' {
            TokenKind::LeftBrace
        } else if next == '}' {
            TokenKind::RightBrace
        } else if next == '(' {
            TokenKind::LeftParentheses
        } else if next == ')' {
            TokenKind::RightParentheses
        } else {
            TokenKind::Unknown
        };
        proof {
            reveal(crate::scan::token_kind_at);
            reveal(crate::scan::token_end);
            assert(kind == crate::scan::token_kind_at(text, start));
            assert(self.cursor@.position() == token_end(text, start));
        }
        let lexeme = self.cursor.close();
        Some(Token::new(kind, lexeme.start_offset, lexeme.length, lexeme.text))
    }

    /// Extends the open lexeme through the white-space run it begins.
    fn whitespace(&mut self) -> (kind: TokenKind)
        requires
            old(self).cursor.wf(),
        ensures
            final(self).cursor.wf(),
            final(self).cursor@.text == old(self).cursor@.text,
            final(self).cursor@.start == old(self).cursor@.start,
            final(self).queue == old(self).queue,
            final(self).cursor@.position() == run_end(
                old(self).cursor@.text,
                old(self).cursor@.position(),
                whitespace_pred(),
            ),
            kind == TokenKind::Whitespace,
    {
        self.cursor.consume_while(is_whitespace);
        proof {
            lemma_run_end_unique(
                self.cursor@.text,
                old(self).cursor@.position(),
                self.cursor@.position(),
                whitespace_pred(),
            );
        }
        TokenKind::Whitespace
    }

    /// Extends the open lexeme through the identifier it begins, then looks
    /// its text up in the keyword table.
    fn identifier(&mut self) -> (kind: TokenKind)
        requires
            old(self).cursor.wf(),
        ensures
            final(self).cursor.wf(),
            final(self).cursor@.text == old(self).cursor@.text,
            final(self).cursor@.start == old(self).cursor@.start,
            final(self).queue == old(self).queue,
            final(self).cursor@.position() == run_end(
                old(self).cursor@.text,
                old(self).cursor@.position(),
                identifier_pred(),
            ),
            kind == (match crate::token::spec_keyword(
                old(self).cursor@.text.subrange(
                    old(self).cursor@.start,
                    final(self).cursor@.position(),
                ),
            ) {
                Some(keyword) => TokenKind::Keyword(keyword),
                None => TokenKind::Identifier,
            }),
    {
        self.cursor.consume_while(is_identifier_continue);
        proof {
            lemma_run_end_unique(
                self.cursor@.text,
                old(self).cursor@.position(),
                self.cursor@.position(),
                identifier_pred(),
            );
        }
        let lexeme = self.cursor.current();
        match KeywordKind::from_text(lexeme.text) {
            Some(keyword) => TokenKind::Keyword(keyword),
            None => TokenKind::Identifier,
        }
    }

    /// Extends the open lexeme through the integer literal it begins.
    fn integer(&mut self) -> (kind: TokenKind)
        requires
            old(self).cursor.wf(),
        ensures
            final(self).cursor.wf(),
            final(self).cursor@.text == old(self).cursor@.text,
            final(self).cursor@.start == old(self).cursor@.start,
            final(self).queue == old(self).queue,
            final(self).cursor@.position() == run_end(
                old(self).cursor@.text,
                old(self).cursor@.position(),
                integer_pred(),
            ),
            kind == TokenKind::Integer,
    {
        self.cursor.consume_while(is_integer);
        proof {
            lemma_run_end_unique(
                self.cursor@.text,
                old(self).cursor@.position(),
                self.cursor@.position(),
                integer_pred(),
            );
        }
        TokenKind::Integer
    }
}

/// Peek stability: by `peek_at_offset`'s contract a peek leaves the stream
/// unchanged, and by `next`'s contract each call removes exactly the
/// stream's head; so the `n + 1` tokens that `next` yields after a peek at
/// offset `n` are the stream's first `n + 1` tokens — the same tokens, in
/// the same order, as draining without peeking first — and the last of them
/// is the very token the peek reported.
pub proof fn lemma_peek_stability(stream: Seq<TokenModel>, n: int)
    requires
        0 <= n < stream.len(),
    ensures
        stream.take(n + 1).len() == n + 1,
        forall|i: int| 0 <= i <= n ==> stream.take(n + 1)[i] == stream[i],
        stream.take(n + 1).last() == stream[n],
{
}

} // verus!
