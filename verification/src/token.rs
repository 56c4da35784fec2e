//! Tokens: classified, immutable spans of source text.
//!
//! A token kind is either primitive — recognized in a single scan — or
//! compound, defined as an exact ordered sequence of primitive kinds that
//! `combine` can fuse into one token.

use vstd::prelude::*;

verus! {

/// The keywords of the language, each with one literal spelling.
#[derive(Debug, Clone, Copy, PartialEq, Eq, Structural)]
pub enum KeywordKind {
    /// `module`
    Module,
    /// `class`
    Class,
    /// `let`
    Field,
    /// `function`
    Function,
    /// `constant`
    Constant,
    /// `mutable`
    Mutable,
}

/// The keyword whose spelling is `s`, if any.
pub open spec fn spec_keyword(s: Seq<char>) -> Option<KeywordKind> {
    if s == "module"@ {
        Some(KeywordKind::Module)
    } else if s == "class"@ {
        Some(KeywordKind::Class)
    } else if s == "let"@ {
        Some(KeywordKind::Field)
    } else if s == "function"@ {
        Some(KeywordKind::Function)
    } else if s == "constant"@ {
        Some(KeywordKind::Constant)
    } else if s == "mutable"@ {
        Some(KeywordKind::Mutable)
    } else {
        None
    }
}

/// The literal spelling of keyword `k`.
pub open spec fn spec_keyword_spelling(k: KeywordKind) -> Seq<char> {
    match k {
        KeywordKind::Module => "module"@,
        KeywordKind::Class => "class"@,
        KeywordKind::Field => "let"@,
        KeywordKind::Function => "function"@,
        KeywordKind::Constant => "constant"@,
        KeywordKind::Mutable => "mutable"@,
    }
}

/// Whether two text slices hold the same characters.
fn text_matches(a: &str, b: &str) -> (r: bool)
    ensures
        r == (a@ == b@),
{
    let a_len = a.unicode_len();
    let b_len = b.unicode_len();
    if a_len != b_len {
        return false;
    }
    let mut i: usize = 0;
    while i < a_len
        invariant
            a_len == a@.len(),
            b_len == b@.len(),
            a_len == b_len,
            i <= a_len,
            forall|j: int| 0 <= j < i ==> a@[j] == b@[j],
        decreases a_len - i,
    {
        if a.get_char(i) != b.get_char(i) {
            return false;
        }
        i = i + 1;
    }
    proof {
        assert(a@ =~= b@);
    }
    true
}

impl KeywordKind {
    /// The keyword spelled exactly `text`, if any.
    pub fn from_text(text: &str) -> (keyword: Option<KeywordKind>)
        ensures
            keyword == spec_keyword(text@),
    {
        if text_matches(text, "module") {
            Some(KeywordKind::Module)
        } else if text_matches(text, "class") {
            Some(KeywordKind::Class)
        } else if text_matches(text, "let") {
            Some(KeywordKind::Field)
        } else if text_matches(text, "function") {
            Some(KeywordKind::Function)
        } else if text_matches(text, "constant") {
            Some(KeywordKind::Constant)
        } else if text_matches(text, "mutable") {
            Some(KeywordKind::Mutable)
        } else {
            None
        }
    }

    /// The canonical literal spelling of this keyword, for diagnostics.
    pub fn spelling(self) -> (r: &'static str)
        ensures
            r@ == spec_keyword_spelling(self),
    {
        match self {
            KeywordKind::Module => "module",
            KeywordKind::Class => "class",
            KeywordKind::Field => "let",
            KeywordKind::Function => "function",
            KeywordKind::Constant => "constant",
            KeywordKind::Mutable => "mutable",
        }
    }
}

/// Looking a spelling up yields the keyword it belongs to: the mapping
/// between keywords and their spellings is bidirectional.
pub proof fn lemma_keyword_spelling_round_trip(k: KeywordKind)
    ensures
        spec_keyword(spec_keyword_spelling(k)) == Some(k),
{
    reveal_strlit("module");
    reveal_strlit("class");
    reveal_strlit("let");
    reveal_strlit("function");
    reveal_strlit("constant");
    reveal_strlit("mutable");
    assert("class"@.len() == 5);
    assert("let"@.len() == 3);
    assert("function"@.len() == 8);
    assert("constant"@.len() == 8);
    assert("mutable"@.len() == 7);
    assert("module"@.len() == 6);
    assert("constant"@[0] != "function"@[0]);
}

/// The classification of a token: primitive kinds, each recognized in a
/// single scan, and the compound kinds `RightArrow` and `PathSeparator`,
/// each an exact ordered sequence of primitive kinds.
#[derive(Debug, Clone, Copy, PartialEq, Eq, Structural)]
pub enum TokenKind {
    /// A maximal run of white space.
    Whitespace,
    /// An identifier.
    Identifier,
    /// An integer literal.
    Integer,
    /// A keyword.
    Keyword(KeywordKind),
    /// `,`
    Comma,
    /// `;`
    Semicolon,
    /// `:`
    Colon,
    /// `=`
    Equals,
    /// `-`; on its own it is kept as a primitive token, so that the parser
    /// may decide whether a following `>` makes a `RightArrow`.
    Minus,
    /// `>`
    GreaterThan,
    /// `->`, compound: `Minus` then `GreaterThan`.
    RightArrow,
    /// `::`, compound: `Colon` then `Colon`.
    PathSeparator,
    /// `{`
    LeftBrace,
    /// `}`
    RightBrace,
    /// `(`
    LeftParentheses,
    /// `)`
    RightParentheses,
    /// A single unrecognized code point.
    Unknown,
}

/// The abstract value of a [`Token`]: its kind, its start offset, and the
/// characters it covers.
pub ghost struct TokenModel {
    /// The token's kind.
    pub kind: TokenKind,
    /// The token's start offset in the source text.
    pub start: int,
    /// The characters the token covers.
    pub text: Seq<char>,
}

impl TokenModel {
    /// The token's length in code points.
    pub open spec fn length(self) -> int {
        self.text.len() as int
    }

    /// One past the token's last code point.
    pub open spec fn end(self) -> int {
        self.start + self.text.len()
    }
}

/// A classified, immutable span of source text. Its text borrows from the
/// source buffer; it is never an owned copy.
#[derive(Debug, Clone, Copy, PartialEq, Eq)]
pub struct Token<'text> {
    kind: TokenKind,
    start_offset: usize,
    length: usize,
    text: &'text str,
}

impl<'text> View for Token<'text> {
    type V = TokenModel;

    closed spec fn view(&self) -> TokenModel {
        TokenModel { kind: self.kind, start: self.start_offset as int, text: self.text@ }
    }
}

impl<'text> Token<'text> {
    /// The stored length always counts the stored text's code points, and
    /// the span's end stays within offset range.
    #[verifier::type_invariant]
    spec fn span_consistent(self) -> bool {
        &&& self.length == self.text@.len()
        &&& self.start_offset + self.length <= usize::MAX
    }

    /// A token of kind `kind` covering `text` at `start_offset`.
    pub fn new(kind: TokenKind, start_offset: usize, length: usize, text: &'text str) -> (token:
        Self)
        requires
            length == text@.len(),
            start_offset + length <= usize::MAX,
        ensures
            token@ == (TokenModel { kind, start: start_offset as int, text: text@ }),
    {
        Token { kind, start_offset, length, text }
    }

    /// This token's kind.
    pub fn kind(self) -> (kind: TokenKind)
        ensures
            kind == self@.kind,
    {
        self.kind
    }

    /// The text represented by this token.
    pub fn text(self) -> (text: &'text str)
        ensures
            text@ == self@.text,
    {
        self.text
    }

    /// This token's start offset in code points.
    pub fn start_offset(self) -> (offset: usize)
        ensures
            offset == self@.start,
    {
        self.start_offset
    }

    /// This token's end offset in code points.
    pub fn end_offset(self) -> (offset: usize)
        ensures
            offset == self@.end(),
    {
        proof {
            use_type_invariant(self);
        }
        self.start_offset + self.length
    }

    /// This token's length in code points.
    pub fn length(self) -> (length: usize)
        ensures
            length == self@.length(),
    {
        proof {
            use_type_invariant(self);
        }
        self.length
    }
}

/// The canonical literal spelling of `kind`, for diagnostic rendering.
pub open spec fn spec_token_spelling(kind: TokenKind) -> Seq<char> {
    match kind {
        TokenKind::Whitespace => "whitespace"@,
        TokenKind::Identifier => "identifier"@,
        TokenKind::Integer => "integer"@,
        TokenKind::Keyword(keyword) => spec_keyword_spelling(keyword),
        TokenKind::Comma => ","@,
        TokenKind::Semicolon => ";"@,
        TokenKind::Colon => ":"@,
        TokenKind::Equals => "="@,
        TokenKind::Minus => "-"@,
        TokenKind::GreaterThan => ">"@,
        TokenKind::RightArrow => "->"@,
        TokenKind::PathSeparator => "::"@,
        TokenKind::LeftBrace => "{"@,
        TokenKind::RightBrace => "}"@,
        TokenKind::LeftParentheses => "("@,
        TokenKind::RightParentheses => ")"@,
        TokenKind::Unknown => "unknown"@,
    }
}

/// The ordered sequence of primitive kinds that makes up `kind`: the
/// declared constituents of a compound kind, the kind itself otherwise.
pub open spec fn spec_decompose(kind: TokenKind) -> Seq<TokenKind> {
    match kind {
        TokenKind::RightArrow => seq![TokenKind::Minus, TokenKind::GreaterThan],
        TokenKind::PathSeparator => seq![TokenKind::Colon, TokenKind::Colon],
        _ => seq![kind],
    }
}

/// Whether `parts` can be fused into one token of kind `kind`: they are
/// non-empty, every consecutive pair is contiguous, and their kinds match
/// the decomposition of `kind` exactly, in length and order.
pub open spec fn combinable(kind: TokenKind, parts: Seq<TokenModel>) -> bool {
    &&& parts.len() > 0
    &&& parts.map_values(|part: TokenModel| part.kind) == spec_decompose(kind)
    &&& forall|i: int| 0 <= i < parts.len() - 1 ==> #[trigger] parts[i].end() == parts[i + 1].start
}

/// The token that fusing `parts` into one token of kind `kind` yields: its
/// span runs from the first part's start to the last part's end, and its
/// text is sliced directly from the source text over that span.
pub open spec fn spec_combined(kind: TokenKind, text: Seq<char>, parts: Seq<TokenModel>) -> TokenModel
    recommends
        parts.len() > 0,
{
    TokenModel {
        kind,
        start: parts.first().start,
        text: text.subrange(parts.first().start, parts.last().end()),
    }
}

impl TokenKind {
    /// The canonical literal spelling of this kind, for diagnostics.
    pub fn spelling(self) -> (r: &'static str)
        ensures
            r@ == spec_token_spelling(self),
    {
        match self {
            TokenKind::Whitespace => "whitespace",
            TokenKind::Identifier => "identifier",
            TokenKind::Integer => "integer",
            TokenKind::Keyword(keyword) => keyword.spelling(),
            TokenKind::Comma => ",",
            TokenKind::Semicolon => ";",
            TokenKind::Colon => ":",
            TokenKind::Equals => "=",
            TokenKind::Minus => "-",
            TokenKind::GreaterThan => ">",
            TokenKind::RightArrow => "->",
            TokenKind::PathSeparator => "::",
            TokenKind::LeftBrace => "{",
            TokenKind::RightBrace => "}",
            TokenKind::LeftParentheses => "(",
            TokenKind::RightParentheses => ")",
            TokenKind::Unknown => "unknown",
        }
    }

    /// All parts that make up this kind, in order.
    pub fn decompose(self) -> (parts: Vec<TokenKind>)
        ensures
            parts@ == spec_decompose(self),
    {
        let parts: Vec<TokenKind> = match self {
            TokenKind::RightArrow => vec![TokenKind::Minus, TokenKind::GreaterThan],
            TokenKind::PathSeparator => vec![TokenKind::Colon, TokenKind::Colon],
            _ => vec![self],
        };
        proof {
            assert(parts@ =~= spec_decompose(self));
        }
        parts
    }

    /// Tries to fuse the consecutive tokens `parts` into one token of this
    /// kind over the source text `text`. Succeeds exactly when `parts` is
    /// non-empty, contiguous, and matches this kind's decomposition; on any
    /// mismatch it returns nothing and leaves no observable effect.
    pub fn combine<'text>(self, text: &'text str, parts: &[Token<'text>]) -> (token: Option<
        Token<'text>,
    >)
        requires
            forall|i: int| 0 <= i < parts@.len() ==> (#[trigger] parts@[i]@).end() <= text@.len(),
        ensures
            token is Some <==> combinable(self, parts@.map_values(|part: Token<'text>| part@)),
            token is Some ==> token->0@ == spec_combined(
                self,
                text@,
                parts@.map_values(|part: Token<'text>| part@),
            ),
    {
        let ghost models = parts@.map_values(|part: Token<'text>| part@);
        let expected = self.decompose();
        if parts.len() != expected.len() {
            proof {
                assert(models.len() == parts@.len());
                assert(!combinable(self, models));
            }
            return None;
        }
        let mut i: usize = 0;
        while i < parts.len()
            invariant
                models == parts@.map_values(|part: Token<'text>| part@),
                expected@ == spec_decompose(self),
                parts@.len() == expected@.len(),
                i <= parts@.len(),
                forall|j: int| 0 <= j < i ==> models[j].kind == spec_decompose(self)[j],
                forall|j: int| 0 <= j < i - 1 ==> #[trigger] models[j].end() == models[j + 1].start,
            decreases parts@.len() - i,
        {
            if parts[i].kind() != expected[i] {
                proof {
                    assert(models.map_values(|part: TokenModel| part.kind)[i as int] != spec_decompose(self)[i as int]);
                    assert(!combinable(self, models));
                }
                return None;
            }
            if i > 0 && parts[i - 1].end_offset() != parts[i].start_offset() {
                proof {
                    assert(models[i - 1].end() != models[i as int].start);
                    assert(!combinable(self, models));
                }
                return None;
            }
            i = i + 1;
        }
        proof {
            assert(models.map_values(|part: TokenModel| part.kind) =~= spec_decompose(self));
            assert(combinable(self, models));
        }
        let start_offset = parts[0].start_offset();
        let end_offset = parts[parts.len() - 1].end_offset();
        proof {
            assert(start_offset <= end_offset) by {
                if parts@.len() == 2 {
                    assert(models[0].end() == models[1].start);
                }
            };
        }
        let combined_text = text.substring_char(start_offset, end_offset);
        Some(Token::new(self, start_offset, end_offset - start_offset, combined_text))
    }
}

} // verus!
