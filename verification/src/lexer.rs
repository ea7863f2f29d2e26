//! The assembler's lexer: breaks assembly text into tokens with a two-state
//! machine (the start of a line, and the operands of an instruction).

use vstd::prelude::*;

use crate::text::spec_is_whitespace;

verus! {

/// A lexical token of the assembly language.
#[derive(Debug, PartialEq, Eq)]
pub enum Token {
    /// `NAME:` at the start of a line.
    LabelDecl(String),
    /// A label used as an operand.
    LabelInvoc(String),
    /// `$name`, without the `$`.
    Register(String),
    /// A run of numeric characters.
    Immediate(String),
    /// The first word of an instruction line.
    Mneumonic(String),
    Comma,
    /// `// text`, without the slashes.
    Comment(String),
    /// `*` before an operand.
    Deref,
}

/// A token with its text as a character sequence.
pub enum TokenV {
    LabelDecl(Seq<char>),
    LabelInvoc(Seq<char>),
    Register(Seq<char>),
    Immediate(Seq<char>),
    Mneumonic(Seq<char>),
    Comma,
    Comment(Seq<char>),
    Deref,
}

impl Token {
    pub open spec fn view(&self) -> TokenV {
        match self {
            Token::LabelDecl(s) => TokenV::LabelDecl(s@),
            Token::LabelInvoc(s) => TokenV::LabelInvoc(s@),
            Token::Register(s) => TokenV::Register(s@),
            Token::Immediate(s) => TokenV::Immediate(s@),
            Token::Mneumonic(s) => TokenV::Mneumonic(s@),
            Token::Comma => TokenV::Comma,
            Token::Comment(s) => TokenV::Comment(s@),
            Token::Deref => TokenV::Deref,
        }
    }
}

/// The views of a sequence of tokens.
pub open spec fn tokens_view(ts: Seq<Token>) -> Seq<TokenV> {
    ts.map_values(|t: Token| t@)
}

/// Why a text cannot be tokenized.
#[derive(Debug, Clone, Copy, PartialEq, Eq, Structural)]
pub enum LexError {
    /// A `/` is the last character.
    UnexpectedEnd,
    /// A `/` at the start of a line is not followed by another `/`.
    SingleSlash,
    /// A character that cannot start an operand.
    UnexpectedChar(char),
}

/// Where the lexer is: at the start of a line, or among an instruction's operands.
#[derive(Debug, Clone, Copy, PartialEq, Eq, Structural)]
pub enum LexState {
    Begin,
    Args,
}

/// The Unicode `Alphabetic` property, which `char::is_alphabetic` tests.
pub uninterp spec fn char_is_alphabetic(c: char) -> bool;

/// The Unicode numeric categories (`Nd`, `Nl`, `No`), which `char::is_numeric` tests.
pub uninterp spec fn char_is_numeric(c: char) -> bool;

/// `char::is_alphabetic`: whether `c` has the Unicode `Alphabetic` property.
/// The contract names the result and states nothing more of it.
#[verifier::external_body]
fn is_alphabetic(c: char) -> (b: bool)
    ensures
        b == char_is_alphabetic(c),
{
    c.is_alphabetic()
}

/// `char::is_numeric`: whether `c` is in a Unicode numeric category. The
/// contract names the result and states nothing more of it.
#[verifier::external_body]
fn is_numeric(c: char) -> (b: bool)
    ensures
        b == char_is_numeric(c),
{
    c.is_numeric()
}

/// What `char::is_alphanumeric` tests: alphabetic or numeric.
pub open spec fn char_is_alphanumeric(c: char) -> bool {
    char_is_alphabetic(c) || char_is_numeric(c)
}

fn is_alphanumeric(c: char) -> (b: bool)
    ensures
        b == char_is_alphanumeric(c),
{
    is_alphabetic(c) || is_numeric(c)
}

/// The characters a label is made of.
pub open spec fn is_label_char(c: char) -> bool {
    char_is_alphanumeric(c) || c == '_'
}

fn is_valid_label_ch(ch: &char) -> (b: bool)
    ensures
        b == is_label_char(*ch),
{
    is_alphanumeric(*ch) || *ch == '_'
}

/// The character classes the lexer collects runs of.
#[derive(Clone, Copy, Debug, PartialEq, Eq, Structural)]
pub enum CharClass {
    NotWhitespace,
    NotNewline,
    LabelChar,
    Alphanumeric,
    Numeric,
}

pub open spec fn in_class(k: CharClass, c: char) -> bool {
    match k {
        CharClass::NotWhitespace => !spec_is_whitespace(c),
        CharClass::NotNewline => c != '\n',
        CharClass::LabelChar => is_label_char(c),
        CharClass::Alphanumeric => char_is_alphanumeric(c),
        CharClass::Numeric => char_is_numeric(c),
    }
}

fn class_has(k: CharClass, c: char) -> (b: bool)
    ensures
        b == in_class(k, c),
{
    match k {
        CharClass::NotWhitespace => !crate::text::is_whitespace(c),
        CharClass::NotNewline => c != '\n',
        CharClass::LabelChar => is_valid_label_ch(&c),
        CharClass::Alphanumeric => is_alphanumeric(c),
        CharClass::Numeric => is_numeric(c),
    }
}

/// The end of the longest run of characters of class `k` starting at `pos`.
pub open spec fn span(s: Seq<char>, pos: int, k: CharClass) -> int
    decreases s.len() - pos,
{
    if 0 <= pos < s.len() && in_class(k, s[pos]) {
        span(s, pos + 1, k)
    } else {
        pos
    }
}

pub proof fn lemma_span(s: Seq<char>, pos: int, k: CharClass)
    requires
        0 <= pos <= s.len(),
    ensures
        pos <= span(s, pos, k) <= s.len(),
        forall|j: int| pos <= j < span(s, pos, k) ==> in_class(k, #[trigger] s[j]),
        span(s, pos, k) < s.len() ==> !in_class(k, s[span(s, pos, k)]),
    decreases s.len() - pos,
{
    if pos < s.len() && in_class(k, s[pos]) {
        lemma_span(s, pos + 1, k);
    }
}

/// What lexing the text from `pos` on gives.
pub enum LexOutcome {
    Done(Seq<TokenV>),
    Failed(LexError),
    /// The lexer loops forever: at the start of a line it meets a character
    /// that is not a newline, a `/` or alphabetic, and consumes nothing.
    Hangs,
}

pub open spec fn rank(st: LexState) -> int {
    match st {
        LexState::Begin => 1,
        LexState::Args => 0,
    }
}

/// The lexer, from position `pos` in state `st`, having produced `acc`.
pub open spec fn lex_from(s: Seq<char>, pos: int, st: LexState, acc: Seq<TokenV>) -> LexOutcome
    decreases s.len() - pos, rank(st),
{
    if pos < 0 || pos >= s.len() {
        LexOutcome::Done(acc)
    } else {
        let ch = s[pos];
        match st {
            LexState::Begin => {
                if ch == '\n' {
                    lex_from(s, pos + 1, LexState::Begin, acc)
                } else if ch == '/' {
                    if pos + 1 >= s.len() {
                        LexOutcome::Failed(LexError::UnexpectedEnd)
                    } else if s[pos + 1] == '/' {
                        let e = span(s, pos + 2, CharClass::NotNewline);
                        proof {
                            lemma_span(s, pos + 2, CharClass::NotNewline);
                        }
                        lex_from(
                            s,
                            e,
                            LexState::Begin,
                            acc.push(TokenV::Comment(s.subrange(pos + 2, e))),
                        )
                    } else {
                        LexOutcome::Failed(LexError::SingleSlash)
                    }
                } else if char_is_alphabetic(ch) {
                    let e = span(s, pos, CharClass::NotWhitespace);
                    proof {
                        lemma_span(s, pos, CharClass::NotWhitespace);
                    }
                    let w = s.subrange(pos, e);
                    if w.len() > 0 && w.last() == ':' {
                        lex_from(s, e, LexState::Begin, acc.push(TokenV::LabelDecl(w.drop_last())))
                    } else {
                        lex_from(s, e, LexState::Args, acc.push(TokenV::Mneumonic(w)))
                    }
                } else {
                    LexOutcome::Hangs
                }
            },
            LexState::Args => {
                if ch == '\n' {
                    lex_from(s, pos + 1, LexState::Begin, acc)
                } else if ch == ' ' || ch == '\t' {
                    lex_from(s, pos + 1, LexState::Args, acc)
                } else if ch == '*' {
                    lex_from(s, pos + 1, LexState::Args, acc.push(TokenV::Deref))
                } else if char_is_alphabetic(ch) {
                    let e = span(s, pos, CharClass::LabelChar);
                    proof {
                        lemma_span(s, pos, CharClass::LabelChar);
                    }
                    lex_from(s, e, LexState::Args, acc.push(TokenV::LabelInvoc(s.subrange(pos, e))))
                } else if ch == '$' {
                    let e = span(s, pos + 1, CharClass::Alphanumeric);
                    proof {
                        lemma_span(s, pos + 1, CharClass::Alphanumeric);
                    }
                    lex_from(
                        s,
                        e,
                        LexState::Args,
                        acc.push(TokenV::Register(s.subrange(pos + 1, e))),
                    )
                } else if char_is_numeric(ch) {
                    let e = span(s, pos, CharClass::Numeric);
                    proof {
                        lemma_span(s, pos, CharClass::Numeric);
                    }
                    lex_from(s, e, LexState::Args, acc.push(TokenV::Immediate(s.subrange(pos, e))))
                } else if ch == ',' {
                    lex_from(s, pos + 1, LexState::Args, acc.push(TokenV::Comma))
                } else {
                    LexOutcome::Failed(LexError::UnexpectedChar(ch))
                }
            },
        }
    }
}

/// What tokenizing a whole text gives.
pub open spec fn spec_tokenize(s: Seq<char>) -> LexOutcome {
    lex_from(s, 0, LexState::Begin, seq![])
}

/// The end of the run of class `k` from `pos` on.
fn collect_while(s: &str, len: usize, pos: usize, k: CharClass) -> (e: usize)
    requires
        len == s@.len(),
        pos <= len,
    ensures
        e as int == span(s@, pos as int, k),
{
    let mut e = pos;
    while e < len && class_has(k, s.get_char(e))
        invariant
            pos <= e <= len,
            len == s@.len(),
            span(s@, pos as int, k) == span(s@, e as int, k),
        decreases len - e,
    {
        e = e + 1;
    }
    e
}

/// Tokenizes assembly text; `None` where the lexer would loop forever (see
/// `LexOutcome::Hangs`).
pub fn tokenize_checked(str: &str) -> (r: Option<Result<Vec<Token>, LexError>>)
    ensures
        match r {
            None => spec_tokenize(str@) is Hangs,
            Some(Ok(ts)) => spec_tokenize(str@) == LexOutcome::Done(tokens_view(ts@)),
            Some(Err(e)) => spec_tokenize(str@) == LexOutcome::Failed(e),
        },
{
    let len = str.unicode_len();
    let ghost s = str@;
    let mut pos: usize = 0;
    let mut state = LexState::Begin;
    let mut tokens: Vec<Token> = Vec::new();
    assert(tokens_view(tokens@) =~= seq![]);
    while pos < len
        invariant
            len == s.len(),
            s == str@,
            pos <= len,
            spec_tokenize(s) == lex_from(s, pos as int, state, tokens_view(tokens@)),
        decreases len - pos, rank(state),
    {
        let ch = str.get_char(pos);
        let ghost acc = tokens_view(tokens@);
        match state {
            LexState::Begin => {
                if ch == '\n' {
                    pos = pos + 1;
                } else if ch == '/' {
                    if pos + 1 >= len {
                        return Some(Err(LexError::UnexpectedEnd));
                    }
                    if str.get_char(pos + 1) == '/' {
                        let e = collect_while(str, len, pos + 2, CharClass::NotNewline);
                        proof {
                            lemma_span(s, pos + 2, CharClass::NotNewline);
                        }
                        tokens.push(Token::Comment(String::from_str(str.substring_char(pos + 2, e))));
                        assert(tokens_view(tokens@) =~= acc.push(
                            TokenV::Comment(s.subrange(pos + 2, e as int)),
                        ));
                        pos = e;
                    } else {
                        return Some(Err(LexError::SingleSlash));
                    }
                } else if is_alphabetic(ch) {
                    let e = collect_while(str, len, pos, CharClass::NotWhitespace);
                    proof {
                        lemma_span(s, pos as int, CharClass::NotWhitespace);
                    }
                    let w = str.substring_char(pos, e);
                    if e > pos && str.get_char(e - 1) == ':' {
                        let d = str.substring_char(pos, e - 1);
                        assert(d@ =~= w@.drop_last());
                        tokens.push(Token::LabelDecl(String::from_str(d)));
                        assert(tokens_view(tokens@) =~= acc.push(
                            TokenV::LabelDecl(w@.drop_last()),
                        ));
                    } else {
                        tokens.push(Token::Mneumonic(String::from_str(w)));
                        assert(tokens_view(tokens@) =~= acc.push(TokenV::Mneumonic(w@)));
                        state = LexState::Args;
                    }
                    pos = e;
                } else {
                    return None;
                }
            },
            LexState::Args => {
                if ch == '\n' {
                    pos = pos + 1;
                    state = LexState::Begin;
                } else if ch == ' ' || ch == '\t' {
                    pos = pos + 1;
                } else if ch == '*' {
                    tokens.push(Token::Deref);
                    assert(tokens_view(tokens@) =~= acc.push(TokenV::Deref));
                    pos = pos + 1;
                } else if is_alphabetic(ch) {
                    let e = collect_while(str, len, pos, CharClass::LabelChar);
                    proof {
                        lemma_span(s, pos as int, CharClass::LabelChar);
                    }
                    tokens.push(Token::LabelInvoc(String::from_str(str.substring_char(pos, e))));
                    assert(tokens_view(tokens@) =~= acc.push(
                        TokenV::LabelInvoc(s.subrange(pos as int, e as int)),
                    ));
                    pos = e;
                } else if ch == '$' {
                    let e = collect_while(str, len, pos + 1, CharClass::Alphanumeric);
                    proof {
                        lemma_span(s, pos + 1, CharClass::Alphanumeric);
                    }
                    tokens.push(Token::Register(String::from_str(str.substring_char(pos + 1, e))));
                    assert(tokens_view(tokens@) =~= acc.push(
                        TokenV::Register(s.subrange(pos + 1, e as int)),
                    ));
                    pos = e;
                } else if is_numeric(ch) {
                    let e = collect_while(str, len, pos, CharClass::Numeric);
                    proof {
                        lemma_span(s, pos as int, CharClass::Numeric);
                    }
                    tokens.push(Token::Immediate(String::from_str(str.substring_char(pos, e))));
                    assert(tokens_view(tokens@) =~= acc.push(
                        TokenV::Immediate(s.subrange(pos as int, e as int)),
                    ));
                    pos = e;
                } else if ch == ',' {
                    tokens.push(Token::Comma);
                    assert(tokens_view(tokens@) =~= acc.push(TokenV::Comma));
                    pos = pos + 1;
                } else {
                    return Some(Err(LexError::UnexpectedChar(ch)));
                }
            },
        }
    }
    Some(Ok(tokens))
}

/// Tokenizes assembly text. The text must not make the lexer loop forever
/// (`tokenize_checked` tells).
pub fn tokenize(str: String) -> (r: Result<Vec<Token>, LexError>)
    requires
        !(spec_tokenize(str@) is Hangs),
    ensures
        match r {
            Ok(ts) => spec_tokenize(str@) == LexOutcome::Done(tokens_view(ts@)),
            Err(e) => spec_tokenize(str@) == LexOutcome::Failed(e),
        },
{
    match tokenize_checked(str.as_str()) {
        Some(r) => r,
        None => {
            proof {
                assert(false);
            }
            Ok(Vec::new())
        },
    }
}

} // verus!
