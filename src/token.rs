//! The lexical vocabulary of the language.
use vstd::prelude::*;

verus! {

/// Every kind of token the lexer can produce.
#[derive(Debug, PartialEq, Eq, Structural, Clone, Copy, Hash)]
pub enum TokenKind {
    Eof,
    True,
    False,
    Number,
    String,
    Identifier,
    // grouping and braces
    Pipe,
    OpenBracket,
    CloseBracket,
    OpenCurly,
    CloseCurly,
    OpenParen,
    CloseParen,
    // equivalence
    Equals,
    NotEquals,
    Not,
    Assignment,
    // conditional
    Less,
    LessEquals,
    Greater,
    GreaterEquals,
    // logical
    Or,
    And,
    // symbols
    DotDot,
    Dot,
    SemiColon,
    DoubleColon,
    Colon,
    Question,
    Comma,
    // shorthand
    PlusPlus,
    MinusMinus,
    PlusEquals,
    MinusEquals,
    DivideEquals,
    MultiplyEquals,
    ModEquals,
    // maths
    Plus,
    Minus,
    Divide,
    Star,
    Percent,
    // reserved keywords
    Let,
    Const,
    Struct,
    Import,
    Fn,
    If,
    Else,
    While,
    For,
    In,
    Match,
    Pub,
    Return,
    Continue,
    Break,
}

/// The keyword kind that `word` spells, if it is a reserved word.
pub open spec fn keyword_of(word: Seq<char>) -> Option<TokenKind> {
    if word == "let"@ {
        Some(TokenKind::Let)
    } else if word == "const"@ {
        Some(TokenKind::Const)
    } else if word == "struct"@ {
        Some(TokenKind::Struct)
    } else if word == "import"@ {
        Some(TokenKind::Import)
    } else if word == "fn"@ {
        Some(TokenKind::Fn)
    } else if word == "if"@ {
        Some(TokenKind::If)
    } else if word == "else"@ {
        Some(TokenKind::Else)
    } else if word == "while"@ {
        Some(TokenKind::While)
    } else if word == "for"@ {
        Some(TokenKind::For)
    } else if word == "in"@ {
        Some(TokenKind::In)
    } else if word == "match"@ {
        Some(TokenKind::Match)
    } else if word == "pub"@ {
        Some(TokenKind::Pub)
    } else if word == "return"@ {
        Some(TokenKind::Return)
    } else if word == "continue"@ {
        Some(TokenKind::Continue)
    } else if word == "break"@ {
        Some(TokenKind::Break)
    } else {
        None
    }
}

/// Whether two strings hold the same characters.
pub fn same_text(a: &str, b: &str) -> (r: bool)
    ensures
        r == (a@ == b@),
{
    let n = a.unicode_len();
    if n != b.unicode_len() {
        return false;
    }
    let mut i: usize = 0;
    while i < n
        invariant
            n == a@.len(),
            n == b@.len(),
            i <= n,
            a@.subrange(0, i as int) == b@.subrange(0, i as int),
        decreases n - i,
    {
        if a.get_char(i) != b.get_char(i) {
            return false;
        }
        assert(a@.subrange(0, i + 1) == a@.subrange(0, i as int).push(a@[i as int]));
        assert(b@.subrange(0, i + 1) == b@.subrange(0, i as int).push(b@[i as int]));
        i += 1;
    }
    assert(a@ == a@.subrange(0, n as int));
    assert(b@ == b@.subrange(0, n as int));
    true
}

/// A token: its kind and the text it stands for; `line` is the byte offset
/// at which it starts in the source, and `pos` is always zero.
#[derive(Debug)]
pub struct Token {
    pub kind: TokenKind,
    pub value: String,
    pub line: usize,
    pub pos: usize,
}

/// What a token is, as plain values.
pub struct TokenView {
    pub kind: TokenKind,
    pub value: Seq<char>,
    pub line: nat,
    pub pos: nat,
}

impl View for Token {
    type V = TokenView;

    open spec fn view(&self) -> TokenView {
        TokenView { kind: self.kind, value: self.value@, line: self.line as nat, pos: self.pos as nat }
    }
}

impl TokenKind {
    /// The keyword kind that `input` spells, or `None` for any other word.
    pub fn is_keyword(input: &str) -> (r: Option<TokenKind>)
        ensures
            r == keyword_of(input@),
    {
        proof {
            reveal_strlit("let");
            reveal_strlit("const");
            reveal_strlit("struct");
            reveal_strlit("import");
            reveal_strlit("fn");
            reveal_strlit("if");
            reveal_strlit("else");
            reveal_strlit("while");
            reveal_strlit("for");
            reveal_strlit("in");
            reveal_strlit("match");
            reveal_strlit("pub");
            reveal_strlit("return");
            reveal_strlit("continue");
            reveal_strlit("break");
        }
        if same_text(input, "let") {
            Some(TokenKind::Let)
        } else if same_text(input, "const") {
            Some(TokenKind::Const)
        } else if same_text(input, "struct") {
            Some(TokenKind::Struct)
        } else if same_text(input, "import") {
            Some(TokenKind::Import)
        } else if same_text(input, "fn") {
            Some(TokenKind::Fn)
        } else if same_text(input, "if") {
            Some(TokenKind::If)
        } else if same_text(input, "else") {
            Some(TokenKind::Else)
        } else if same_text(input, "while") {
            Some(TokenKind::While)
        } else if same_text(input, "for") {
            Some(TokenKind::For)
        } else if same_text(input, "in") {
            Some(TokenKind::In)
        } else if same_text(input, "match") {
            Some(TokenKind::Match)
        } else if same_text(input, "pub") {
            Some(TokenKind::Pub)
        } else if same_text(input, "return") {
            Some(TokenKind::Return)
        } else if same_text(input, "continue") {
            Some(TokenKind::Continue)
        } else if same_text(input, "break") {
            Some(TokenKind::Break)
        } else {
            None
        }
    }
}

impl Clone for Token {
    fn clone(&self) -> (r: Token)
        ensures
            r == *self,
    {
        Token { kind: self.kind, value: self.value.clone(), line: self.line, pos: self.pos }
    }
}

impl Token {
    pub fn new(kind: TokenKind, value: String, line: usize, pos: usize) -> (r: Token)
        ensures
            r.kind == kind,
            r.value == value,
            r.line == line,
            r.pos == pos,
    {
        Token { kind, value, line, pos }
    }
}

} // verus!
