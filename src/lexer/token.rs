//! Token kinds, tokens, and the keyword table.
use vstd::prelude::*;

use crate::error::Span;
use crate::text::chars_of;

verus! {

/// The closed set of token kinds. Literal kinds carry their decoded value;
/// a floating-point literal carries its digits with `_` separators removed.
#[derive(Debug, Clone, PartialEq)]
pub enum TokenKind {
    LitInt(i64),
    LitFloat(String),
    LitString(String),
    LitRune(char),
    LitBool(bool),
    Ident(String),
    KwPackage,
    KwImport,
    KwFunc,
    KwVar,
    KwConst,
    KwType,
    KwReturn,
    KwIf,
    KwElse,
    KwFor,
    KwRange,
    KwSwitch,
    KwCase,
    KwDefault,
    KwFallthrough,
    KwBreak,
    KwContinue,
    KwGoto,
    KwDefer,
    KwGo,
    KwSelect,
    KwMap,
    KwStruct,
    KwInterface,
    KwChan,
    KwNil,
    KwTrue,
    KwFalse,
    /// `+`
    Plus,
    /// `-`
    Minus,
    /// `*`
    Star,
    /// `/`
    Slash,
    /// `%`
    Percent,
    /// `&`
    Amp,
    /// `|`
    Pipe,
    /// `^`
    Caret,
    /// `&^`
    AmpCaret,
    /// `<<`
    LShift,
    /// `>>`
    RShift,
    /// `+=`
    PlusEq,
    /// `-=`
    MinusEq,
    /// `*=`
    StarEq,
    /// `/=`
    SlashEq,
    /// `%=`
    PercentEq,
    /// `&=`
    AmpEq,
    /// `|=`
    PipeEq,
    /// `^=`
    CaretEq,
    /// `<<=`
    LShiftEq,
    /// `>>=`
    RShiftEq,
    /// `&^=`
    AmpCaretEq,
    /// `=`
    Assign,
    /// `:=`
    DeclAssign,
    /// `++`
    Inc,
    /// `--`
    Dec,
    /// `==`
    Eq,
    /// `!=`
    NotEq,
    /// `<`
    Lt,
    /// `<=`
    LtEq,
    /// `>`
    Gt,
    /// `>=`
    GtEq,
    /// `&&`
    AndAnd,
    /// `||`
    OrOr,
    /// `!`
    Bang,
    /// `<-`
    Arrow,
    /// `...`
    Ellipsis,
    /// `.`
    Dot,
    /// `,`
    Comma,
    /// `;`
    Semicolon,
    /// `:`
    Colon,
    /// `(`
    LParen,
    /// `)`
    RParen,
    /// `{`
    LBrace,
    /// `}`
    RBrace,
    /// `[`
    LBracket,
    /// `]`
    RBracket,
    Newline,
    EOF,
}

/// The source spelling of each operator and punctuation kind; empty for the other kinds.
pub open spec fn op_text(k: TokenKind) -> Seq<char> {
    match k {
        TokenKind::Plus => seq!['+'],
        TokenKind::Minus => seq!['-'],
        TokenKind::Star => seq!['*'],
        TokenKind::Slash => seq!['/'],
        TokenKind::Percent => seq!['%'],
        TokenKind::Amp => seq!['&'],
        TokenKind::Pipe => seq!['|'],
        TokenKind::Caret => seq!['^'],
        TokenKind::AmpCaret => seq!['&', '^'],
        TokenKind::LShift => seq!['<', '<'],
        TokenKind::RShift => seq!['>', '>'],
        TokenKind::PlusEq => seq!['+', '='],
        TokenKind::MinusEq => seq!['-', '='],
        TokenKind::StarEq => seq!['*', '='],
        TokenKind::SlashEq => seq!['/', '='],
        TokenKind::PercentEq => seq!['%', '='],
        TokenKind::AmpEq => seq!['&', '='],
        TokenKind::PipeEq => seq!['|', '='],
        TokenKind::CaretEq => seq!['^', '='],
        TokenKind::LShiftEq => seq!['<', '<', '='],
        TokenKind::RShiftEq => seq!['>', '>', '='],
        TokenKind::AmpCaretEq => seq!['&', '^', '='],
        TokenKind::Assign => seq!['='],
        TokenKind::DeclAssign => seq![':', '='],
        TokenKind::Inc => seq!['+', '+'],
        TokenKind::Dec => seq!['-', '-'],
        TokenKind::Eq => seq!['=', '='],
        TokenKind::NotEq => seq!['!', '='],
        TokenKind::Lt => seq!['<'],
        TokenKind::LtEq => seq!['<', '='],
        TokenKind::Gt => seq!['>'],
        TokenKind::GtEq => seq!['>', '='],
        TokenKind::AndAnd => seq!['&', '&'],
        TokenKind::OrOr => seq!['|', '|'],
        TokenKind::Bang => seq!['!'],
        TokenKind::Arrow => seq!['<', '-'],
        TokenKind::Ellipsis => seq!['.', '.', '.'],
        TokenKind::Dot => seq!['.'],
        TokenKind::Comma => seq![','],
        TokenKind::Semicolon => seq![';'],
        TokenKind::Colon => seq![':'],
        TokenKind::LParen => seq!['('],
        TokenKind::RParen => seq![')'],
        TokenKind::LBrace => seq!['{'],
        TokenKind::RBrace => seq!['}'],
        TokenKind::LBracket => seq!['['],
        TokenKind::RBracket => seq![']'],
        _ => Seq::empty(),
    }
}

/// The keyword a word spells, if it is one; `true` and `false` are boolean literals.
pub open spec fn keyword_of(s: Seq<char>) -> Option<TokenKind> {
    if s == "package"@ {
        Some(TokenKind::KwPackage)
    } else if s == "import"@ {
        Some(TokenKind::KwImport)
    } else if s == "func"@ {
        Some(TokenKind::KwFunc)
    } else if s == "var"@ {
        Some(TokenKind::KwVar)
    } else if s == "const"@ {
        Some(TokenKind::KwConst)
    } else if s == "type"@ {
        Some(TokenKind::KwType)
    } else if s == "return"@ {
        Some(TokenKind::KwReturn)
    } else if s == "if"@ {
        Some(TokenKind::KwIf)
    } else if s == "else"@ {
        Some(TokenKind::KwElse)
    } else if s == "for"@ {
        Some(TokenKind::KwFor)
    } else if s == "range"@ {
        Some(TokenKind::KwRange)
    } else if s == "switch"@ {
        Some(TokenKind::KwSwitch)
    } else if s == "case"@ {
        Some(TokenKind::KwCase)
    } else if s == "default"@ {
        Some(TokenKind::KwDefault)
    } else if s == "fallthrough"@ {
        Some(TokenKind::KwFallthrough)
    } else if s == "break"@ {
        Some(TokenKind::KwBreak)
    } else if s == "continue"@ {
        Some(TokenKind::KwContinue)
    } else if s == "goto"@ {
        Some(TokenKind::KwGoto)
    } else if s == "defer"@ {
        Some(TokenKind::KwDefer)
    } else if s == "go"@ {
        Some(TokenKind::KwGo)
    } else if s == "select"@ {
        Some(TokenKind::KwSelect)
    } else if s == "map"@ {
        Some(TokenKind::KwMap)
    } else if s == "struct"@ {
        Some(TokenKind::KwStruct)
    } else if s == "interface"@ {
        Some(TokenKind::KwInterface)
    } else if s == "chan"@ {
        Some(TokenKind::KwChan)
    } else if s == "nil"@ {
        Some(TokenKind::KwNil)
    } else if s == "true"@ {
        Some(TokenKind::LitBool(true))
    } else if s == "false"@ {
        Some(TokenKind::LitBool(false))
    } else {
        None
    }
}

/// Whether a kind is a plain or compound assignment operator.
pub open spec fn is_assign_kind(k: TokenKind) -> bool {
    match k {
        TokenKind::Assign
        | TokenKind::PlusEq
        | TokenKind::MinusEq
        | TokenKind::StarEq
        | TokenKind::SlashEq
        | TokenKind::PercentEq
        | TokenKind::AmpEq
        | TokenKind::PipeEq
        | TokenKind::CaretEq
        | TokenKind::LShiftEq
        | TokenKind::RShiftEq
        | TokenKind::AmpCaretEq => true,
        _ => false,
    }
}

/// Binding power of a binary operator, from 1 (`||`) to 9 (multiplicative).
pub open spec fn binary_prec(k: TokenKind) -> Option<u8> {
    match k {
        TokenKind::OrOr => Some(1u8),
        TokenKind::AndAnd => Some(2u8),
        TokenKind::Eq => Some(3u8),
        TokenKind::NotEq => Some(3u8),
        TokenKind::Lt => Some(3u8),
        TokenKind::LtEq => Some(3u8),
        TokenKind::Gt => Some(3u8),
        TokenKind::GtEq => Some(3u8),
        TokenKind::Pipe => Some(4u8),
        TokenKind::Caret => Some(5u8),
        TokenKind::Amp => Some(6u8),
        TokenKind::LShift => Some(7u8),
        TokenKind::RShift => Some(7u8),
        TokenKind::Plus => Some(8u8),
        TokenKind::Minus => Some(8u8),
        TokenKind::Star => Some(9u8),
        TokenKind::Slash => Some(9u8),
        TokenKind::Percent => Some(9u8),
        _ => None,
    }
}

impl TokenKind {
    /// The operator text of an assignment operator.
    pub fn as_assign_op(&self) -> (r: Option<&'static str>)
        ensures
            r is Some <==> is_assign_kind(*self),
            r is Some ==> r->0@ == op_text(*self),
    {
        match self {
            TokenKind::Assign => {
                proof {
                    reveal_strlit("=");
                }
                Some("=")
            },
            TokenKind::PlusEq => {
                proof {
                    reveal_strlit("+=");
                }
                Some("+=")
            },
            TokenKind::MinusEq => {
                proof {
                    reveal_strlit("-=");
                }
                Some("-=")
            },
            TokenKind::StarEq => {
                proof {
                    reveal_strlit("*=");
                }
                Some("*=")
            },
            TokenKind::SlashEq => {
                proof {
                    reveal_strlit("/=");
                }
                Some("/=")
            },
            TokenKind::PercentEq => {
                proof {
                    reveal_strlit("%=");
                }
                Some("%=")
            },
            TokenKind::AmpEq => {
                proof {
                    reveal_strlit("&=");
                }
                Some("&=")
            },
            TokenKind::PipeEq => {
                proof {
                    reveal_strlit("|=");
                }
                Some("|=")
            },
            TokenKind::CaretEq => {
                proof {
                    reveal_strlit("^=");
                }
                Some("^=")
            },
            TokenKind::LShiftEq => {
                proof {
                    reveal_strlit("<<=");
                }
                Some("<<=")
            },
            TokenKind::RShiftEq => {
                proof {
                    reveal_strlit(">>=");
                }
                Some(">>=")
            },
            TokenKind::AmpCaretEq => {
                proof {
                    reveal_strlit("&^=");
                }
                Some("&^=")
            },
            _ => None,
        }
    }

    /// Binding power and C++ spelling of a binary operator.
    pub fn as_binary_op(&self) -> (r: Option<(u8, &'static str)>)
        ensures
            r is Some <==> binary_prec(*self) is Some,
            r matches Some((p, t)) ==> p == binary_prec(*self)->0 && t@ == op_text(*self),
    {
        match self {
            TokenKind::OrOr => {
                proof {
                    reveal_strlit("||");
                }
                Some((1, "||"))
            },
            TokenKind::AndAnd => {
                proof {
                    reveal_strlit("&&");
                }
                Some((2, "&&"))
            },
            TokenKind::Eq => {
                proof {
                    reveal_strlit("==");
                }
                Some((3, "=="))
            },
            TokenKind::NotEq => {
                proof {
                    reveal_strlit("!=");
                }
                Some((3, "!="))
            },
            TokenKind::Lt => {
                proof {
                    reveal_strlit("<");
                }
                Some((3, "<"))
            },
            TokenKind::LtEq => {
                proof {
                    reveal_strlit("<=");
                }
                Some((3, "<="))
            },
            TokenKind::Gt => {
                proof {
                    reveal_strlit(">");
                }
                Some((3, ">"))
            },
            TokenKind::GtEq => {
                proof {
                    reveal_strlit(">=");
                }
                Some((3, ">="))
            },
            TokenKind::Pipe => {
                proof {
                    reveal_strlit("|");
                }
                Some((4, "|"))
            },
            TokenKind::Caret => {
                proof {
                    reveal_strlit("^");
                }
                Some((5, "^"))
            },
            TokenKind::Amp => {
                proof {
                    reveal_strlit("&");
                }
                Some((6, "&"))
            },
            TokenKind::LShift => {
                proof {
                    reveal_strlit("<<");
                }
                Some((7, "<<"))
            },
            TokenKind::RShift => {
                proof {
                    reveal_strlit(">>");
                }
                Some((7, ">>"))
            },
            TokenKind::Plus => {
                proof {
                    reveal_strlit("+");
                }
                Some((8, "+"))
            },
            TokenKind::Minus => {
                proof {
                    reveal_strlit("-");
                }
                Some((8, "-"))
            },
            TokenKind::Star => {
                proof {
                    reveal_strlit("*");
                }
                Some((9, "*"))
            },
            TokenKind::Slash => {
                proof {
                    reveal_strlit("/");
                }
                Some((9, "/"))
            },
            TokenKind::Percent => {
                proof {
                    reveal_strlit("%");
                }
                Some((9, "%"))
            },
            _ => None,
        }
    }
}

/// A token: its kind, where it starts, and its source text.
#[derive(Debug, Clone)]
pub struct Token {
    pub kind: TokenKind,
    pub span: Span,
    /// The token's exact source text.
    pub raw: String,
}

impl Token {
    pub fn new(kind: TokenKind, span: Span, raw: String) -> (r: Token)
        ensures
            r.kind == kind,
            r.span == span,
            r.raw == raw,
    {
        Token { kind, span, raw }
    }

    pub fn is_eof(&self) -> (r: bool)
        ensures
            r == (self.kind is EOF),
    {
        matches!(self.kind, TokenKind::EOF)
    }

    pub fn is_newline(&self) -> (r: bool)
        ensures
            r == (self.kind is Newline),
    {
        matches!(self.kind, TokenKind::Newline)
    }
}

/// Whether the characters of `s` are exactly those of `t`.
pub fn same_text(s: &str, t: &str) -> (r: bool)
    ensures
        r == (s@ == t@),
{
    let a = chars_of(s);
    let b = chars_of(t);
    if a.len() != b.len() {
        return false;
    }
    let mut i: usize = 0;
    while i < a.len()
        invariant
            a@ == s@,
            b@ == t@,
            a@.len() == b@.len(),
            i <= a@.len(),
            forall|j: int| 0 <= j < i ==> a@[j] == b@[j],
        decreases a@.len() - i,
    {
        if a[i] != b[i] {
            assert(a@[i as int] != b@[i as int]);
            return false;
        }
        i += 1;
    }
    assert(a@ =~= b@);
    true
}

/// Looks a word up in the keyword table.
pub fn keyword(s: &str) -> (r: Option<TokenKind>)
    ensures
        r == keyword_of(s@),
{
    if same_text(s, "package") {
        return Some(TokenKind::KwPackage);
    }
    if same_text(s, "import") {
        return Some(TokenKind::KwImport);
    }
    if same_text(s, "func") {
        return Some(TokenKind::KwFunc);
    }
    if same_text(s, "var") {
        return Some(TokenKind::KwVar);
    }
    if same_text(s, "const") {
        return Some(TokenKind::KwConst);
    }
    if same_text(s, "type") {
        return Some(TokenKind::KwType);
    }
    if same_text(s, "return") {
        return Some(TokenKind::KwReturn);
    }
    if same_text(s, "if") {
        return Some(TokenKind::KwIf);
    }
    if same_text(s, "else") {
        return Some(TokenKind::KwElse);
    }
    if same_text(s, "for") {
        return Some(TokenKind::KwFor);
    }
    if same_text(s, "range") {
        return Some(TokenKind::KwRange);
    }
    if same_text(s, "switch") {
        return Some(TokenKind::KwSwitch);
    }
    if same_text(s, "case") {
        return Some(TokenKind::KwCase);
    }
    if same_text(s, "default") {
        return Some(TokenKind::KwDefault);
    }
    if same_text(s, "fallthrough") {
        return Some(TokenKind::KwFallthrough);
    }
    if same_text(s, "break") {
        return Some(TokenKind::KwBreak);
    }
    if same_text(s, "continue") {
        return Some(TokenKind::KwContinue);
    }
    if same_text(s, "goto") {
        return Some(TokenKind::KwGoto);
    }
    if same_text(s, "defer") {
        return Some(TokenKind::KwDefer);
    }
    if same_text(s, "go") {
        return Some(TokenKind::KwGo);
    }
    if same_text(s, "select") {
        return Some(TokenKind::KwSelect);
    }
    if same_text(s, "map") {
        return Some(TokenKind::KwMap);
    }
    if same_text(s, "struct") {
        return Some(TokenKind::KwStruct);
    }
    if same_text(s, "interface") {
        return Some(TokenKind::KwInterface);
    }
    if same_text(s, "chan") {
        return Some(TokenKind::KwChan);
    }
    if same_text(s, "nil") {
        return Some(TokenKind::KwNil);
    }
    if same_text(s, "true") {
        return Some(TokenKind::LitBool(true));
    }
    if same_text(s, "false") {
        return Some(TokenKind::LitBool(false));
    }
    None
}


/// Whether `t` is spelled by `c` followed by the look-ahead characters `second` and `third`.
pub open spec fn spelled_by(t: Seq<char>, c: char, second: Option<char>, third: Option<char>) -> bool {
    &&& 1 <= t.len() <= 3
    &&& t[0] == c
    &&& t.len() >= 2 ==> second == Some(t[1])
    &&& t.len() >= 3 ==> third == Some(t[2])
}

/// The operator or punctuation mark that starts with `c`, taking the longest
/// spelling that the look-ahead `second`, `third` allows, and its length.
pub fn punct_kind(c: char, second: Option<char>, third: Option<char>) -> (r: Option<(TokenKind, usize)>)
    ensures
        r matches Some((k, n)) ==> n == op_text(k).len() && spelled_by(op_text(k), c, second, third),
        r matches Some((k, n)) ==> forall|j: TokenKind|
            spelled_by(#[trigger] op_text(j), c, second, third) ==> op_text(j).len() <= n,
        r is None ==> forall|j: TokenKind| #[trigger] op_text(j).len() == 0 || op_text(j)[0] != c,
{
    match (c, second, third) {
        ('+', Some('='), _) => Some((TokenKind::PlusEq, 2)),
        ('+', Some('+'), _) => Some((TokenKind::Inc, 2)),
        ('+', _, _) => Some((TokenKind::Plus, 1)),
        ('-', Some('='), _) => Some((TokenKind::MinusEq, 2)),
        ('-', Some('-'), _) => Some((TokenKind::Dec, 2)),
        ('-', _, _) => Some((TokenKind::Minus, 1)),
        ('*', Some('='), _) => Some((TokenKind::StarEq, 2)),
        ('*', _, _) => Some((TokenKind::Star, 1)),
        ('/', Some('='), _) => Some((TokenKind::SlashEq, 2)),
        ('/', _, _) => Some((TokenKind::Slash, 1)),
        ('%', Some('='), _) => Some((TokenKind::PercentEq, 2)),
        ('%', _, _) => Some((TokenKind::Percent, 1)),
        ('&', Some('^'), Some('=')) => Some((TokenKind::AmpCaretEq, 3)),
        ('&', Some('^'), _) => Some((TokenKind::AmpCaret, 2)),
        ('&', Some('='), _) => Some((TokenKind::AmpEq, 2)),
        ('&', Some('&'), _) => Some((TokenKind::AndAnd, 2)),
        ('&', _, _) => Some((TokenKind::Amp, 1)),
        ('|', Some('='), _) => Some((TokenKind::PipeEq, 2)),
        ('|', Some('|'), _) => Some((TokenKind::OrOr, 2)),
        ('|', _, _) => Some((TokenKind::Pipe, 1)),
        ('^', Some('='), _) => Some((TokenKind::CaretEq, 2)),
        ('^', _, _) => Some((TokenKind::Caret, 1)),
        ('<', Some('<'), Some('=')) => Some((TokenKind::LShiftEq, 3)),
        ('<', Some('<'), _) => Some((TokenKind::LShift, 2)),
        ('<', Some('='), _) => Some((TokenKind::LtEq, 2)),
        ('<', Some('-'), _) => Some((TokenKind::Arrow, 2)),
        ('<', _, _) => Some((TokenKind::Lt, 1)),
        ('>', Some('>'), Some('=')) => Some((TokenKind::RShiftEq, 3)),
        ('>', Some('>'), _) => Some((TokenKind::RShift, 2)),
        ('>', Some('='), _) => Some((TokenKind::GtEq, 2)),
        ('>', _, _) => Some((TokenKind::Gt, 1)),
        ('=', Some('='), _) => Some((TokenKind::Eq, 2)),
        ('=', _, _) => Some((TokenKind::Assign, 1)),
        (':', Some('='), _) => Some((TokenKind::DeclAssign, 2)),
        (':', _, _) => Some((TokenKind::Colon, 1)),
        ('!', Some('='), _) => Some((TokenKind::NotEq, 2)),
        ('!', _, _) => Some((TokenKind::Bang, 1)),
        ('.', Some('.'), Some('.')) => Some((TokenKind::Ellipsis, 3)),
        ('.', _, _) => Some((TokenKind::Dot, 1)),
        (',', _, _) => Some((TokenKind::Comma, 1)),
        (';', _, _) => Some((TokenKind::Semicolon, 1)),
        ('(', _, _) => Some((TokenKind::LParen, 1)),
        (')', _, _) => Some((TokenKind::RParen, 1)),
        ('{', _, _) => Some((TokenKind::LBrace, 1)),
        ('}', _, _) => Some((TokenKind::RBrace, 1)),
        ('[', _, _) => Some((TokenKind::LBracket, 1)),
        (']', _, _) => Some((TokenKind::RBracket, 1)),
        _ => None,
    }
}

} // verus!
