use vstd::prelude::*;
use vstd::string::*;

verus! {

/// A lexical category. `Identifier`, `Stringy` and `Number` carry the text that
/// was scanned: the name, the contents between the quotes, and the decimal
/// literal exactly as written.
#[derive(Debug)]
pub enum TokenType {
    // Single-character tokens.
    LeftParen,
    RightParen,
    LeftBrace,
    RightBrace,
    Comma,
    Dot,
    Minus,
    Plus,
    Semicolon,
    Slash,
    Star,
    // One or two character tokens.
    Bang,
    BangEqual,
    Equal,
    EqualEqual,
    Greater,
    GreaterEqual,
    Less,
    LessEqual,
    // Literals.
    Identifier(String),
    Stringy(String),
    Number(String),
    // Keywords.
    And,
    Class,
    Else,
    False,
    Fun,
    For,
    If,
    Nil,
    Or,
    Print,
    Return,
    Super,
    This,
    True,
    Var,
    While,
    // End of input.
    Eof,
}

/// Two categories are the same when their variants are, whatever the payload.
pub open spec fn same_category(a: TokenType, b: TokenType) -> bool {
    match (a, b) {
        (TokenType::Identifier(_), TokenType::Identifier(_)) => true,
        (TokenType::Stringy(_), TokenType::Stringy(_)) => true,
        (TokenType::Number(_), TokenType::Number(_)) => true,
        _ => a == b,
    }
}

impl PartialEq for TokenType {
    /// Category equality: the payload of a literal category is not compared.
    fn eq(&self, other: &TokenType) -> (r: bool) {
        matches!(
            (self, other),
            (TokenType::LeftParen, TokenType::LeftParen)
                | (TokenType::RightParen, TokenType::RightParen)
                | (TokenType::LeftBrace, TokenType::LeftBrace)
                | (TokenType::RightBrace, TokenType::RightBrace)
                | (TokenType::Comma, TokenType::Comma)
                | (TokenType::Dot, TokenType::Dot)
                | (TokenType::Minus, TokenType::Minus)
                | (TokenType::Plus, TokenType::Plus)
                | (TokenType::Semicolon, TokenType::Semicolon)
                | (TokenType::Slash, TokenType::Slash)
                | (TokenType::Star, TokenType::Star)
                | (TokenType::Bang, TokenType::Bang)
                | (TokenType::BangEqual, TokenType::BangEqual)
                | (TokenType::Equal, TokenType::Equal)
                | (TokenType::EqualEqual, TokenType::EqualEqual)
                | (TokenType::Greater, TokenType::Greater)
                | (TokenType::GreaterEqual, TokenType::GreaterEqual)
                | (TokenType::Less, TokenType::Less)
                | (TokenType::LessEqual, TokenType::LessEqual)
                | (TokenType::Identifier(_), TokenType::Identifier(_))
                | (TokenType::Stringy(_), TokenType::Stringy(_))
                | (TokenType::Number(_), TokenType::Number(_))
                | (TokenType::And, TokenType::And)
                | (TokenType::Class, TokenType::Class)
                | (TokenType::Else, TokenType::Else)
                | (TokenType::False, TokenType::False)
                | (TokenType::Fun, TokenType::Fun)
                | (TokenType::For, TokenType::For)
                | (TokenType::If, TokenType::If)
                | (TokenType::Nil, TokenType::Nil)
                | (TokenType::Or, TokenType::Or)
                | (TokenType::Print, TokenType::Print)
                | (TokenType::Return, TokenType::Return)
                | (TokenType::Super, TokenType::Super)
                | (TokenType::This, TokenType::This)
                | (TokenType::True, TokenType::True)
                | (TokenType::Var, TokenType::Var)
                | (TokenType::While, TokenType::While)
                | (TokenType::Eof, TokenType::Eof)
        )
    }
}

impl vstd::std_specs::cmp::PartialEqSpecImpl for TokenType {
    open spec fn obeys_eq_spec() -> bool {
        true
    }

    open spec fn eq_spec(&self, other: &TokenType) -> bool {
        same_category(*self, *other)
    }
}

impl Clone for TokenType {
    fn clone(&self) -> (r: TokenType)
        ensures
            r == *self,
    {
        match self {
            TokenType::Identifier(s) => TokenType::Identifier(s.clone()),
            TokenType::Stringy(s) => TokenType::Stringy(s.clone()),
            TokenType::Number(s) => TokenType::Number(s.clone()),
            TokenType::LeftParen => TokenType::LeftParen,
            TokenType::RightParen => TokenType::RightParen,
            TokenType::LeftBrace => TokenType::LeftBrace,
            TokenType::RightBrace => TokenType::RightBrace,
            TokenType::Comma => TokenType::Comma,
            TokenType::Dot => TokenType::Dot,
            TokenType::Minus => TokenType::Minus,
            TokenType::Plus => TokenType::Plus,
            TokenType::Semicolon => TokenType::Semicolon,
            TokenType::Slash => TokenType::Slash,
            TokenType::Star => TokenType::Star,
            TokenType::Bang => TokenType::Bang,
            TokenType::BangEqual => TokenType::BangEqual,
            TokenType::Equal => TokenType::Equal,
            TokenType::EqualEqual => TokenType::EqualEqual,
            TokenType::Greater => TokenType::Greater,
            TokenType::GreaterEqual => TokenType::GreaterEqual,
            TokenType::Less => TokenType::Less,
            TokenType::LessEqual => TokenType::LessEqual,
            TokenType::And => TokenType::And,
            TokenType::Class => TokenType::Class,
            TokenType::Else => TokenType::Else,
            TokenType::False => TokenType::False,
            TokenType::Fun => TokenType::Fun,
            TokenType::For => TokenType::For,
            TokenType::If => TokenType::If,
            TokenType::Nil => TokenType::Nil,
            TokenType::Or => TokenType::Or,
            TokenType::Print => TokenType::Print,
            TokenType::Return => TokenType::Return,
            TokenType::Super => TokenType::Super,
            TokenType::This => TokenType::This,
            TokenType::True => TokenType::True,
            TokenType::Var => TokenType::Var,
            TokenType::While => TokenType::While,
            TokenType::Eof => TokenType::Eof,
        }
    }
}

/// The text of a category: the symbol of punctuation and operators, the word of
/// a keyword, and for a literal its kind with the text it carries.
pub open spec fn category_text(t: TokenType) -> Seq<char> {
    match t {
            TokenType::Identifier(name) => "Identifier("@ + name@ + ")"@,
            TokenType::Stringy(value) => "String(\""@ + value@ + "\")"@,
            TokenType::Number(digits) => "Number("@ + digits@ + ")"@,
            TokenType::LeftParen => "("@,
            TokenType::RightParen => ")"@,
            TokenType::LeftBrace => "{"@,
            TokenType::RightBrace => "}"@,
            TokenType::Comma => ","@,
            TokenType::Dot => "."@,
            TokenType::Minus => "-"@,
            TokenType::Plus => "+"@,
            TokenType::Semicolon => ";"@,
            TokenType::Slash => "/"@,
            TokenType::Star => "*"@,
            TokenType::Bang => "!"@,
            TokenType::BangEqual => "!="@,
            TokenType::Equal => "="@,
            TokenType::EqualEqual => "=="@,
            TokenType::Greater => ">"@,
            TokenType::GreaterEqual => ">="@,
            TokenType::Less => "<"@,
            TokenType::LessEqual => "<="@,
            TokenType::And => "and"@,
            TokenType::Class => "class"@,
            TokenType::Else => "else"@,
            TokenType::False => "false"@,
            TokenType::Fun => "fun"@,
            TokenType::For => "for"@,
            TokenType::If => "if"@,
            TokenType::Nil => "nil"@,
            TokenType::Or => "or"@,
            TokenType::Print => "print"@,
            TokenType::Return => "return"@,
            TokenType::Super => "super"@,
            TokenType::This => "this"@,
            TokenType::True => "true"@,
            TokenType::Var => "var"@,
            TokenType::While => "while"@,
            TokenType::Eof => "EOF"@,
    }
}

/// The keyword table: the category of each of the reserved words.
pub open spec fn keyword_of(s: Seq<char>) -> Option<TokenType> {
    if s == "and"@ {
        Some(TokenType::And)
    } else if s == "class"@ {
        Some(TokenType::Class)
    } else if s == "else"@ {
        Some(TokenType::Else)
    } else if s == "false"@ {
        Some(TokenType::False)
    } else if s == "fun"@ {
        Some(TokenType::Fun)
    } else if s == "for"@ {
        Some(TokenType::For)
    } else if s == "if"@ {
        Some(TokenType::If)
    } else if s == "nil"@ {
        Some(TokenType::Nil)
    } else if s == "or"@ {
        Some(TokenType::Or)
    } else if s == "print"@ {
        Some(TokenType::Print)
    } else if s == "return"@ {
        Some(TokenType::Return)
    } else if s == "super"@ {
        Some(TokenType::Super)
    } else if s == "this"@ {
        Some(TokenType::This)
    } else if s == "true"@ {
        Some(TokenType::True)
    } else if s == "var"@ {
        Some(TokenType::Var)
    } else if s == "while"@ {
        Some(TokenType::While)
    } else {
        None
    }
}

/// Whether two strings hold the same characters.
fn text_is(a: &str, b: &str) -> (r: bool)
    ensures
        r == (a@ == b@),
{
    let n = a.unicode_len();
    if n != b.unicode_len() {
        return false;
    }
    let mut i: usize = 0;
    while i < n
        invariant
            n == a@.len(),
            n == b@.len(),
            i <= n,
            a@.subrange(0, i as int) == b@.subrange(0, i as int),
        decreases n - i,
    {
        if a.get_char(i) != b.get_char(i) {
            assert(a@[i as int] != b@[i as int]);
            return false;
        }
        assert(a@.subrange(0, i + 1) =~= a@.subrange(0, i as int).push(a@[i as int]));
        assert(b@.subrange(0, i + 1) =~= b@.subrange(0, i as int).push(b@[i as int]));
        i = i + 1;
    }
    assert(a@ =~= a@.subrange(0, n as int));
    assert(b@ =~= b@.subrange(0, n as int));
    true
}

impl TokenType {
    /// The category of a reserved word, or `None` for any other text.
    pub fn get_keyword(keyword: &str) -> (r: Option<TokenType>)
        ensures
            r == keyword_of(keyword@),
    {
        if text_is(keyword, "and") {
            return Some(TokenType::And);
        }
        if text_is(keyword, "class") {
            return Some(TokenType::Class);
        }
        if text_is(keyword, "else") {
            return Some(TokenType::Else);
        }
        if text_is(keyword, "false") {
            return Some(TokenType::False);
        }
        if text_is(keyword, "fun") {
            return Some(TokenType::Fun);
        }
        if text_is(keyword, "for") {
            return Some(TokenType::For);
        }
        if text_is(keyword, "if") {
            return Some(TokenType::If);
        }
        if text_is(keyword, "nil") {
            return Some(TokenType::Nil);
        }
        if text_is(keyword, "or") {
            return Some(TokenType::Or);
        }
        if text_is(keyword, "print") {
            return Some(TokenType::Print);
        }
        if text_is(keyword, "return") {
            return Some(TokenType::Return);
        }
        if text_is(keyword, "super") {
            return Some(TokenType::Super);
        }
        if text_is(keyword, "this") {
            return Some(TokenType::This);
        }
        if text_is(keyword, "true") {
            return Some(TokenType::True);
        }
        if text_is(keyword, "var") {
            return Some(TokenType::Var);
        }
        if text_is(keyword, "while") {
            return Some(TokenType::While);
        }
        None
    }

    /// The text of this category (see `category_text`): operators give their
    /// symbol, which is what the expression printer writes.
    pub fn text(&self) -> (r: String)
        ensures
            r@ == category_text(*self),
    {
        match self {
            TokenType::Identifier(name) => {
                let mut r = "Identifier(".to_owned();
                r.append(name.as_str());
                r.append(")");
                r
            },
            TokenType::Stringy(value) => {
                let mut r = "String(\"".to_owned();
                r.append(value.as_str());
                r.append("\")");
                r
            },
            TokenType::Number(digits) => {
                let mut r = "Number(".to_owned();
                r.append(digits.as_str());
                r.append(")");
                r
            },
            TokenType::LeftParen => "(".to_owned(),
            TokenType::RightParen => ")".to_owned(),
            TokenType::LeftBrace => "{".to_owned(),
            TokenType::RightBrace => "}".to_owned(),
            TokenType::Comma => ",".to_owned(),
            TokenType::Dot => ".".to_owned(),
            TokenType::Minus => "-".to_owned(),
            TokenType::Plus => "+".to_owned(),
            TokenType::Semicolon => ";".to_owned(),
            TokenType::Slash => "/".to_owned(),
            TokenType::Star => "*".to_owned(),
            TokenType::Bang => "!".to_owned(),
            TokenType::BangEqual => "!=".to_owned(),
            TokenType::Equal => "=".to_owned(),
            TokenType::EqualEqual => "==".to_owned(),
            TokenType::Greater => ">".to_owned(),
            TokenType::GreaterEqual => ">=".to_owned(),
            TokenType::Less => "<".to_owned(),
            TokenType::LessEqual => "<=".to_owned(),
            TokenType::And => "and".to_owned(),
            TokenType::Class => "class".to_owned(),
            TokenType::Else => "else".to_owned(),
            TokenType::False => "false".to_owned(),
            TokenType::Fun => "fun".to_owned(),
            TokenType::For => "for".to_owned(),
            TokenType::If => "if".to_owned(),
            TokenType::Nil => "nil".to_owned(),
            TokenType::Or => "or".to_owned(),
            TokenType::Print => "print".to_owned(),
            TokenType::Return => "return".to_owned(),
            TokenType::Super => "super".to_owned(),
            TokenType::This => "this".to_owned(),
            TokenType::True => "true".to_owned(),
            TokenType::Var => "var".to_owned(),
            TokenType::While => "while".to_owned(),
            TokenType::Eof => "EOF".to_owned(),
        }
    }
}

/// A token: its category, with any payload, and the line it was read on.
#[derive(Debug)]
pub struct Token {
    pub token_type: TokenType,
    pub line: usize,
}

impl Token {
    pub fn new(token_type: TokenType, line: usize) -> (r: Token)
        ensures
            r.token_type == token_type,
            r.line == line,
    {
        Token { token_type, line }
    }
}

impl Clone for Token {
    fn clone(&self) -> (r: Token)
        ensures
            r == *self,
    {
        Token { token_type: self.token_type.clone(), line: self.line }
    }
}

} // verus!
