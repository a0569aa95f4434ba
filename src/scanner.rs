use vstd::prelude::*;
use vstd::std_specs::iter::IteratorSpec;
use vstd::string::*;

use crate::token::{keyword_of, same_category, Token, TokenType};

verus! {

/// A lexical error. Scanning goes on after one: the offending character, or
/// the unterminated string, gives no token.
#[derive(Debug, Clone, Copy, PartialEq, Eq, Structural)]
pub enum Diagnostic {
    UnexpectedCharacter { line: usize, character: char },
    UnterminatedString { line: usize },
}

/// What a token stands for, with its payload as text.
pub enum Lexeme {
    /// A category without payload.
    Fixed(TokenType),
    Identifier(Seq<char>),
    Str(Seq<char>),
    Number(Seq<char>),
}

pub open spec fn lexeme_of(t: TokenType) -> Lexeme {
    match t {
        TokenType::Identifier(name) => Lexeme::Identifier(name@),
        TokenType::Stringy(value) => Lexeme::Str(value@),
        TokenType::Number(digits) => Lexeme::Number(digits@),
        _ => Lexeme::Fixed(t),
    }
}

impl View for Token {
    type V = (Lexeme, nat);

    open spec fn view(&self) -> (Lexeme, nat) {
        (lexeme_of(self.token_type), self.line as nat)
    }
}

pub open spec fn views(ts: Seq<Token>) -> Seq<(Lexeme, nat)> {
    ts.map_values(|t: Token| t@)
}

pub open spec fn is_digit(c: char) -> bool {
    '0' <= c && c <= '9'
}

pub open spec fn is_alpha(c: char) -> bool {
    ('a' <= c && c <= 'z') || ('A' <= c && c <= 'Z')
}

pub open spec fn is_alphanumeric(c: char) -> bool {
    is_digit(c) || is_alpha(c)
}

/// The characters that a run of one kind takes in.
pub enum Span {
    Digits,
    Word,
    Until(char),
}

pub open spec fn continues(kind: Span, c: char) -> bool {
    match kind {
        Span::Digits => is_digit(c),
        Span::Word => is_alphanumeric(c),
        Span::Until(stop) => c != stop,
    }
}

/// The end of the longest run of `kind` that starts at `i`.
pub open spec fn span_end(s: Seq<char>, i: int, kind: Span) -> int
    decreases s.len() - i,
{
    if 0 <= i < s.len() && continues(kind, s[i]) {
        span_end(s, i + 1, kind)
    } else {
        i
    }
}

/// The number of line breaks in `s`.
pub open spec fn newlines(s: Seq<char>) -> nat
    decreases s.len(),
{
    if s.len() == 0 {
        0
    } else {
        newlines(s.drop_last()) + if s.last() == '\n' {
            1nat
        } else {
            0nat
        }
    }
}

/// The category of a character that is a token by itself.
pub open spec fn single_char_token(c: char) -> Option<TokenType> {
    if c == '(' {
        Some(TokenType::LeftParen)
    } else if c == ')' {
        Some(TokenType::RightParen)
    } else if c == '{' {
        Some(TokenType::LeftBrace)
    } else if c == '}' {
        Some(TokenType::RightBrace)
    } else if c == ',' {
        Some(TokenType::Comma)
    } else if c == '.' {
        Some(TokenType::Dot)
    } else if c == '-' {
        Some(TokenType::Minus)
    } else if c == '+' {
        Some(TokenType::Plus)
    } else if c == ';' {
        Some(TokenType::Semicolon)
    } else if c == '*' {
        Some(TokenType::Star)
    } else {
        None
    }
}

/// For an operator character that may take a following `=`: the category of
/// the operator alone, and the category with the `=`.
pub open spec fn operator_pair(c: char) -> Option<(TokenType, TokenType)> {
    if c == '!' {
        Some((TokenType::Bang, TokenType::BangEqual))
    } else if c == '=' {
        Some((TokenType::Equal, TokenType::EqualEqual))
    } else if c == '<' {
        Some((TokenType::Less, TokenType::LessEqual))
    } else if c == '>' {
        Some((TokenType::Greater, TokenType::GreaterEqual))
    } else {
        None
    }
}

/// The outcome of reading one lexeme: where the next one starts, the line
/// reached, and the token or the diagnostic it gives, if any.
pub struct Step {
    pub next: int,
    pub line: nat,
    pub lexeme: Option<Lexeme>,
    pub note: Option<Diagnostic>,
}

/// The end of a number that starts at `pos`: its digits, then a `.` and more
/// digits only where a digit follows the `.`.
pub open spec fn number_end(s: Seq<char>, pos: int) -> int {
    let e = span_end(s, pos + 1, Span::Digits);
    if e + 1 < s.len() && s[e] == '.' && is_digit(s[e + 1]) {
        span_end(s, e + 1, Span::Digits)
    } else {
        e
    }
}

/// The token of a word: a keyword's category, else an identifier.
pub open spec fn word_lexeme(text: Seq<char>) -> Lexeme {
    match keyword_of(text) {
        Some(k) => Lexeme::Fixed(k),
        None => Lexeme::Identifier(text),
    }
}

/// Reading a string literal whose opening quote stands at `pos`.
pub open spec fn string_step(s: Seq<char>, pos: int, line: nat) -> Step {
    let close = span_end(s, pos + 1, Span::Until('"'));
    if close >= s.len() {
        let l = line + newlines(s.subrange(pos + 1, s.len() as int));
        Step {
            next: s.len() as int,
            line: l,
            lexeme: None,
            note: Some(Diagnostic::UnterminatedString { line: l as usize }),
        }
    } else {
        Step {
            next: close + 1,
            line: line + newlines(s.subrange(pos + 1, close)),
            lexeme: Some(Lexeme::Str(s.subrange(pos + 1, close))),
            note: None,
        }
    }
}

pub open spec fn plain(next: int, line: nat, lexeme: Option<Lexeme>) -> Step {
    Step { next, line, lexeme, note: None }
}

/// Reading the lexeme that starts at `pos`, on line `line`.
pub open spec fn step(s: Seq<char>, pos: int, line: nat) -> Step {
    let c = s[pos];
    if single_char_token(c) is Some {
        plain(pos + 1, line, Some(Lexeme::Fixed(single_char_token(c)->0)))
    } else if let Some((alone, with_equal)) = operator_pair(c) {
        if pos + 1 < s.len() && s[pos + 1] == '=' {
            plain(pos + 2, line, Some(Lexeme::Fixed(with_equal)))
        } else {
            plain(pos + 1, line, Some(Lexeme::Fixed(alone)))
        }
    } else if c == '/' {
        if pos + 1 < s.len() && s[pos + 1] == '/' {
            plain(span_end(s, pos + 2, Span::Until('\n')), line, None)
        } else {
            plain(pos + 1, line, Some(Lexeme::Fixed(TokenType::Slash)))
        }
    } else if c == '\n' {
        plain(pos + 1, line + 1, None)
    } else if c == ' ' || c == '\r' || c == '\t' {
        plain(pos + 1, line, None)
    } else if c == '"' {
        string_step(s, pos, line)
    } else if is_digit(c) {
        let e = number_end(s, pos);
        plain(e, line, Some(Lexeme::Number(s.subrange(pos, e))))
    } else if is_alpha(c) {
        let e = span_end(s, pos + 1, Span::Word);
        plain(e, line, Some(word_lexeme(s.subrange(pos, e))))
    } else {
        Step {
            next: pos + 1,
            line,
            lexeme: None,
            note: Some(Diagnostic::UnexpectedCharacter { line: line as usize, character: c }),
        }
    }
}

/// The token that a step gives, on the line the step reaches.
pub open spec fn emitted(st: Step) -> Seq<(Lexeme, nat)> {
    match st.lexeme {
        Some(x) => seq![(x, st.line)],
        None => Seq::empty(),
    }
}

/// The diagnostic that a step gives.
pub open spec fn noted(st: Step) -> Seq<Diagnostic> {
    match st.note {
        Some(d) => seq![d],
        None => Seq::empty(),
    }
}

/// The tokens (with their lines) and the diagnostics of scanning `s` from
/// `pos` on, on line `line`; the tokens end with the end-of-input token.
pub open spec fn scan_from(s: Seq<char>, pos: int, line: nat) -> (Seq<(Lexeme, nat)>, Seq<Diagnostic>)
    decreases s.len() - pos,
    via scan_from_decreases
{
    if pos < 0 || pos >= s.len() {
        (seq![(Lexeme::Fixed(TokenType::Eof), line)], Seq::empty())
    } else {
        let st = step(s, pos, line);
        let rest = scan_from(s, st.next, st.line);
        (emitted(st) + rest.0, noted(st) + rest.1)
    }
}

#[via_fn]
proof fn scan_from_decreases(s: Seq<char>, pos: int, line: nat) {
    if 0 <= pos < s.len() {
        lemma_step_advances(s, pos, line);
    }
}

/// The tokens and diagnostics of a whole source text.
pub open spec fn scan(s: Seq<char>) -> (Seq<(Lexeme, nat)>, Seq<Diagnostic>) {
    scan_from(s, 0, 1)
}

proof fn lemma_span_end_bounds(s: Seq<char>, i: int, kind: Span)
    requires
        0 <= i <= s.len(),
    ensures
        i <= span_end(s, i, kind) <= s.len(),
    decreases s.len() - i,
{
    if i < s.len() && continues(kind, s[i]) {
        lemma_span_end_bounds(s, i + 1, kind);
    }
}

/// A run found by walking: `j` is the end of the run of `kind` from `i` when
/// every character before it continues the run and the one at `j` does not.
pub(crate) proof fn lemma_span_end_at(s: Seq<char>, i: int, j: int, kind: Span)
    requires
        0 <= i <= j <= s.len(),
        forall|k: int| i <= k < j ==> continues(kind, #[trigger] s[k]),
        j == s.len() || !continues(kind, s[j]),
    ensures
        span_end(s, i, kind) == j,
    decreases j - i,
{
    if i < j {
        lemma_span_end_at(s, i + 1, j, kind);
    }
}

proof fn lemma_step_advances(s: Seq<char>, pos: int, line: nat)
    requires
        0 <= pos < s.len(),
    ensures
        pos < step(s, pos, line).next <= s.len(),
{
    lemma_span_end_bounds(s, pos + 1, Span::Digits);
    lemma_span_end_bounds(s, pos + 1, Span::Word);
    lemma_span_end_bounds(s, pos + 1, Span::Until('"'));
    if pos + 2 <= s.len() {
        lemma_span_end_bounds(s, pos + 2, Span::Until('\n'));
    }
    let e = span_end(s, pos + 1, Span::Digits);
    if e + 1 < s.len() {
        lemma_span_end_bounds(s, e + 1, Span::Digits);
    }
}

/// Scanning always ends: from any position, it gives a token sequence that
/// ends with exactly one end-of-input token.
pub proof fn lemma_scan_ends_with_eof(s: Seq<char>, pos: int, line: nat)
    ensures
        scan_from(s, pos, line).0.len() >= 1,
        scan_from(s, pos, line).0.last().0 == Lexeme::Fixed(TokenType::Eof),
        forall|i: int|
            0 <= i < scan_from(s, pos, line).0.len() - 1 ==> (#[trigger] scan_from(s, pos, line).0[i]).0
                != Lexeme::Fixed(TokenType::Eof),
    decreases s.len() - pos,
{
    if 0 <= pos < s.len() {
        lemma_step_advances(s, pos, line);
        let st = step(s, pos, line);
        lemma_scan_ends_with_eof(s, st.next, st.line);
        let rest = scan_from(s, st.next, st.line).0;
        let all = scan_from(s, pos, line).0;
        assert(all == emitted(st) + rest);
        assert forall|i: int| 0 <= i < all.len() - 1 implies (#[trigger] all[i]).0 != Lexeme::Fixed(
            TokenType::Eof,
        ) by {
            if i >= emitted(st).len() {
                assert(all[i] == rest[i - emitted(st).len()]);
            }
        }
    }
}

/// Maximal munch: `!`, `=`, `<` or `>` followed by `=` is read as one
/// two-character operator, and scanning goes on after the `=`.
pub proof fn lemma_maximal_munch(s: Seq<char>, pos: int, line: nat)
    requires
        0 <= pos,
        pos + 1 < s.len(),
        operator_pair(s[pos]) is Some,
        s[pos + 1] == '=',
    ensures
        operator_pair(s[pos]) matches Some((_, with_equal)) && scan_from(s, pos, line).0 == seq![
            (Lexeme::Fixed(with_equal), line),
        ] + scan_from(s, pos + 2, line).0,
        scan_from(s, pos, line).1 == scan_from(s, pos + 2, line).1,
{
    assert(scan_from(s, pos, line).1 =~= scan_from(s, pos + 2, line).1);
}

/// Category equality ignores the payload: two identifiers are of one
/// category whatever their names, while each token keeps its own name.
pub proof fn lemma_category_ignores_payload(a: String, b: String)
    ensures
        same_category(TokenType::Identifier(a), TokenType::Identifier(b)),
        lexeme_of(TokenType::Identifier(a)) == Lexeme::Identifier(a@),
        a@ != b@ ==> lexeme_of(TokenType::Identifier(a)) != lexeme_of(TokenType::Identifier(b)),
{
}

proof fn lemma_views_push(ts: Seq<Token>, t: Token)
    ensures
        views(ts.push(t)) == views(ts) + seq![t@],
{
    assert(views(ts.push(t)) =~= views(ts) + seq![t@]);
}

proof fn lemma_newlines_push(s: Seq<char>, i: int, j: int)
    requires
        0 <= i <= j < s.len(),
    ensures
        newlines(s.subrange(i, j + 1)) == newlines(s.subrange(i, j)) + if s[j] == '\n' {
            1nat
        } else {
            0nat
        },
        newlines(s.subrange(i, j)) <= j - i,
{
    assert(s.subrange(i, j + 1).drop_last() =~= s.subrange(i, j));
    lemma_newlines_len(s.subrange(i, j));
}

proof fn lemma_newlines_len(s: Seq<char>)
    ensures
        newlines(s) <= s.len(),
    decreases s.len(),
{
    if s.len() > 0 {
        lemma_newlines_len(s.drop_last());
    }
}

fn is_digit_char(c: char) -> (r: bool)
    ensures
        r == is_digit(c),
{
    '0' <= c && c <= '9'
}

fn is_alpha_char(c: char) -> (r: bool)
    ensures
        r == is_alpha(c),
{
    ('a' <= c && c <= 'z') || ('A' <= c && c <= 'Z')
}

fn is_alphanumeric_char(c: char) -> (r: bool)
    ensures
        r == is_alphanumeric(c),
{
    is_digit_char(c) || is_alpha_char(c)
}

/// The characters of a string, in order.
pub(crate) fn chars_of(s: &str) -> (r: Vec<char>)
    ensures
        r@ == s@,
{
    broadcast use vstd::string::group_string_axioms;

    let mut out: Vec<char> = Vec::new();
    let mut it = s.chars();
    loop
        invariant
            out@ + it.remaining() == s@,
            it.decrease() is Some,
        ensures
            out@ == s@,
        decreases it.decrease()->0,
    {
        match it.next() {
            Some(c) => {
                out.push(c);
            },
            None => {
                assert(out@ =~= s@);
                break;
            },
        }
    }
    out
}

/// A single-pass scanner over a source text. `tokens` and `diagnostics`
/// collect what it has read so far.
pub struct Scanner {
    src: String,
    chars: Vec<char>,
    start: usize,
    current: usize,
    line: usize,
    pub tokens: Vec<Token>,
    pub diagnostics: Vec<Diagnostic>,
}

impl Scanner {
    /// The source text.
    pub closed spec fn source(&self) -> Seq<char> {
        self.chars@
    }

    /// Where the next lexeme starts.
    pub closed spec fn cursor(&self) -> int {
        self.current as int
    }

    /// The line that the cursor stands on.
    pub closed spec fn at_line(&self) -> nat {
        self.line as nat
    }

    /// The tokens read so far.
    pub closed spec fn read(&self) -> Seq<Token> {
        self.tokens@
    }

    /// The diagnostics reported so far.
    pub closed spec fn reported(&self) -> Seq<Diagnostic> {
        self.diagnostics@
    }

    pub closed spec fn wf(&self) -> bool {
        &&& self.chars@ == self.src@
        &&& self.current <= self.chars@.len()
        &&& self.chars@.len() < usize::MAX
        &&& 1 <= self.line <= self.current + 1
        &&& self.start <= self.current
    }

    /// The tokens read so far, for callers that must know what they hold.
    pub fn tokens(&self) -> (r: &Vec<Token>)
        ensures
            r@ == self.read(),
    {
        &self.tokens
    }

    /// The diagnostics reported so far.
    pub fn diagnostics(&self) -> (r: &Vec<Diagnostic>)
        ensures
            r@ == self.reported(),
    {
        &self.diagnostics
    }

    /// A scanner at the start of `src`, on line 1, that has read nothing.
    pub fn new(src: String) -> (r: Scanner)
        requires
            src@.len() < usize::MAX,
        ensures
            r.wf(),
            r.source() == src@,
            r.cursor() == 0,
            r.at_line() == 1,
            r.read() == Seq::<Token>::empty(),
            r.reported() == Seq::<Diagnostic>::empty(),
    {
        let chars = chars_of(src.as_str());
        Scanner { src, chars, start: 0, current: 0, line: 1, tokens: Vec::new(), diagnostics: Vec::new() }
    }

    /// Reads the rest of the source: each token and diagnostic of `scan_from`
    /// is appended, the end-of-input token last.
    pub fn scan_tokens(&mut self)
        requires
            old(self).wf(),
        ensures
            final(self).wf(),
            final(self).source() == old(self).source(),
            views(final(self).read()) == views(old(self).read()) + scan_from(
                old(self).source(),
                old(self).cursor(),
                old(self).at_line(),
            ).0,
            final(self).reported() == old(self).reported() + scan_from(
                old(self).source(),
                old(self).cursor(),
                old(self).at_line(),
            ).1,
    {
        let ghost s = self.chars@;
        let ghost whole = scan_from(s, self.current as int, self.line as nat);
        let ghost toks0 = views(self.tokens@);
        let ghost diags0 = self.diagnostics@;
        while !self.at_end()
            invariant
                self.wf(),
                self.chars@ == s,
                toks0 + whole.0 == views(self.tokens@) + scan_from(s, self.current as int, self.line as nat).0,
                diags0 + whole.1 == self.diagnostics@ + scan_from(s, self.current as int, self.line as nat).1,
            decreases s.len() - self.current,
        {
            self.start = self.current;
            proof {
                lemma_step_advances(s, self.current as int, self.line as nat);
            }
            self.scan_token();
            assert(toks0 + whole.0 =~= views(self.tokens@) + scan_from(s, self.current as int, self.line as nat).0);
            assert(diags0 + whole.1 =~= self.diagnostics@ + scan_from(s, self.current as int, self.line as nat).1);
        }
        let ghost before = self.tokens@;
        self.tokens.push(Token::new(TokenType::Eof, self.line));
        proof {
            lemma_views_push(before, Token { token_type: TokenType::Eof, line: self.line });
            assert(toks0 + whole.0 =~= views(self.tokens@));
            assert(diags0 + whole.1 =~= self.diagnostics@);
        }
    }

    /// Reads one lexeme, from the cursor on: the effect of `step`.
    fn scan_token(&mut self)
        requires
            old(self).wf(),
            old(self).current < old(self).chars@.len(),
            old(self).start == old(self).current,
        ensures
            final(self).wf(),
            final(self).chars@ == old(self).chars@,
            final(self).current == step(old(self).chars@, old(self).current as int, old(self).line as nat).next,
            final(self).line == step(old(self).chars@, old(self).current as int, old(self).line as nat).line,
            views(final(self).tokens@) == views(old(self).tokens@) + emitted(
                step(old(self).chars@, old(self).current as int, old(self).line as nat),
            ),
            final(self).diagnostics@ == old(self).diagnostics@ + noted(
                step(old(self).chars@, old(self).current as int, old(self).line as nat),
            ),
    {
        let ghost s = self.chars@;
        let ghost t0 = views(self.tokens@);
        let ghost d0 = self.diagnostics@;
        let c = self.advance();
        match c {
            '(' => self.add_token(TokenType::LeftParen),
            ')' => self.add_token(TokenType::RightParen),
            '{' => self.add_token(TokenType::LeftBrace),
            '}' => self.add_token(TokenType::RightBrace),
            ',' => self.add_token(TokenType::Comma),
            '.' => self.add_token(TokenType::Dot),
            '-' => self.add_token(TokenType::Minus),
            '+' => self.add_token(TokenType::Plus),
            ';' => self.add_token(TokenType::Semicolon),
            '*' => self.add_token(TokenType::Star),
            '!' => {
                let ttype = if self.match_advance('=') {
                    TokenType::BangEqual
                } else {
                    TokenType::Bang
                };
                self.add_token(ttype)
            },
            '=' => {
                let ttype = if self.match_advance('=') {
                    TokenType::EqualEqual
                } else {
                    TokenType::Equal
                };
                self.add_token(ttype)
            },
            '<' => {
                let ttype = if self.match_advance('=') {
                    TokenType::LessEqual
                } else {
                    TokenType::Less
                };
                self.add_token(ttype)
            },
            '>' => {
                let ttype = if self.match_advance('=') {
                    TokenType::GreaterEqual
                } else {
                    TokenType::Greater
                };
                self.add_token(ttype)
            },
            '/' => {
                if self.match_advance('/') {
                    let ghost from = self.current as int;
                    while self.peek() != '\n' && !self.at_end()
                        invariant
                            self.wf(),
                            self.chars@ == s,
                            from <= self.current,
                            self.line == old(self).line,
                            self.tokens@ == old(self).tokens@,
                            self.diagnostics@ == old(self).diagnostics@,
                            forall|k: int| from <= k < self.current ==> #[trigger] s[k] != '\n',
                        decreases s.len() - self.current,
                    {
                        self.advance();
                    }
                    proof {
                        lemma_span_end_at(s, from, self.current as int, Span::Until('\n'));
                    }
                } else {
                    self.add_token(TokenType::Slash)
                }
            },
            '\n' => self.line = self.line + 1,
            ' ' | '\r' | '\t' => {},
            '"' => self.handle_string(),
            _ => {
                if is_digit_char(c) {
                    self.handle_number();
                } else if is_alpha_char(c) {
                    self.handle_identifier();
                } else {
                    self.diagnostics.push(Diagnostic::UnexpectedCharacter { line: self.line, character: c });
                }
            },
        }
        assert(views(self.tokens@) =~= t0 + emitted(step(s, old(self).current as int, old(self).line as nat)));
        assert(self.diagnostics@ =~= d0 + noted(step(s, old(self).current as int, old(self).line as nat)));
    }

    fn at_end(&self) -> (r: bool)
        ensures
            r == (self.current >= self.chars@.len()),
    {
        self.current >= self.chars.len()
    }

    fn advance(&mut self) -> (c: char)
        requires
            old(self).wf(),
            old(self).current < old(self).chars@.len(),
        ensures
            c == old(self).chars@[old(self).current as int],
            final(self).current == old(self).current + 1,
            final(self).wf(),
            final(self).chars@ == old(self).chars@,
            final(self).src == old(self).src,
            final(self).start == old(self).start,
            final(self).line == old(self).line,
            final(self).tokens == old(self).tokens,
            final(self).diagnostics == old(self).diagnostics,
    {
        let c = self.chars[self.current];
        self.current = self.current + 1;
        c
    }

    fn add_token(&mut self, token_type: TokenType)
        ensures
            final(self).chars == old(self).chars,
            final(self).src == old(self).src,
            final(self).start == old(self).start,
            final(self).current == old(self).current,
            final(self).line == old(self).line,
            final(self).diagnostics@ == old(self).diagnostics@,
            views(final(self).tokens@) == views(old(self).tokens@) + seq![(lexeme_of(token_type), old(self).line as nat)],
    {
        let ghost before = self.tokens@;
        let t = Token::new(token_type, self.line);
        self.tokens.push(t);
        proof {
            lemma_views_push(before, t);
        }
    }

    /// Takes the character at the cursor if it is `expected`.
    fn match_advance(&mut self, expected: char) -> (r: bool)
        requires
            old(self).wf(),
        ensures
            r == (old(self).current < old(self).chars@.len() && old(self).chars@[old(self).current as int] == expected),
            final(self).current == old(self).current + if r { 1int } else { 0int },
            final(self).wf(),
            final(self).chars@ == old(self).chars@,
            final(self).src == old(self).src,
            final(self).start == old(self).start,
            final(self).line == old(self).line,
            final(self).tokens == old(self).tokens,
            final(self).diagnostics == old(self).diagnostics,
    {
        if self.at_end() {
            return false;
        }
        if self.chars[self.current] != expected {
            return false;
        }
        self.current = self.current + 1;
        true
    }

    /// The character at the cursor, or `'\0'` at the end.
    fn peek(&self) -> (c: char)
        ensures
            c == if self.current < self.chars@.len() {
                self.chars@[self.current as int]
            } else {
                '\0'
            },
    {
        if self.at_end() {
            return '\0';
        }
        self.chars[self.current]
    }

    /// The character after the cursor, or `'\0'` past the end.
    fn peek_next(&self) -> (c: char)
        requires
            self.wf(),
        ensures
            c == if self.current + 1 < self.chars@.len() {
                self.chars@[self.current + 1]
            } else {
                '\0'
            },
    {
        if self.current + 1 >= self.chars.len() {
            return '\0';
        }
        self.chars[self.current + 1]
    }

    /// Reads a string literal whose opening quote was just taken.
    fn handle_string(&mut self)
        requires
            old(self).wf(),
            old(self).current == old(self).start + 1,
            old(self).chars@[old(self).start as int] == '"',
            old(self).line <= old(self).start + 1,
        ensures
            final(self).wf(),
            final(self).chars@ == old(self).chars@,
            final(self).current == string_step(old(self).chars@, old(self).start as int, old(self).line as nat).next,
            final(self).line == string_step(old(self).chars@, old(self).start as int, old(self).line as nat).line,
            views(final(self).tokens@) == views(old(self).tokens@) + emitted(
                string_step(old(self).chars@, old(self).start as int, old(self).line as nat),
            ),
            final(self).diagnostics@ == old(self).diagnostics@ + noted(
                string_step(old(self).chars@, old(self).start as int, old(self).line as nat),
            ),
    {
        let ghost s = self.chars@;
        let ghost from = self.current as int;
        let ghost line0 = self.line as nat;
        while self.peek() != '"' && !self.at_end()
            invariant
                self.wf(),
                self.chars@ == s,
                self.src == old(self).src,
                self.start == old(self).start,
                from <= self.current,
                from == self.start + 1,
                self.line == line0 + newlines(s.subrange(from, self.current as int)),
                line0 <= self.start + 1,
                self.tokens@ == old(self).tokens@,
                self.diagnostics@ == old(self).diagnostics@,
                forall|k: int| from <= k < self.current ==> #[trigger] s[k] != '"',
            decreases s.len() - self.current,
        {
            proof {
                lemma_newlines_push(s, from, self.current as int);
            }
            if self.peek() == '\n' {
                self.line = self.line + 1;
            }
            self.advance();
        }
        proof {
            lemma_span_end_at(s, from, self.current as int, Span::Until('"'));
        }
        if self.at_end() {
            assert(s.subrange(from, s.len() as int) == s.subrange(from, self.current as int));
            self.diagnostics.push(Diagnostic::UnterminatedString { line: self.line });
            assert(self.diagnostics@ =~= old(self).diagnostics@ + noted(string_step(s, self.start as int, line0)));
            return;
        }
        self.advance();
        let value = self.src.as_str().substring_char(self.start + 1, self.current - 1).to_owned();
        self.add_token(TokenType::Stringy(value));
    }

    /// Reads a number whose first digit was just taken.
    fn handle_number(&mut self)
        requires
            old(self).wf(),
            old(self).current == old(self).start + 1,
        ensures
            final(self).wf(),
            final(self).chars@ == old(self).chars@,
            final(self).line == old(self).line,
            final(self).current == number_end(old(self).chars@, old(self).start as int),
            final(self).diagnostics@ == old(self).diagnostics@,
            views(final(self).tokens@) == views(old(self).tokens@) + seq![
                (
                    Lexeme::Number(old(self).chars@.subrange(old(self).start as int, number_end(old(self).chars@, old(self).start as int))),
                    old(self).line as nat,
                ),
            ],
    {
        let ghost s = self.chars@;
        let ghost from = self.current as int;
        while is_digit_char(self.peek())
            invariant
                self.wf(),
                self.chars@ == s,
                self.src == old(self).src,
                self.start == old(self).start,
                self.line == old(self).line,
                from <= self.current,
                self.tokens@ == old(self).tokens@,
                self.diagnostics@ == old(self).diagnostics@,
                forall|k: int| from <= k < self.current ==> is_digit(#[trigger] s[k]),
            decreases s.len() - self.current,
        {
            self.advance();
        }
        proof {
            lemma_span_end_at(s, from, self.current as int, Span::Digits);
        }
        if self.peek() == '.' && is_digit_char(self.peek_next()) {
            self.advance();
            let ghost from2 = self.current as int;
            while is_digit_char(self.peek())
                invariant
                    self.wf(),
                    self.chars@ == s,
                    self.src == old(self).src,
                    self.start == old(self).start,
                    self.line == old(self).line,
                    from2 <= self.current,
                    self.tokens@ == old(self).tokens@,
                    self.diagnostics@ == old(self).diagnostics@,
                    forall|k: int| from2 <= k < self.current ==> is_digit(#[trigger] s[k]),
                decreases s.len() - self.current,
            {
                self.advance();
            }
            proof {
                lemma_span_end_at(s, from2, self.current as int, Span::Digits);
            }
        }
        let text = self.src.as_str().substring_char(self.start, self.current).to_owned();
        self.add_token(TokenType::Number(text));
    }

    /// Reads a word whose first letter was just taken: a keyword, or else an
    /// identifier.
    fn handle_identifier(&mut self)
        requires
            old(self).wf(),
            old(self).current == old(self).start + 1,
        ensures
            final(self).wf(),
            final(self).chars@ == old(self).chars@,
            final(self).line == old(self).line,
            final(self).current == span_end(old(self).chars@, old(self).start + 1, Span::Word),
            final(self).diagnostics@ == old(self).diagnostics@,
            views(final(self).tokens@) == views(old(self).tokens@) + seq![
                (
                    word_lexeme(old(self).chars@.subrange(old(self).start as int, span_end(old(self).chars@, old(self).start + 1, Span::Word))),
                    old(self).line as nat,
                ),
            ],
    {
        let ghost s = self.chars@;
        let ghost from = self.current as int;
        while is_alphanumeric_char(self.peek())
            invariant
                self.wf(),
                self.chars@ == s,
                self.src == old(self).src,
                self.start == old(self).start,
                self.line == old(self).line,
                from <= self.current,
                self.tokens@ == old(self).tokens@,
                self.diagnostics@ == old(self).diagnostics@,
                forall|k: int| from <= k < self.current ==> is_alphanumeric(#[trigger] s[k]),
            decreases s.len() - self.current,
        {
            self.advance();
        }
        proof {
            lemma_span_end_at(s, from, self.current as int, Span::Word);
        }
        let text = self.src.as_str().substring_char(self.start, self.current);
        match TokenType::get_keyword(text) {
            Some(keyword) => self.add_token(keyword),
            None => self.add_token(TokenType::Identifier(text.to_owned())),
        }
    }
}

} // verus!
