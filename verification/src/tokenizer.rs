//! Token and error data model: every lexical category, its canonical
//! printable text, and the two-variant error taxonomy.

use vstd::prelude::*;

verus! {

/// Spec-level mirror of [`TokenType`]: literal payloads appear as character
/// sequences so that contracts can speak of token contents mathematically.
pub enum TokenTypeView {
    LeftParen,
    RightParen,
    LeftBrace,
    RightBrace,
    Comma,
    Dot,
    Minus,
    Plus,
    Semicolon,
    Slash,
    Star,
    Bang,
    BangEqual,
    Equal,
    EqualEqual,
    Greater,
    GreaterEqual,
    Less,
    LessEqual,
    Identifier(Seq<char>),
    String(Seq<char>),
    Number(u32, u32),
    And,
    Class,
    Else,
    False,
    Fun,
    For,
    If,
    Nil,
    Or,
    Print,
    Return,
    Super,
    This,
    True,
    Var,
    While,
    Eof,
}

/// A lexical category. Three families: single-character punctuation,
/// one-or-two-character operators (each single form has an "extended" form
/// reached by a trailing `=`), and literals; plus the fixed reserved words
/// and the end marker `Eof`.
///
/// `Number` stores the digit runs before and after the decimal point as two
/// non-negative integers; a literal with no fractional part stores `0` for
/// it. `Eof` carries no text and displays as the empty string.
#[derive(Debug, PartialEq, Eq)]
pub enum TokenType {
    LeftParen,
    RightParen,
    LeftBrace,
    RightBrace,
    Comma,
    Dot,
    Minus,
    Plus,
    Semicolon,
    Slash,
    Star,
    Bang,
    BangEqual,
    Equal,
    EqualEqual,
    Greater,
    GreaterEqual,
    Less,
    LessEqual,
    Identifier(String),
    String(String),
    Number(u32, u32),
    And,
    Class,
    Else,
    False,
    Fun,
    For,
    If,
    Nil,
    Or,
    Print,
    Return,
    Super,
    This,
    True,
    Var,
    While,
    Eof,
}

impl View for TokenType {
    type V = TokenTypeView;

    open spec fn view(&self) -> TokenTypeView {
        match self {
            TokenType::LeftParen => TokenTypeView::LeftParen,
            TokenType::RightParen => TokenTypeView::RightParen,
            TokenType::LeftBrace => TokenTypeView::LeftBrace,
            TokenType::RightBrace => TokenTypeView::RightBrace,
            TokenType::Comma => TokenTypeView::Comma,
            TokenType::Dot => TokenTypeView::Dot,
            TokenType::Minus => TokenTypeView::Minus,
            TokenType::Plus => TokenTypeView::Plus,
            TokenType::Semicolon => TokenTypeView::Semicolon,
            TokenType::Slash => TokenTypeView::Slash,
            TokenType::Star => TokenTypeView::Star,
            TokenType::Bang => TokenTypeView::Bang,
            TokenType::BangEqual => TokenTypeView::BangEqual,
            TokenType::Equal => TokenTypeView::Equal,
            TokenType::EqualEqual => TokenTypeView::EqualEqual,
            TokenType::Greater => TokenTypeView::Greater,
            TokenType::GreaterEqual => TokenTypeView::GreaterEqual,
            TokenType::Less => TokenTypeView::Less,
            TokenType::LessEqual => TokenTypeView::LessEqual,
            TokenType::Identifier(text) => TokenTypeView::Identifier(text@),
            TokenType::String(text) => TokenTypeView::String(text@),
            TokenType::Number(num, dec) => TokenTypeView::Number(*num, *dec),
            TokenType::And => TokenTypeView::And,
            TokenType::Class => TokenTypeView::Class,
            TokenType::Else => TokenTypeView::Else,
            TokenType::False => TokenTypeView::False,
            TokenType::Fun => TokenTypeView::Fun,
            TokenType::For => TokenTypeView::For,
            TokenType::If => TokenTypeView::If,
            TokenType::Nil => TokenTypeView::Nil,
            TokenType::Or => TokenTypeView::Or,
            TokenType::Print => TokenTypeView::Print,
            TokenType::Return => TokenTypeView::Return,
            TokenType::Super => TokenTypeView::Super,
            TokenType::This => TokenTypeView::This,
            TokenType::True => TokenTypeView::True,
            TokenType::Var => TokenTypeView::Var,
            TokenType::While => TokenTypeView::While,
            TokenType::Eof => TokenTypeView::Eof,
        }
    }
}

/// The view of an optional token type, for contracts of the classifiers.
pub open spec fn opt_token_view(o: Option<TokenType>) -> Option<TokenTypeView> {
    match o {
        Option::Some(t) => Option::Some(t@),
        Option::None => Option::None,
    }
}

/// Which token type a single character classifies as: exactly the
/// single-character punctuation marks and the four base operator
/// characters; every other character classifies as none.
pub open spec fn spec_from_char(c: char) -> Option<TokenTypeView> {
    if c == '(' {
        Option::Some(TokenTypeView::LeftParen)
    } else if c == ')' {
        Option::Some(TokenTypeView::RightParen)
    } else if c == '{' {
        Option::Some(TokenTypeView::LeftBrace)
    } else if c == '}' {
        Option::Some(TokenTypeView::RightBrace)
    } else if c == ',' {
        Option::Some(TokenTypeView::Comma)
    } else if c == '.' {
        Option::Some(TokenTypeView::Dot)
    } else if c == '-' {
        Option::Some(TokenTypeView::Minus)
    } else if c == '+' {
        Option::Some(TokenTypeView::Plus)
    } else if c == ';' {
        Option::Some(TokenTypeView::Semicolon)
    } else if c == '/' {
        Option::Some(TokenTypeView::Slash)
    } else if c == '*' {
        Option::Some(TokenTypeView::Star)
    } else if c == '!' {
        Option::Some(TokenTypeView::Bang)
    } else if c == '=' {
        Option::Some(TokenTypeView::Equal)
    } else if c == '>' {
        Option::Some(TokenTypeView::Greater)
    } else if c == '<' {
        Option::Some(TokenTypeView::Less)
    } else {
        Option::None
    }
}

/// The two-character form of a base operator: defined exactly for `Bang`,
/// `Equal`, `Greater` and `Less`; none for every other token type.
pub open spec fn spec_with_equals(t: TokenTypeView) -> Option<TokenTypeView> {
    match t {
        TokenTypeView::Bang => Option::Some(TokenTypeView::BangEqual),
        TokenTypeView::Equal => Option::Some(TokenTypeView::EqualEqual),
        TokenTypeView::Greater => Option::Some(TokenTypeView::GreaterEqual),
        TokenTypeView::Less => Option::Some(TokenTypeView::LessEqual),
        _ => Option::None,
    }
}

/// The reserved word a text matches, if any: an exact, case-sensitive match
/// against the fixed keyword set; every other text maps to none.
pub open spec fn spec_keyword(text: Seq<char>) -> Option<TokenTypeView> {
    if text == "and"@ {
        Option::Some(TokenTypeView::And)
    } else if text == "class"@ {
        Option::Some(TokenTypeView::Class)
    } else if text == "else"@ {
        Option::Some(TokenTypeView::Else)
    } else if text == "false"@ {
        Option::Some(TokenTypeView::False)
    } else if text == "fun"@ {
        Option::Some(TokenTypeView::Fun)
    } else if text == "for"@ {
        Option::Some(TokenTypeView::For)
    } else if text == "if"@ {
        Option::Some(TokenTypeView::If)
    } else if text == "nil"@ {
        Option::Some(TokenTypeView::Nil)
    } else if text == "or"@ {
        Option::Some(TokenTypeView::Or)
    } else if text == "print"@ {
        Option::Some(TokenTypeView::Print)
    } else if text == "return"@ {
        Option::Some(TokenTypeView::Return)
    } else if text == "super"@ {
        Option::Some(TokenTypeView::Super)
    } else if text == "this"@ {
        Option::Some(TokenTypeView::This)
    } else if text == "true"@ {
        Option::Some(TokenTypeView::True)
    } else if text == "var"@ {
        Option::Some(TokenTypeView::Var)
    } else if text == "while"@ {
        Option::Some(TokenTypeView::While)
    } else {
        Option::None
    }
}

/// The canonical printable text of a token type: punctuation and operators
/// display as their source characters, keywords as their reserved word,
/// literals as their own text or value, and `Eof` as the empty string. A
/// number displays as its integer part, a dot, and its fractional part.
pub open spec fn spec_display(t: TokenTypeView) -> Seq<char> {
    match t {
        TokenTypeView::LeftParen => "("@,
        TokenTypeView::RightParen => ")"@,
        TokenTypeView::LeftBrace => "{"@,
        TokenTypeView::RightBrace => "}"@,
        TokenTypeView::Comma => ","@,
        TokenTypeView::Dot => "."@,
        TokenTypeView::Minus => "-"@,
        TokenTypeView::Plus => "+"@,
        TokenTypeView::Semicolon => ";"@,
        TokenTypeView::Slash => "/"@,
        TokenTypeView::Star => "*"@,
        TokenTypeView::Bang => "!"@,
        TokenTypeView::BangEqual => "!="@,
        TokenTypeView::Equal => "="@,
        TokenTypeView::EqualEqual => "=="@,
        TokenTypeView::Greater => ">"@,
        TokenTypeView::GreaterEqual => ">="@,
        TokenTypeView::Less => "<"@,
        TokenTypeView::LessEqual => "<="@,
        TokenTypeView::Identifier(text) => text,
        TokenTypeView::String(text) => text,
        TokenTypeView::Number(num, dec) => spec_decimal(num as nat) + seq!['.'] + spec_decimal(
            dec as nat,
        ),
        TokenTypeView::And => "and"@,
        TokenTypeView::Class => "class"@,
        TokenTypeView::Else => "else"@,
        TokenTypeView::False => "false"@,
        TokenTypeView::Fun => "fun"@,
        TokenTypeView::For => "for"@,
        TokenTypeView::If => "if"@,
        TokenTypeView::Nil => "nil"@,
        TokenTypeView::Or => "or"@,
        TokenTypeView::Print => "print"@,
        TokenTypeView::Return => "return"@,
        TokenTypeView::Super => "super"@,
        TokenTypeView::This => "this"@,
        TokenTypeView::True => "true"@,
        TokenTypeView::Var => "var"@,
        TokenTypeView::While => "while"@,
        TokenTypeView::Eof => Seq::<char>::empty(),
    }
}

impl TokenType {
    /// The canonical printable text of this token type, used verbatim in
    /// the external token-dump format.
    pub fn display_string(&self) -> (r: String)
        ensures
            r@ == spec_display(self@),
    {
        match self {
            TokenType::LeftParen => String::from_str("("),
            TokenType::RightParen => String::from_str(")"),
            TokenType::LeftBrace => String::from_str("{"),
            TokenType::RightBrace => String::from_str("}"),
            TokenType::Comma => String::from_str(","),
            TokenType::Dot => String::from_str("."),
            TokenType::Minus => String::from_str("-"),
            TokenType::Plus => String::from_str("+"),
            TokenType::Semicolon => String::from_str(";"),
            TokenType::Slash => String::from_str("/"),
            TokenType::Star => String::from_str("*"),
            TokenType::Bang => String::from_str("!"),
            TokenType::BangEqual => String::from_str("!="),
            TokenType::Equal => String::from_str("="),
            TokenType::EqualEqual => String::from_str("=="),
            TokenType::Greater => String::from_str(">"),
            TokenType::GreaterEqual => String::from_str(">="),
            TokenType::Less => String::from_str("<"),
            TokenType::LessEqual => String::from_str("<="),
            TokenType::Identifier(text) => text.clone(),
            TokenType::String(text) => text.clone(),
            TokenType::Number(num, dec) => {
                let mut s = u32_to_decimal(*num);
                push_char(&mut s, '.');
                let frac = u32_to_decimal(*dec);
                s.append(frac.as_str());
                s
            },
            TokenType::And => String::from_str("and"),
            TokenType::Class => String::from_str("class"),
            TokenType::Else => String::from_str("else"),
            TokenType::False => String::from_str("false"),
            TokenType::Fun => String::from_str("fun"),
            TokenType::For => String::from_str("for"),
            TokenType::If => String::from_str("if"),
            TokenType::Nil => String::from_str("nil"),
            TokenType::Or => String::from_str("or"),
            TokenType::Print => String::from_str("print"),
            TokenType::Return => String::from_str("return"),
            TokenType::Super => String::from_str("super"),
            TokenType::This => String::from_str("this"),
            TokenType::True => String::from_str("true"),
            TokenType::Var => String::from_str("var"),
            TokenType::While => String::from_str("while"),
            TokenType::Eof => String::new(),
        }
    }

    /// The two-character form of this operator, reached by a trailing `=`:
    /// defined exactly for the four base operators.
    pub fn get_with_equals(&self) -> (r: Option<TokenType>)
        ensures
            opt_token_view(r) == spec_with_equals(self@),
    {
        match self {
            TokenType::Bang => Option::Some(TokenType::BangEqual),
            TokenType::Equal => Option::Some(TokenType::EqualEqual),
            TokenType::Greater => Option::Some(TokenType::GreaterEqual),
            TokenType::Less => Option::Some(TokenType::LessEqual),
            _ => Option::None,
        }
    }
}

/// Relies on `String::push`: appends exactly the one character to the end
/// of the string.
#[verifier::external_body]
pub(crate) fn push_char(s: &mut String, c: char)
    ensures
        final(s)@ == old(s)@ + seq![c],
{
    s.push(c);
}

/// The character for a single decimal digit value.
pub open spec fn spec_digit_char(d: nat) -> char {
    if d == 0 {
        '0'
    } else if d == 1 {
        '1'
    } else if d == 2 {
        '2'
    } else if d == 3 {
        '3'
    } else if d == 4 {
        '4'
    } else if d == 5 {
        '5'
    } else if d == 6 {
        '6'
    } else if d == 7 {
        '7'
    } else if d == 8 {
        '8'
    } else {
        '9'
    }
}

/// The usual decimal rendering of a non-negative integer: most significant
/// digit first, no leading zeroes except for the value zero itself.
pub open spec fn spec_decimal(n: nat) -> Seq<char>
    decreases n,
{
    if n < 10 {
        seq![spec_digit_char(n)]
    } else {
        spec_decimal(n / 10) + seq![spec_digit_char(n % 10)]
    }
}

fn digit_char(d: u32) -> (c: char)
    requires
        d < 10,
    ensures
        c == spec_digit_char(d as nat),
{
    if d == 0 {
        '0'
    } else if d == 1 {
        '1'
    } else if d == 2 {
        '2'
    } else if d == 3 {
        '3'
    } else if d == 4 {
        '4'
    } else if d == 5 {
        '5'
    } else if d == 6 {
        '6'
    } else if d == 7 {
        '7'
    } else if d == 8 {
        '8'
    } else {
        '9'
    }
}

/// Renders a number in decimal, matching [`spec_decimal`].
pub fn u32_to_decimal(n: u32) -> (s: String)
    ensures
        s@ == spec_decimal(n as nat),
    decreases n,
{
    if n < 10 {
        let mut s = String::new();
        push_char(&mut s, digit_char(n));
        proof {
            assert(s@ =~= spec_decimal(n as nat));
        }
        s
    } else {
        let mut s = u32_to_decimal(n / 10);
        push_char(&mut s, digit_char(n % 10));
        proof {
            assert(s@ =~= spec_decimal(n as nat));
        }
        s
    }
}

/// Whether two string slices hold the same characters.
fn str_eq(a: &str, b: &str) -> (r: bool)
    ensures
        r == (a@ == b@),
{
    let a_len = a.unicode_len();
    let b_len = b.unicode_len();
    if a_len != b_len {
        return false;
    }
    let mut k: usize = 0;
    while k < a_len
        invariant
            k <= a_len,
            a_len == a@.len(),
            a_len == b@.len(),
            forall|m: int| 0 <= m < k ==> a@[m] == b@[m],
        decreases a_len - k,
    {
        if a.get_char(k) != b.get_char(k) {
            return false;
        }
        k = k + 1;
    }
    proof {
        assert(a@ =~= b@);
    }
    true
}

/// A classified, line-tagged lexical unit: the pair of a token type and the
/// 1-based source line on which the token started.
#[derive(Debug, PartialEq, Eq)]
pub struct Token {
    pub token_type: TokenType,
    pub line: u32,
}

/// Spec-level mirror of [`Token`].
pub struct TokenView {
    pub token_type: TokenTypeView,
    pub line: u32,
}

impl View for Token {
    type V = TokenView;

    open spec fn view(&self) -> TokenView {
        TokenView { token_type: self.token_type@, line: self.line }
    }
}

impl Token {
    /// Pairs a token type with the line it started on.
    pub fn new(token_type: TokenType, line: u32) -> (r: Token)
        ensures
            r@ == (TokenView { token_type: token_type@, line }),
    {
        Token { token_type, line }
    }

    /// Classifies a single character: exactly the single-character
    /// punctuation marks and the four base operator characters map to a
    /// token type; every other character maps to none.
    pub fn from_char(c: char) -> (r: Option<TokenType>)
        ensures
            opt_token_view(r) == spec_from_char(c),
    {
        if c == '(' {
            Option::Some(TokenType::LeftParen)
        } else if c == ')' {
            Option::Some(TokenType::RightParen)
        } else if c == '{' {
            Option::Some(TokenType::LeftBrace)
        } else if c == '}' {
            Option::Some(TokenType::RightBrace)
        } else if c == ',' {
            Option::Some(TokenType::Comma)
        } else if c == '.' {
            Option::Some(TokenType::Dot)
        } else if c == '-' {
            Option::Some(TokenType::Minus)
        } else if c == '+' {
            Option::Some(TokenType::Plus)
        } else if c == ';' {
            Option::Some(TokenType::Semicolon)
        } else if c == '/' {
            Option::Some(TokenType::Slash)
        } else if c == '*' {
            Option::Some(TokenType::Star)
        } else if c == '!' {
            Option::Some(TokenType::Bang)
        } else if c == '=' {
            Option::Some(TokenType::Equal)
        } else if c == '>' {
            Option::Some(TokenType::Greater)
        } else if c == '<' {
            Option::Some(TokenType::Less)
        } else {
            Option::None
        }
    }

    /// Looks a completed identifier text up against the fixed reserved-word
    /// set: an exact, case-sensitive match yields the keyword's token type,
    /// anything else yields none and the caller falls back to `Identifier`.
    pub fn from_string(s: &str) -> (r: Option<TokenType>)
        ensures
            opt_token_view(r) == spec_keyword(s@),
    {
        if str_eq(s, "and") {
            Option::Some(TokenType::And)
        } else if str_eq(s, "class") {
            Option::Some(TokenType::Class)
        } else if str_eq(s, "else") {
            Option::Some(TokenType::Else)
        } else if str_eq(s, "false") {
            Option::Some(TokenType::False)
        } else if str_eq(s, "fun") {
            Option::Some(TokenType::Fun)
        } else if str_eq(s, "for") {
            Option::Some(TokenType::For)
        } else if str_eq(s, "if") {
            Option::Some(TokenType::If)
        } else if str_eq(s, "nil") {
            Option::Some(TokenType::Nil)
        } else if str_eq(s, "or") {
            Option::Some(TokenType::Or)
        } else if str_eq(s, "print") {
            Option::Some(TokenType::Print)
        } else if str_eq(s, "return") {
            Option::Some(TokenType::Return)
        } else if str_eq(s, "super") {
            Option::Some(TokenType::Super)
        } else if str_eq(s, "this") {
            Option::Some(TokenType::This)
        } else if str_eq(s, "true") {
            Option::Some(TokenType::True)
        } else if str_eq(s, "var") {
            Option::Some(TokenType::Var)
        } else if str_eq(s, "while") {
            Option::Some(TokenType::While)
        } else {
            Option::None
        }
    }
}

/// The printable form of a token: its canonical text, a space, and the
/// line it started on.
pub open spec fn spec_token_display(t: TokenView) -> Seq<char> {
    spec_display(t.token_type) + seq![' '] + spec_decimal(t.line as nat)
}

impl Token {
    /// The printable form of this token: canonical text, a space, and the
    /// line number.
    pub fn display_string(&self) -> (r: String)
        ensures
            r@ == spec_token_display(self@),
    {
        let mut s = self.token_type.display_string();
        push_char(&mut s, ' ');
        let line = u32_to_decimal(self.line);
        s.append(line.as_str());
        s
    }
}

/// A lexical error: a character that cannot start any token, or an opening
/// `"` with no matching closing `"` before the end of the input. Each
/// carries the 1-based line it was found on. Errors are pure diagnostic
/// data; they never abort a scan.
#[derive(Debug, PartialEq, Eq)]
pub enum TokenizerError {
    UnexpectedCharacter(char, u32),
    UnterminatedString(u32),
}

/// The diagnostic message of a lexical error, as the error stream prints it.
pub open spec fn spec_error_display(e: TokenizerError) -> Seq<char> {
    match e {
        TokenizerError::UnexpectedCharacter(c, line) => "[line "@ + spec_decimal(line as nat)
            + "] Error: Unexpected character: "@ + seq![c],
        TokenizerError::UnterminatedString(line) => "Unterminated string on line "@ + spec_decimal(
            line as nat,
        ),
    }
}

impl TokenizerError {
    /// The diagnostic message of this error, one line, ready for the error
    /// stream.
    pub fn display_string(&self) -> (r: String)
        ensures
            r@ == spec_error_display(*self),
    {
        match self {
            TokenizerError::UnexpectedCharacter(c, line) => {
                let mut s = String::from_str("[line ");
                let num = u32_to_decimal(*line);
                s.append(num.as_str());
                s.append("] Error: Unexpected character: ");
                push_char(&mut s, *c);
                s
            },
            TokenizerError::UnterminatedString(line) => {
                let mut s = String::from_str("Unterminated string on line ");
                let num = u32_to_decimal(*line);
                s.append(num.as_str());
                s
            },
        }
    }
}

} // verus!
