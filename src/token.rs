//! The closed set of token kinds, the token record, and the classification
//! tables: keyword lookup, single-character lookup and canonical renderings.

use vstd::prelude::*;

use crate::text::{chars_of, word_at};
use crate::utilities::Position;

verus! {

/// One token: its kind, the position of its first character, and the name of
/// the file it was read from.
#[derive(Clone, Debug, PartialEq)]
pub struct Token {
    pub tt: TokenType,
    pub pos: Position,
    pub file_name: String,
}

/// Every kind of token the scanner produces.
#[derive(Clone, Debug, PartialEq)]
pub enum TokenType {
    // Literals
    Tag(String),
    Integer(String),
    Float(String),
    String(String),
    Regex(String),
    // Keywords
    Const,
    Let,
    Return,
    Fn,
    Record,
    Enum,
    Trait,
    Module,
    Defer,
    When,
    Inline,
    True,
    False,
    For,
    While,
    Break,
    Continue,
    Match,
    If,
    Else,
    As,
    And,
    Or,
    Dyn,
    Anytype,
    // Modes
    Mutable,
    Move,
    Local,
    Ctime,
    // Assignment
    Assign,
    AssignExp,
    // Punctuation
    Dot,
    Comma,
    Lparen,
    Rparen,
    Lbracket,
    Rbracket,
    Lsquirly,
    Rsquirly,
    Colon,
    Semicolon,
    Arrow,
    FatArrow,
    // Operators
    Address,
    Cash,
    Pound,
    Bang,
    Question,
    RangeExc,
    RangeInc,
    Pipeline,
    // Arithmetic
    Plus,
    Minus,
    Asterisk,
    Slash,
    Percent,
    Increment,
    Decrement,
    Power,
    // Bitwise
    Ampersand,
    Pipe,
    Caret,
    Tilde,
    Lshift,
    Rshift,
    // Comparators
    Lesser,
    LesserEq,
    Greater,
    GreaterEq,
    Equal,
    NotEqual,
    PatternMatch,
    PatternNotMatch,
    // Others
    Newline,
    Illegal,
    Eof,
}

/// What a token kind is, with its text as a sequence of characters.
/// Kinds that carry no text stand for themselves under `Plain`.
pub enum TokenView {
    Tag(Seq<char>),
    Integer(Seq<char>),
    Float(Seq<char>),
    Str(Seq<char>),
    Regex(Seq<char>),
    Plain(TokenType),
}

impl TokenType {
    /// Whether this kind carries no text.
    pub open spec fn is_plain(self) -> bool {
        !(self is Tag || self is Integer || self is Float || self is String || self is Regex)
    }
}

impl View for TokenType {
    type V = TokenView;

    open spec fn view(&self) -> TokenView {
        match self {
            TokenType::Tag(s) => TokenView::Tag(s@),
            TokenType::Integer(s) => TokenView::Integer(s@),
            TokenType::Float(s) => TokenView::Float(s@),
            TokenType::String(s) => TokenView::Str(s@),
            TokenType::Regex(s) => TokenView::Regex(s@),
            _ => TokenView::Plain(*self),
        }
    }
}

/// The keyword spelled by `text`, if it is one (exact, case-sensitive).
pub open spec fn keyword_of(text: Seq<char>) -> Option<TokenType> {
    if text == "const"@ {
        Some(TokenType::Const)
    } else if text == "let"@ {
        Some(TokenType::Let)
    } else if text == "return"@ {
        Some(TokenType::Return)
    } else if text == "fn"@ {
        Some(TokenType::Fn)
    } else if text == "record"@ {
        Some(TokenType::Record)
    } else if text == "enum"@ {
        Some(TokenType::Enum)
    } else if text == "trait"@ {
        Some(TokenType::Trait)
    } else if text == "module"@ {
        Some(TokenType::Module)
    } else if text == "defer"@ {
        Some(TokenType::Defer)
    } else if text == "when"@ {
        Some(TokenType::When)
    } else if text == "inline"@ {
        Some(TokenType::Inline)
    } else if text == "true"@ {
        Some(TokenType::True)
    } else if text == "false"@ {
        Some(TokenType::False)
    } else if text == "for"@ {
        Some(TokenType::For)
    } else if text == "while"@ {
        Some(TokenType::While)
    } else if text == "break"@ {
        Some(TokenType::Break)
    } else if text == "continue"@ {
        Some(TokenType::Continue)
    } else if text == "match"@ {
        Some(TokenType::Match)
    } else if text == "if"@ {
        Some(TokenType::If)
    } else if text == "else"@ {
        Some(TokenType::Else)
    } else if text == "as"@ {
        Some(TokenType::As)
    } else if text == "and"@ {
        Some(TokenType::And)
    } else if text == "or"@ {
        Some(TokenType::Or)
    } else if text == "dyn"@ {
        Some(TokenType::Dyn)
    } else if text == "anytype"@ {
        Some(TokenType::Anytype)
    } else if text == "mut"@ {
        Some(TokenType::Mutable)
    } else if text == "mov"@ {
        Some(TokenType::Move)
    } else if text == "loc"@ {
        Some(TokenType::Local)
    } else if text == "ctime"@ {
        Some(TokenType::Ctime)
    } else {
        None
    }
}

/// The one-character token that `ch` stands for on its own.
pub open spec fn char_kind(ch: char) -> TokenType {
    match ch {
        '=' => TokenType::Assign,
        '.' => TokenType::Dot,
        ',' => TokenType::Comma,
        '(' => TokenType::Lparen,
        ')' => TokenType::Rparen,
        '[' => TokenType::Lbracket,
        ']' => TokenType::Rbracket,
        '{' => TokenType::Lsquirly,
        '}' => TokenType::Rsquirly,
        ':' => TokenType::Colon,
        ';' => TokenType::Semicolon,
        '@' => TokenType::Address,
        '$' => TokenType::Cash,
        '#' => TokenType::Pound,
        '!' => TokenType::Bang,
        '?' => TokenType::Question,
        '+' => TokenType::Plus,
        '-' => TokenType::Minus,
        '*' => TokenType::Asterisk,
        '/' => TokenType::Slash,
        '%' => TokenType::Percent,
        '&' => TokenType::Ampersand,
        '|' => TokenType::Pipe,
        '^' => TokenType::Caret,
        '~' => TokenType::Tilde,
        '<' => TokenType::Lesser,
        '>' => TokenType::Greater,
        '\n' => TokenType::Newline,
        '\0' => TokenType::Eof,
        _ => TokenType::Illegal,
    }
}

/// The canonical text of a token kind: its own text for literals, its
/// spelling for everything else.
pub open spec fn rendering(v: TokenView) -> Seq<char> {
    match v {
        TokenView::Tag(s) => s,
        TokenView::Integer(s) => s,
        TokenView::Float(s) => s,
        TokenView::Str(s) => s,
        TokenView::Regex(s) => s,
        TokenView::Plain(t) => match t {
            TokenType::Const => "const"@,
            TokenType::Let => "let"@,
            TokenType::Return => "return"@,
            TokenType::Fn => "fn"@,
            TokenType::Record => "record"@,
            TokenType::Enum => "enum"@,
            TokenType::Trait => "trait"@,
            TokenType::Module => "module"@,
            TokenType::Defer => "defer"@,
            TokenType::When => "when"@,
            TokenType::Inline => "inline"@,
            TokenType::True => "true"@,
            TokenType::False => "false"@,
            TokenType::For => "for"@,
            TokenType::While => "while"@,
            TokenType::Break => "break"@,
            TokenType::Continue => "continue"@,
            TokenType::Match => "match"@,
            TokenType::If => "if"@,
            TokenType::Else => "else"@,
            TokenType::As => "as"@,
            TokenType::And => "and"@,
            TokenType::Or => "or"@,
            TokenType::Dyn => "dyn"@,
            TokenType::Anytype => "anytype"@,
            TokenType::Mutable => "mut"@,
            TokenType::Move => "mov"@,
            TokenType::Local => "loc"@,
            TokenType::Ctime => "ctime"@,
            TokenType::Assign => "="@,
            TokenType::AssignExp => ":="@,
            TokenType::Dot => "."@,
            TokenType::Comma => ","@,
            TokenType::Lparen => "("@,
            TokenType::Rparen => ")"@,
            TokenType::Lbracket => "["@,
            TokenType::Rbracket => "]"@,
            TokenType::Lsquirly => "{"@,
            TokenType::Rsquirly => "}"@,
            TokenType::Colon => ":"@,
            TokenType::Semicolon => ";"@,
            TokenType::Arrow => "->"@,
            TokenType::FatArrow => "=>"@,
            TokenType::Address => "@"@,
            TokenType::Cash => "$"@,
            TokenType::Pound => "#"@,
            TokenType::Bang => "!"@,
            TokenType::Question => "?"@,
            TokenType::RangeExc => ".."@,
            TokenType::RangeInc => "..."@,
            TokenType::Pipeline => "|>"@,
            TokenType::Plus => "+"@,
            TokenType::Minus => "-"@,
            TokenType::Asterisk => "*"@,
            TokenType::Slash => "/"@,
            TokenType::Percent => "%"@,
            TokenType::Increment => "++"@,
            TokenType::Decrement => "--"@,
            TokenType::Power => "**"@,
            TokenType::Ampersand => "&"@,
            TokenType::Pipe => "|"@,
            TokenType::Caret => "^"@,
            TokenType::Tilde => "~"@,
            TokenType::Lshift => "<<"@,
            TokenType::Rshift => ">>"@,
            TokenType::Lesser => "<"@,
            TokenType::LesserEq => "<="@,
            TokenType::Greater => ">"@,
            TokenType::GreaterEq => ">="@,
            TokenType::Equal => "=="@,
            TokenType::NotEqual => "!="@,
            TokenType::PatternMatch => "=~"@,
            TokenType::PatternNotMatch => "!~"@,
            TokenType::Newline => "\n"@,
            TokenType::Illegal => "illegal"@,
            TokenType::Eof => "\0"@,
            _ => Seq::empty(),
        },
    }
}

/// The keyword spelled by `src[start..end]`, if any.
pub(crate) fn keyword_at(src: &Vec<char>, start: usize, end: usize) -> (r: Option<TokenType>)
    requires
        start <= end <= src@.len(),
    ensures
        r == keyword_of(src@.subrange(start as int, end as int)),
{
    if word_at(src, start, end, "const") {
        Some(TokenType::Const)
    } else if word_at(src, start, end, "let") {
        Some(TokenType::Let)
    } else if word_at(src, start, end, "return") {
        Some(TokenType::Return)
    } else if word_at(src, start, end, "fn") {
        Some(TokenType::Fn)
    } else if word_at(src, start, end, "record") {
        Some(TokenType::Record)
    } else if word_at(src, start, end, "enum") {
        Some(TokenType::Enum)
    } else if word_at(src, start, end, "trait") {
        Some(TokenType::Trait)
    } else if word_at(src, start, end, "module") {
        Some(TokenType::Module)
    } else if word_at(src, start, end, "defer") {
        Some(TokenType::Defer)
    } else if word_at(src, start, end, "when") {
        Some(TokenType::When)
    } else if word_at(src, start, end, "inline") {
        Some(TokenType::Inline)
    } else if word_at(src, start, end, "true") {
        Some(TokenType::True)
    } else if word_at(src, start, end, "false") {
        Some(TokenType::False)
    } else if word_at(src, start, end, "for") {
        Some(TokenType::For)
    } else if word_at(src, start, end, "while") {
        Some(TokenType::While)
    } else if word_at(src, start, end, "break") {
        Some(TokenType::Break)
    } else if word_at(src, start, end, "continue") {
        Some(TokenType::Continue)
    } else if word_at(src, start, end, "match") {
        Some(TokenType::Match)
    } else if word_at(src, start, end, "if") {
        Some(TokenType::If)
    } else if word_at(src, start, end, "else") {
        Some(TokenType::Else)
    } else if word_at(src, start, end, "as") {
        Some(TokenType::As)
    } else if word_at(src, start, end, "and") {
        Some(TokenType::And)
    } else if word_at(src, start, end, "or") {
        Some(TokenType::Or)
    } else if word_at(src, start, end, "dyn") {
        Some(TokenType::Dyn)
    } else if word_at(src, start, end, "anytype") {
        Some(TokenType::Anytype)
    } else if word_at(src, start, end, "mut") {
        Some(TokenType::Mutable)
    } else if word_at(src, start, end, "mov") {
        Some(TokenType::Move)
    } else if word_at(src, start, end, "loc") {
        Some(TokenType::Local)
    } else if word_at(src, start, end, "ctime") {
        Some(TokenType::Ctime)
    } else {
        None
    }
}

impl TokenType {
    /// If tag matches a keyword returns Some(that keyword), else None
    pub fn try_keyword(tag: &str) -> (r: Option<TokenType>)
        ensures
            r == keyword_of(tag@),
    {
        let chars = chars_of(tag);
        proof {
            assert(chars@.subrange(0, chars@.len() as int) =~= tag@);
        }
        keyword_at(&chars, 0, chars.len())
    }

    /// Returns the one-character token that `ch` stands for
    pub fn of_char(ch: char) -> (r: TokenType)
        ensures
            r == char_kind(ch),
    {
        match ch {
            '=' => TokenType::Assign,
            '.' => TokenType::Dot,
            ',' => TokenType::Comma,
            '(' => TokenType::Lparen,
            ')' => TokenType::Rparen,
            '[' => TokenType::Lbracket,
            ']' => TokenType::Rbracket,
            '{' => TokenType::Lsquirly,
            '}' => TokenType::Rsquirly,
            ':' => TokenType::Colon,
            ';' => TokenType::Semicolon,
            '@' => TokenType::Address,
            '$' => TokenType::Cash,
            '#' => TokenType::Pound,
            '!' => TokenType::Bang,
            '?' => TokenType::Question,
            '+' => TokenType::Plus,
            '-' => TokenType::Minus,
            '*' => TokenType::Asterisk,
            '/' => TokenType::Slash,
            '%' => TokenType::Percent,
            '&' => TokenType::Ampersand,
            '|' => TokenType::Pipe,
            '^' => TokenType::Caret,
            '~' => TokenType::Tilde,
            '<' => TokenType::Lesser,
            '>' => TokenType::Greater,
            '\n' => TokenType::Newline,
            '\0' => TokenType::Eof,
            _ => TokenType::Illegal,
        }
    }

    /// Returns the canonical text of the token
    pub fn to_string(&self) -> (r: &str)
        ensures
            r@ == rendering(self@),
    {
        match self {
            TokenType::Tag(s) => s.as_str(),
            TokenType::Integer(s) => s.as_str(),
            TokenType::Float(s) => s.as_str(),
            TokenType::String(s) => s.as_str(),
            TokenType::Regex(s) => s.as_str(),
            TokenType::Const => "const",
            TokenType::Let => "let",
            TokenType::Return => "return",
            TokenType::Fn => "fn",
            TokenType::Record => "record",
            TokenType::Enum => "enum",
            TokenType::Trait => "trait",
            TokenType::Module => "module",
            TokenType::Defer => "defer",
            TokenType::When => "when",
            TokenType::Inline => "inline",
            TokenType::True => "true",
            TokenType::False => "false",
            TokenType::For => "for",
            TokenType::While => "while",
            TokenType::Break => "break",
            TokenType::Continue => "continue",
            TokenType::Match => "match",
            TokenType::If => "if",
            TokenType::Else => "else",
            TokenType::As => "as",
            TokenType::And => "and",
            TokenType::Or => "or",
            TokenType::Dyn => "dyn",
            TokenType::Anytype => "anytype",
            TokenType::Mutable => "mut",
            TokenType::Move => "mov",
            TokenType::Local => "loc",
            TokenType::Ctime => "ctime",
            TokenType::Assign => "=",
            TokenType::AssignExp => ":=",
            TokenType::Dot => ".",
            TokenType::Comma => ",",
            TokenType::Lparen => "(",
            TokenType::Rparen => ")",
            TokenType::Lbracket => "[",
            TokenType::Rbracket => "]",
            TokenType::Lsquirly => "{",
            TokenType::Rsquirly => "}",
            TokenType::Colon => ":",
            TokenType::Semicolon => ";",
            TokenType::Arrow => "->",
            TokenType::FatArrow => "=>",
            TokenType::Address => "@",
            TokenType::Cash => "$",
            TokenType::Pound => "#",
            TokenType::Bang => "!",
            TokenType::Question => "?",
            TokenType::RangeExc => "..",
            TokenType::RangeInc => "...",
            TokenType::Pipeline => "|>",
            TokenType::Plus => "+",
            TokenType::Minus => "-",
            TokenType::Asterisk => "*",
            TokenType::Slash => "/",
            TokenType::Percent => "%",
            TokenType::Increment => "++",
            TokenType::Decrement => "--",
            TokenType::Power => "**",
            TokenType::Ampersand => "&",
            TokenType::Pipe => "|",
            TokenType::Caret => "^",
            TokenType::Tilde => "~",
            TokenType::Lshift => "<<",
            TokenType::Rshift => ">>",
            TokenType::Lesser => "<",
            TokenType::LesserEq => "<=",
            TokenType::Greater => ">",
            TokenType::GreaterEq => ">=",
            TokenType::Equal => "==",
            TokenType::NotEqual => "!=",
            TokenType::PatternMatch => "=~",
            TokenType::PatternNotMatch => "!~",
            TokenType::Newline => "\n",
            TokenType::Illegal => "illegal",
            TokenType::Eof => "\0",
        }
    }
}

} // verus!
