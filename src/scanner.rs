//! The scanner: a cursor over an owned source that hands out one token per
//! call, in order, ending with an end-of-input token.

use vstd::prelude::*;

use crate::lexer::{
    alnum_end, char_at, col_at, digits_end, first_rule, first_rule3, lemma_pos_bounds,
    lemma_skip_blanks_bounds, lemma_tokens_from_unfold, lemma_until_bounds, lex_at, lex_body,
    lex_number, lex_tag, line_at, multiline, operator, quoted, skip_blanks, step, token_matches,
    tokens_from, until, Lexed,
};
use crate::text::{chars_of, push_char, push_range, string_of};
use crate::token::{keyword_at, Token, TokenType, TokenView};
use crate::utilities::{alphabetical, digit, is_alphabetical, is_alphanumeric, is_integer, Position};

verus! {

/// What a scanner is, abstractly: the source it reads, where it stands in
/// it, and the file name it stamps on tokens.
pub struct ScanState {
    pub source: Seq<char>,
    pub read: int,
    pub file_name: Seq<char>,
}

impl ScanState {
    /// The tokens this scanner has still to hand out.
    pub open spec fn remaining(self) -> Seq<Lexed> {
        tokens_from(self.source, self.read)
    }

    /// The same scanner, rewound to the start of its source.
    pub open spec fn rewound(self) -> ScanState {
        ScanState { read: 0, ..self }
    }
}

/// `s` without its leading newlines.
pub open spec fn trim_newlines(s: Seq<char>) -> Seq<char>
    decreases s.len(),
{
    if s.len() > 0 && s[0] == '\n' {
        trim_newlines(s.drop_first())
    } else {
        s
    }
}

/// The state of a scanner just made from `file_name` and `source`.
pub open spec fn fresh(file_name: Seq<char>, source: Seq<char>) -> ScanState {
    ScanState { source: trim_newlines(source), read: 0, file_name }
}

/// The longest source a scanner takes: its positions must fit in `usize`.
pub open spec fn fits(source: Seq<char>) -> bool {
    source.len() + 4 <= usize::MAX
}

proof fn lemma_trim_newlines(s: Seq<char>, k: int)
    requires
        0 <= k <= s.len(),
        forall|j: int| 0 <= j < k ==> s[j] == '\n',
        k == s.len() || s[k] != '\n',
    ensures
        trim_newlines(s) == s.subrange(k, s.len() as int),
    decreases k,
{
    if k > 0 {
        lemma_trim_newlines(s.drop_first(), k - 1);
        assert(s.drop_first().subrange(k - 1, s.len() - 1) =~= s.subrange(k, s.len() as int));
    } else {
        assert(s.subrange(0, s.len() as int) =~= s);
    }
}

/// Holds on to source code and hands out its tokens one at a time.
pub struct Scanner {
    source: Vec<char>,
    read: usize,
    char: char,
    file_name: String,
    file_pos: Position,
}

impl View for Scanner {
    type V = ScanState;

    closed spec fn view(&self) -> ScanState {
        ScanState { source: self.source@, read: self.read as int, file_name: self.file_name@ }
    }
}

impl Scanner {
    /// The cursor fields agree with the read offset.
    pub closed spec fn wf(&self) -> bool {
        &&& fits(self.source@)
        &&& self.read < usize::MAX
        &&& self.char == char_at(self.source@, self.read as int)
        &&& self.file_pos.line == line_at(self.source@, self.read as int)
        &&& self.file_pos.col == col_at(self.source@, self.read as int)
    }

    /// Returns a new scanner over `source` with its leading newlines removed
    pub fn new(file_name: String, source: String) -> (r: Scanner)
        requires
            fits(source@),
        ensures
            r.wf(),
            r@ == fresh(file_name@, source@),
    {
        let all = chars_of(source.as_str());
        let n = all.len();
        let mut k: usize = 0;
        while k < n && all[k] == '\n'
            invariant
                k <= n == all@.len(),
                forall|j: int| 0 <= j < k ==> all@[j] == '\n',
            decreases n - k,
        {
            k = k + 1;
        }
        let mut kept: Vec<char> = Vec::new();
        let mut j: usize = k;
        while j < n
            invariant
                k <= j <= n == all@.len(),
                kept@ == all@.subrange(k as int, j as int),
            decreases n - j,
        {
            kept.push(all[j]);
            j = j + 1;
            assert(kept@ =~= all@.subrange(k as int, j as int));
        }
        proof {
            lemma_trim_newlines(all@, k as int);
        }
        let first = if kept.len() > 0 { kept[0] } else { '\0' };
        Scanner { source: kept, read: 0, char: first, file_name, file_pos: Position { col: 1, line: 1 } }
    }

    /// Resets the scanner to the beginning of the file
    pub fn reset(&mut self)
        requires
            old(self).wf(),
        ensures
            final(self).wf(),
            final(self)@ == old(self)@.rewound(),
    {
        self.read = 0;
        self.char = if self.source.len() > 0 { self.source[0] } else { '\0' };
        self.file_pos = Position { col: 1, line: 1 };
    }

    /// Advances the scanner `count` characters, three at most
    fn advance(&mut self, count: usize)
        requires
            old(self).wf(),
            old(self).read + (if count > 3 { 3 } else { count }) < usize::MAX,
        ensures
            final(self).wf(),
            final(self).read == old(self).read + (if count > 3 { 3 } else { count }),
            final(self).source == old(self).source,
            final(self).file_name == old(self).file_name,
    {
        let count = if count > 3 { 3 } else { count };
        let target = self.read + count;
        while self.read < target
            invariant
                self.wf(),
                self.read <= target < usize::MAX,
                self.source == old(self).source,
                self.file_name == old(self).file_name,
            decreases target - self.read,
        {
            let prev = self.char;
            proof {
                lemma_pos_bounds(self.source@, self.read as int + 1);
            }
            self.read = self.read + 1;
            self.char = if self.read < self.source.len() { self.source[self.read] } else { '\0' };
            if prev == '\n' {
                self.file_pos = Position { col: 1, line: self.file_pos.line + 1 };
            } else {
                self.file_pos = Position { col: self.file_pos.col + 1, line: self.file_pos.line };
            }
        }
    }

    /// Returns the char after the current one
    fn peek(&self) -> (r: char)
        requires
            self.wf(),
        ensures
            r == char_at(self.source@, self.read + 1),
    {
        let i = self.read + 1;
        if i < self.source.len() { self.source[i] } else { '\0' }
    }

    /// Returns the char `count` places after the one `peek` returns
    fn peek_plus(&self, count: usize) -> (r: char)
        requires
            self.wf(),
        ensures
            r == char_at(self.source@, self.read + 1 + count),
    {
        let i = self.read + 1;
        if i < self.source.len() && count < self.source.len() - i {
            self.source[i + count]
        } else {
            '\0'
        }
    }

    /// Skips blanks (space, tab, carriage return); a newline is kept
    fn skip_whitespace(&mut self)
        requires
            old(self).wf(),
        ensures
            final(self).wf(),
            final(self).read == skip_blanks(old(self).source@, old(self).read as int),
            final(self).source == old(self).source,
            final(self).file_name == old(self).file_name,
    {
        while self.char == ' ' || self.char == '\r' || self.char == '\t'
            invariant
                self.wf(),
                self.source == old(self).source,
                self.file_name == old(self).file_name,
                skip_blanks(self.source@, self.read as int) == skip_blanks(
                    self.source@,
                    old(self).read as int,
                ),
            decreases self.source@.len() + 1 - self.read,
        {
            self.advance(1);
        }
    }

    /// Skips a comment: everything up to the next newline or the end
    fn skip_comment(&mut self)
        requires
            old(self).wf(),
        ensures
            final(self).wf(),
            final(self).read == until(old(self).source@, old(self).read as int, '\n'),
            final(self).source == old(self).source,
            final(self).file_name == old(self).file_name,
    {
        while self.read < self.source.len() && self.char != '\n'
            invariant
                self.wf(),
                self.source == old(self).source,
                self.file_name == old(self).file_name,
                until(self.source@, self.read as int, '\n') == until(
                    self.source@,
                    old(self).read as int,
                    '\n',
                ),
            decreases self.source@.len() + 1 - self.read,
        {
            self.advance(1);
        }
    }

    /// Reads a bare word: a tag, or the keyword it spells
    fn read_tag(&mut self) -> (r: Token)
        requires
            old(self).wf(),
            alphabetical(old(self).char),
        ensures
            final(self).wf(),
            final(self).source == old(self).source,
            final(self).file_name == old(self).file_name,
            token_matches(r, lex_tag(old(self).source@, old(self).read as int), old(self).source@, old(self).file_name@),
            final(self).read == lex_tag(old(self).source@, old(self).read as int).next,
    {
        let start = self.read;
        let pos = self.file_pos;
        while is_alphanumeric(self.char)
            invariant
                self.wf(),
                self.source == old(self).source,
                self.file_name == old(self).file_name,
                start <= self.read <= self.source@.len(),
                alnum_end(self.source@, self.read as int) == alnum_end(self.source@, start as int),
            decreases self.source@.len() + 1 - self.read,
        {
            self.advance(1);
        }
        if self.char == '?' || self.char == '!' {
            self.advance(1);
        }
        let end = self.read;
        let tt = match keyword_at(&self.source, start, end) {
            Some(keyword) => keyword,
            None => TokenType::Tag(string_of(&self.source, start, end)),
        };
        Token { tt, pos, file_name: self.file_name.clone() }
    }

    /// Reads an integer, or a float if a '.' follows its digits
    fn read_number(&mut self) -> (r: Token)
        requires
            old(self).wf(),
            digit(old(self).char),
        ensures
            final(self).wf(),
            final(self).source == old(self).source,
            final(self).file_name == old(self).file_name,
            token_matches(r, lex_number(old(self).source@, old(self).read as int), old(self).source@, old(self).file_name@),
            final(self).read == lex_number(old(self).source@, old(self).read as int).next,
    {
        let start = self.read;
        let pos = self.file_pos;
        while is_integer(self.char)
            invariant
                self.wf(),
                self.source == old(self).source,
                self.file_name == old(self).file_name,
                start <= self.read <= self.source@.len(),
                digits_end(self.source@, self.read as int) == digits_end(self.source@, start as int),
            decreases self.source@.len() + 1 - self.read,
        {
            self.advance(1);
        }
        if self.char == '.' {
            self.advance(1);
            return self.read_float(start, pos);
        }
        Token {
            tt: TokenType::Integer(string_of(&self.source, start, self.read)),
            pos,
            file_name: self.file_name.clone(),
        }
    }

    /// Reads the digits after the '.' of a float that started at `start`
    fn read_float(&mut self, start: usize, pos: Position) -> (r: Token)
        requires
            old(self).wf(),
            start <= old(self).read <= old(self).source@.len(),
        ensures
            final(self).wf(),
            final(self).source == old(self).source,
            final(self).file_name == old(self).file_name,
            final(self).read == digits_end(old(self).source@, old(self).read as int),
            r.tt@ == TokenView::Float(old(self).source@.subrange(start as int, final(self).read as int)),
            r.pos == pos,
            r.file_name@ == old(self).file_name@,
    {
        while is_integer(self.char)
            invariant
                self.wf(),
                self.source == old(self).source,
                self.file_name == old(self).file_name,
                old(self).read <= self.read <= self.source@.len(),
                start <= old(self).read,
                digits_end(self.source@, self.read as int) == digits_end(self.source@, old(self).read as int),
            decreases self.source@.len() + 1 - self.read,
        {
            self.advance(1);
        }
        Token {
            tt: TokenType::Float(string_of(&self.source, start, self.read)),
            pos,
            file_name: self.file_name.clone(),
        }
    }

    /// Reads the text between the delimiter under the cursor and the next
    /// one (or the end of the source), consuming both delimiters
    fn read_delimited(&mut self, delim: char) -> (r: (String, Position))
        requires
            old(self).wf(),
            old(self).char == delim,
            old(self).read < old(self).source@.len(),
        ensures
            final(self).wf(),
            final(self).source == old(self).source,
            final(self).file_name == old(self).file_name,
            r.0@ == quoted(old(self).source@, old(self).read as int, delim).0,
            final(self).read == quoted(old(self).source@, old(self).read as int, delim).1,
            r.1.line == line_at(old(self).source@, old(self).read as int),
            r.1.col == col_at(old(self).source@, old(self).read as int),
    {
        let pos = self.file_pos;
        self.advance(1);
        let start = self.read;
        while self.read < self.source.len() && self.char != delim
            invariant
                self.wf(),
                self.source == old(self).source,
                self.file_name == old(self).file_name,
                start <= self.read <= self.source@.len(),
                until(self.source@, self.read as int, delim) == until(self.source@, start as int, delim),
            decreases self.source@.len() - self.read,
        {
            self.advance(1);
        }
        let end = self.read;
        if self.read < self.source.len() {
            self.advance(1);
        }
        (string_of(&self.source, start, end), pos)
    }

    /// Reads a string between double quotes
    fn read_string(&mut self) -> (r: Token)
        requires
            old(self).wf(),
            old(self).char == '"',
        ensures
            final(self).wf(),
            final(self).source == old(self).source,
            final(self).file_name == old(self).file_name,
            token_matches(r, lex_body(old(self).source@, old(self).read as int), old(self).source@, old(self).file_name@),
            final(self).read == lex_body(old(self).source@, old(self).read as int).next,
    {
        let (text, pos) = self.read_delimited('"');
        Token { tt: TokenType::String(text), pos, file_name: self.file_name.clone() }
    }

    /// Reads a regex between backticks
    fn read_regex(&mut self) -> (r: Token)
        requires
            old(self).wf(),
            old(self).char == '`',
        ensures
            final(self).wf(),
            final(self).source == old(self).source,
            final(self).file_name == old(self).file_name,
            token_matches(r, lex_body(old(self).source@, old(self).read as int), old(self).source@, old(self).file_name@),
            final(self).read == lex_body(old(self).source@, old(self).read as int).next,
    {
        let (text, pos) = self.read_delimited('`');
        Token { tt: TokenType::Regex(text), pos, file_name: self.file_name.clone() }
    }

    /// Reads a multiline string: lines that each start with a `\\` marker
    fn read_multistring(&mut self) -> (r: Token)
        requires
            old(self).wf(),
            old(self).char == '\\',
            char_at(old(self).source@, old(self).read + 1) == '\\',
        ensures
            final(self).wf(),
            final(self).source == old(self).source,
            final(self).file_name == old(self).file_name,
            token_matches(r, lex_body(old(self).source@, old(self).read as int), old(self).source@, old(self).file_name@),
            final(self).read == lex_body(old(self).source@, old(self).read as int).next,
    {
        let ghost src = self.source@;
        self.advance(2);
        let ghost first = self.read as int;
        let pos = self.file_pos;
        let mut text = String::new();
        loop
            invariant_except_break
                multiline(src, first) == (text@ + multiline(src, self.read as int).0, multiline(src, self.read as int).1),
            invariant
                self.wf(),
                self.source@ == src,
                self.source == old(self).source,
                self.file_name == old(self).file_name,
                first <= self.read <= src.len(),
            ensures
                multiline(src, first) == (text@, self.read as int),
            decreases src.len() - self.read,
        {
            let start = self.read;
            while self.read < self.source.len() && self.char != '\n'
                invariant
                    self.wf(),
                    self.source@ == src,
                    self.source == old(self).source,
                    self.file_name == old(self).file_name,
                    start <= self.read <= src.len(),
                    until(src, self.read as int, '\n') == until(src, start as int, '\n'),
                decreases src.len() - self.read,
            {
                self.advance(1);
            }
            let ghost before = text@;
            let ghost e = self.read as int;
            proof {
                lemma_until_bounds(src, start as int, '\n');
            }
            push_range(&mut text, &self.source, start, self.read);
            if self.read >= self.source.len() {
                break;
            }
            self.advance(1);
            self.skip_whitespace();
            proof {
                lemma_skip_blanks_bounds(src, e + 1);
            }
            if self.char == '\\' && self.peek() == '\\' {
                push_char(&mut text, '\n');
                self.advance(2);
                proof {
                    let seg = src.subrange(start as int, until(src, start as int, '\n'));
                    assert(text@ == before + seg + seq!['\n']);
                    let rest = multiline(src, self.read as int);
                    assert(multiline(src, start as int) == (seg + seq!['\n'] + rest.0, rest.1));
                    assert(before + (seg + seq!['\n'] + rest.0) =~= text@ + rest.0);
                }
            } else {
                break;
            }
        }
        Token { tt: TokenType::String(text), pos, file_name: self.file_name.clone() }
    }

    /// Consumes the operator character under the cursor, then the next one
    /// too if a rule names it: the first such rule gives the kind, else
    /// `default` does
    fn compound_or_else(&mut self, rules: Vec<(char, TokenType)>, default: TokenType) -> (r: TokenType)
        requires
            old(self).wf(),
            old(self).read + 2 < usize::MAX,
        ensures
            final(self).wf(),
            final(self).source == old(self).source,
            final(self).file_name == old(self).file_name,
            ({
                let d = char_at(old(self).source@, old(self).read + 1);
                match first_rule(rules@, d) {
                    Some(t) => r == t && final(self).read == old(self).read + 2,
                    None => r == default && final(self).read == old(self).read + 1,
                }
            }),
    {
        let ghost d = char_at(self.source@, self.read + 1);
        self.advance(1);
        let mut table = rules;
        let ghost all = table@;
        let mut k: usize = 0;
        assert(all.subrange(0, all.len() as int) =~= all);
        while k < table.len()
            invariant
                self.wf(),
                self.source == old(self).source,
                self.file_name == old(self).file_name,
                self.read == old(self).read + 1,
                self.read + 1 < usize::MAX,
                self.char == d,
                table@ == all,
                rules@ == all,
                k <= all.len(),
                first_rule(all, d) == first_rule(all.subrange(k as int, all.len() as int), d),
            decreases all.len() - k,
        {
            assert(all.subrange(k as int, all.len() as int).drop_first() =~= all.subrange(
                k as int + 1,
                all.len() as int,
            ));
            if self.char == table[k].0 {
                assert(all.subrange(k as int, all.len() as int)[0] == all[k as int]);
                self.advance(1);
                let rule = table.swap_remove(k);
                return rule.1;
            }
            k = k + 1;
        }
        default
    }

    /// Consumes three characters if the two after the cursor match a rule,
    /// and returns that rule's kind
    fn compound_three(&mut self, rules: Vec<(char, char, TokenType)>) -> (r: Option<TokenType>)
        requires
            old(self).wf(),
            old(self).read + 3 < usize::MAX,
        ensures
            final(self).wf(),
            final(self).source == old(self).source,
            final(self).file_name == old(self).file_name,
            r == first_rule3(
                rules@,
                char_at(old(self).source@, old(self).read + 1),
                char_at(old(self).source@, old(self).read + 2),
            ),
            final(self).read == old(self).read + (if r is Some { 3int } else { 0 }),
    {
        let ghost d = char_at(self.source@, self.read + 1);
        let ghost e = char_at(self.source@, self.read + 2);
        let mut table = rules;
        let ghost all = table@;
        let mut k: usize = 0;
        assert(all.subrange(0, all.len() as int) =~= all);
        while k < table.len()
            invariant
                self == old(self),
                self.wf(),
                self.read + 3 < usize::MAX,
                d == char_at(self.source@, self.read + 1),
                e == char_at(self.source@, self.read + 2),
                table@ == all,
                rules@ == all,
                k <= all.len(),
                first_rule3(all, d, e) == first_rule3(all.subrange(k as int, all.len() as int), d, e),
            decreases all.len() - k,
        {
            assert(all.subrange(k as int, all.len() as int).drop_first() =~= all.subrange(
                k as int + 1,
                all.len() as int,
            ));
            if self.peek() == table[k].0 {
                if self.peek_plus(1) == table[k].1 {
                    assert(all.subrange(k as int, all.len() as int)[0] == all[k as int]);
                    self.advance(3);
                    let rule = table.swap_remove(k);
                    return Some(rule.2);
                }
            }
            k = k + 1;
        }
        None
    }

    /// Reads the token under the cursor, passing over a comment first
    fn get_next_token(&mut self) -> (r: Token)
        requires
            old(self).wf(),
            old(self).read <= old(self).source@.len(),
        ensures
            final(self).wf(),
            final(self).source == old(self).source,
            final(self).file_name == old(self).file_name,
            token_matches(r, lex_at(old(self).source@, old(self).read as int), old(self).source@, old(self).file_name@),
            final(self).read == lex_at(old(self).source@, old(self).read as int).next,
    {
        if self.char == '#' {
            proof {
                lemma_until_bounds(self.source@, self.read as int, '\n');
            }
            self.skip_comment();
        }
        let ch = self.char;
        if is_alphabetical(ch) {
            self.read_tag()
        } else if is_integer(ch) {
            self.read_number()
        } else if ch == '"' {
            self.read_string()
        } else if ch == '\\' && self.peek() == '\\' {
            self.read_multistring()
        } else if ch == '`' {
            self.read_regex()
        } else {
            let ghost src = self.source@;
            let ghost i = self.read as int;
            let pos = self.file_pos;
            let tt = match ch {
                '=' => self.compound_or_else(
                    vec![('>', TokenType::FatArrow), ('~', TokenType::PatternMatch), ('=', TokenType::Equal)],
                    TokenType::Assign,
                ),
                '+' => self.compound_or_else(vec![('+', TokenType::Increment)], TokenType::Plus),
                '*' => self.compound_or_else(vec![('*', TokenType::Power)], TokenType::Asterisk),
                '-' => self.compound_or_else(
                    vec![('>', TokenType::Arrow), ('-', TokenType::Decrement)],
                    TokenType::Minus,
                ),
                '<' => self.compound_or_else(
                    vec![('=', TokenType::LesserEq), ('<', TokenType::Lshift)],
                    TokenType::Lesser,
                ),
                '>' => self.compound_or_else(
                    vec![('=', TokenType::GreaterEq), ('>', TokenType::Rshift)],
                    TokenType::Greater,
                ),
                '!' => self.compound_or_else(
                    vec![('=', TokenType::NotEqual), ('~', TokenType::PatternNotMatch)],
                    TokenType::Bang,
                ),
                ':' => self.compound_or_else(vec![('=', TokenType::AssignExp)], TokenType::Colon),
                '|' => self.compound_or_else(vec![('>', TokenType::Pipeline)], TokenType::Pipe),
                '.' => match self.compound_three(vec![('.', '.', TokenType::RangeInc)]) {
                    Some(tt) => tt,
                    None => self.compound_or_else(vec![('.', TokenType::RangeExc)], TokenType::Dot),
                },
                _ => {
                    self.advance(1);
                    TokenType::of_char(ch)
                },
            };
            proof {
                reveal_with_fuel(first_rule, 4);
                reveal_with_fuel(first_rule3, 2);
            }
            assert(tt == operator(ch, char_at(src, i + 1), char_at(src, i + 2)).0);
            Token { tt, pos, file_name: self.file_name.clone() }
        }
    }

    /// Scans the next token from the source; `None` once the end-of-input
    /// token has been handed out
    pub fn next_token(&mut self) -> (r: Option<Token>)
        requires
            old(self).wf(),
        ensures
            final(self).wf(),
            old(self)@.read > old(self)@.source.len() ==> r is None && final(self)@ == old(self)@,
            old(self)@.read <= old(self)@.source.len() ==> {
                let s = step(old(self)@.source, old(self)@.read);
                &&& r is Some
                &&& token_matches(r->0, s, old(self)@.source, old(self)@.file_name)
                &&& final(self)@ == ScanState { read: s.next, ..old(self)@ }
            },
            r is None <==> old(self)@.remaining().len() == 0,
            r is Some ==> {
                &&& token_matches(r->0, old(self)@.remaining()[0], old(self)@.source, old(self)@.file_name)
                &&& final(self)@.remaining() == old(self)@.remaining().drop_first()
            },
    {
        if self.read > self.source.len() {
            return None;
        }
        proof {
            lemma_tokens_from_unfold(self.source@, self.read as int);
        }
        self.skip_whitespace();
        proof {
            lemma_skip_blanks_bounds(self.source@, old(self).read as int);
        }
        let token = self.get_next_token();
        Some(token)
    }
}

} // verus!
