//! The scanner's behaviour as mathematics: which token starts where, where it
//! ends, and what text it carries, as functions of the source characters.

use vstd::prelude::*;

use crate::token::{char_kind, keyword_of, Token, TokenType, TokenView};
use crate::utilities::{alphabetical, alphanumeric, digit};

verus! {

/// The character at `i`, or NUL outside the source.
pub open spec fn char_at(src: Seq<char>, i: int) -> char {
    if 0 <= i < src.len() {
        src[i]
    } else {
        '\0'
    }
}

/// Blank characters: skipped between tokens. A newline is not blank.
pub open spec fn blank(ch: char) -> bool {
    ch == ' ' || ch == '\r' || ch == '\t'
}

/// The line of the character at `i`: one more than the newlines before it.
pub open spec fn line_at(src: Seq<char>, i: int) -> int
    decreases i,
{
    if i <= 0 {
        1
    } else if char_at(src, i - 1) == '\n' {
        line_at(src, i - 1) + 1
    } else {
        line_at(src, i - 1)
    }
}

/// The column of the character at `i`: it restarts at 1 after each newline.
pub open spec fn col_at(src: Seq<char>, i: int) -> int
    decreases i,
{
    if i <= 0 {
        1
    } else if char_at(src, i - 1) == '\n' {
        1
    } else {
        col_at(src, i - 1) + 1
    }
}

/// The first index from `i` on that holds no blank character.
pub open spec fn skip_blanks(src: Seq<char>, i: int) -> int
    decreases src.len() - i,
{
    if 0 <= i < src.len() && blank(src[i]) {
        skip_blanks(src, i + 1)
    } else {
        i
    }
}

/// The end of the run of letters, digits and `_` that starts at `i`.
pub open spec fn alnum_end(src: Seq<char>, i: int) -> int
    decreases src.len() - i,
{
    if 0 <= i < src.len() && alphanumeric(src[i]) {
        alnum_end(src, i + 1)
    } else {
        i
    }
}

/// The end of the run of digits that starts at `i`.
pub open spec fn digits_end(src: Seq<char>, i: int) -> int
    decreases src.len() - i,
{
    if 0 <= i < src.len() && digit(src[i]) {
        digits_end(src, i + 1)
    } else {
        i
    }
}

/// The first index from `i` on that holds `stop`, or the end of the source.
pub open spec fn until(src: Seq<char>, i: int, stop: char) -> int
    decreases src.len() - i,
{
    if 0 <= i < src.len() && src[i] != stop {
        until(src, i + 1, stop)
    } else {
        i
    }
}

/// A run never ends before it starts, nor past the end of the source.
pub proof fn lemma_skip_blanks_bounds(src: Seq<char>, i: int)
    requires
        0 <= i <= src.len(),
    ensures
        i <= skip_blanks(src, i) <= src.len(),
    decreases src.len() - i,
{
    if i < src.len() && blank(src[i]) {
        lemma_skip_blanks_bounds(src, i + 1);
    }
}

/// A run never ends before it starts, nor past the end of the source.
pub proof fn lemma_until_bounds(src: Seq<char>, i: int, stop: char)
    requires
        0 <= i <= src.len(),
    ensures
        i <= until(src, i, stop) <= src.len(),
        until(src, i, stop) < src.len() ==> src[until(src, i, stop)] == stop,
    decreases src.len() - i,
{
    if i < src.len() && src[i] != stop {
        lemma_until_bounds(src, i + 1, stop);
    }
}

/// A run never ends before it starts, nor past the end of the source.
pub proof fn lemma_alnum_end_bounds(src: Seq<char>, i: int)
    requires
        0 <= i <= src.len(),
    ensures
        i <= alnum_end(src, i) <= src.len(),
    decreases src.len() - i,
{
    if i < src.len() && alphanumeric(src[i]) {
        lemma_alnum_end_bounds(src, i + 1);
    }
}

/// A run never ends before it starts, nor past the end of the source.
pub proof fn lemma_digits_end_bounds(src: Seq<char>, i: int)
    requires
        0 <= i <= src.len(),
    ensures
        i <= digits_end(src, i) <= src.len(),
    decreases src.len() - i,
{
    if i < src.len() && digit(src[i]) {
        lemma_digits_end_bounds(src, i + 1);
    }
}

/// One token as the scanner finds it: its kind, the index its position is
/// taken from, and the index at which scanning resumes.
pub struct Lexed {
    pub kind: TokenView,
    pub at: int,
    pub next: int,
}

/// A bare word starting at `i`: letters, digits and `_`, then at most one
/// `?` or `!`; a keyword if it spells one.
pub open spec fn lex_tag(src: Seq<char>, i: int) -> Lexed {
    let e0 = alnum_end(src, i);
    let e = if char_at(src, e0) == '?' || char_at(src, e0) == '!' {
        e0 + 1
    } else {
        e0
    };
    let text = src.subrange(i, e);
    Lexed {
        kind: match keyword_of(text) {
            Some(k) => TokenView::Plain(k),
            None => TokenView::Tag(text),
        },
        at: i,
        next: e,
    }
}

/// A number starting at `i`: digits, and if a `.` follows them, that `.`
/// and the digits after it (a second `.` is left alone).
pub open spec fn lex_number(src: Seq<char>, i: int) -> Lexed {
    let e0 = digits_end(src, i);
    if char_at(src, e0) == '.' {
        let e1 = digits_end(src, e0 + 1);
        Lexed { kind: TokenView::Float(src.subrange(i, e1)), at: i, next: e1 }
    } else {
        Lexed { kind: TokenView::Integer(src.subrange(i, e0)), at: i, next: e0 }
    }
}

/// The text between the delimiter at `i` and the next `delim` (or the end of
/// the source), and the index after the closing delimiter when there is one.
pub open spec fn quoted(src: Seq<char>, i: int, delim: char) -> (Seq<char>, int) {
    let e = until(src, i + 1, delim);
    (src.subrange(i + 1, e), if e < src.len() { e + 1 } else { e })
}

/// A multiline string whose first segment starts at `i`, just after a `\\`
/// marker: each segment runs to the end of its line, and it goes on while
/// the next line, after its blanks, starts with `\\` again. Segments are
/// joined by a newline. Also gives the index where scanning resumes.
pub open spec fn multiline(src: Seq<char>, i: int) -> (Seq<char>, int)
    decreases src.len() - i,
{
    let e = until(src, i, '\n');
    let seg = src.subrange(i, e);
    if e >= src.len() {
        (seg, e)
    } else {
        let j = skip_blanks(src, e + 1);
        if char_at(src, j) == '\\' && char_at(src, j + 1) == '\\' && i < j + 2 <= src.len() {
            let rest = multiline(src, j + 2);
            (seg + seq!['\n'] + rest.0, rest.1)
        } else {
            (seg, j)
        }
    }
}

/// The result of the first rule whose character is `d`, if any.
pub open spec fn first_rule(rules: Seq<(char, TokenType)>, d: char) -> Option<TokenType>
    decreases rules.len(),
{
    if rules.len() == 0 {
        None
    } else if rules[0].0 == d {
        Some(rules[0].1)
    } else {
        first_rule(rules.drop_first(), d)
    }
}

/// The result of the first rule whose two characters are `d` then `e`, if any.
pub open spec fn first_rule3(rules: Seq<(char, char, TokenType)>, d: char, e: char) -> Option<TokenType>
    decreases rules.len(),
{
    if rules.len() == 0 {
        None
    } else if rules[0].0 == d && rules[0].1 == e {
        Some(rules[0].2)
    } else {
        first_rule3(rules.drop_first(), d, e)
    }
}

/// An operator or punctuation led by `c` and followed by `d` then `e`: the
/// longest form that matches wins. Returns the kind and how many characters
/// it takes. Any other character stands for itself.
pub open spec fn operator(c: char, d: char, e: char) -> (TokenType, int) {
    if c == '=' {
        if d == '>' {
            (TokenType::FatArrow, 2)
        } else if d == '~' {
            (TokenType::PatternMatch, 2)
        } else if d == '=' {
            (TokenType::Equal, 2)
        } else {
            (TokenType::Assign, 1)
        }
    } else if c == '+' {
        if d == '+' {
            (TokenType::Increment, 2)
        } else {
            (TokenType::Plus, 1)
        }
    } else if c == '*' {
        if d == '*' {
            (TokenType::Power, 2)
        } else {
            (TokenType::Asterisk, 1)
        }
    } else if c == '-' {
        if d == '>' {
            (TokenType::Arrow, 2)
        } else if d == '-' {
            (TokenType::Decrement, 2)
        } else {
            (TokenType::Minus, 1)
        }
    } else if c == '<' {
        if d == '=' {
            (TokenType::LesserEq, 2)
        } else if d == '<' {
            (TokenType::Lshift, 2)
        } else {
            (TokenType::Lesser, 1)
        }
    } else if c == '>' {
        if d == '=' {
            (TokenType::GreaterEq, 2)
        } else if d == '>' {
            (TokenType::Rshift, 2)
        } else {
            (TokenType::Greater, 1)
        }
    } else if c == '!' {
        if d == '=' {
            (TokenType::NotEqual, 2)
        } else if d == '~' {
            (TokenType::PatternNotMatch, 2)
        } else {
            (TokenType::Bang, 1)
        }
    } else if c == ':' {
        if d == '=' {
            (TokenType::AssignExp, 2)
        } else {
            (TokenType::Colon, 1)
        }
    } else if c == '|' {
        if d == '>' {
            (TokenType::Pipeline, 2)
        } else {
            (TokenType::Pipe, 1)
        }
    } else if c == '.' {
        if d == '.' && e == '.' {
            (TokenType::RangeInc, 3)
        } else if d == '.' {
            (TokenType::RangeExc, 2)
        } else {
            (TokenType::Dot, 1)
        }
    } else {
        (char_kind(c), 1)
    }
}

/// The token that starts at `i`, where no comment starts.
pub open spec fn lex_body(src: Seq<char>, i: int) -> Lexed {
    let c = char_at(src, i);
    if alphabetical(c) {
        lex_tag(src, i)
    } else if digit(c) {
        lex_number(src, i)
    } else if c == '"' {
        let q = quoted(src, i, '"');
        Lexed { kind: TokenView::Str(q.0), at: i, next: q.1 }
    } else if c == '\\' && char_at(src, i + 1) == '\\' {
        let m = multiline(src, i + 2);
        Lexed { kind: TokenView::Str(m.0), at: i + 2, next: m.1 }
    } else if c == '`' {
        let q = quoted(src, i, '`');
        Lexed { kind: TokenView::Regex(q.0), at: i, next: q.1 }
    } else {
        let op = operator(c, char_at(src, i + 1), char_at(src, i + 2));
        Lexed { kind: TokenView::Plain(op.0), at: i, next: i + op.1 }
    }
}

/// The token found at `i`: a comment there is passed over up to the newline
/// (or end of source) that closes it.
pub open spec fn lex_at(src: Seq<char>, i: int) -> Lexed {
    if char_at(src, i) == '#' {
        lex_body(src, until(src, i, '\n'))
    } else {
        lex_body(src, i)
    }
}

/// The next token when scanning resumes at `read`: blanks first, then a token.
pub open spec fn step(src: Seq<char>, read: int) -> Lexed {
    lex_at(src, skip_blanks(src, read))
}

/// All tokens produced from `read` on, up to and including the end-of-input
/// token.
pub open spec fn tokens_from(src: Seq<char>, read: int) -> Seq<Lexed>
    decreases src.len() + 1 - read,
{
    if read < 0 || read > src.len() {
        Seq::empty()
    } else {
        let s = step(src, read);
        if read < s.next <= src.len() + 1 {
            seq![s] + tokens_from(src, s.next)
        } else {
            seq![s]
        }
    }
}

/// A run of characters other than `stop`, closed by `stop` or by the end of
/// the source, ends where it is closed.
pub proof fn lemma_until_at(src: Seq<char>, i: int, j: int, stop: char)
    requires
        0 <= i <= j <= src.len(),
        forall|m: int| i <= m < j ==> src[m] != stop,
        j == src.len() || src[j] == stop,
    ensures
        until(src, i, stop) == j,
    decreases j - i,
{
    if i < j {
        lemma_until_at(src, i + 1, j, stop);
    }
}

/// A run of blanks, closed by something else or by the end of the source,
/// ends where it is closed.
pub proof fn lemma_skip_blanks_at(src: Seq<char>, i: int, j: int)
    requires
        0 <= i <= j <= src.len(),
        forall|m: int| i <= m < j ==> blank(src[m]),
        j == src.len() || !blank(src[j]),
    ensures
        skip_blanks(src, i) == j,
    decreases j - i,
{
    if i < j {
        lemma_skip_blanks_at(src, i + 1, j);
    }
}

/// A run of letters, digits and `_`, closed by something else or by the
/// end of the source, ends where it is closed.
pub proof fn lemma_alnum_end_at(src: Seq<char>, i: int, j: int)
    requires
        0 <= i <= j <= src.len(),
        forall|m: int| i <= m < j ==> alphanumeric(#[trigger] src[m]),
        j == src.len() || !alphanumeric(src[j]),
    ensures
        alnum_end(src, i) == j,
    decreases j - i,
{
    if i < j {
        lemma_alnum_end_at(src, i + 1, j);
    }
}

/// Line and column never exceed one more than the index, nor go below 1.
pub proof fn lemma_pos_bounds(src: Seq<char>, i: int)
    requires
        0 <= i,
    ensures
        1 <= line_at(src, i) <= i + 1,
        1 <= col_at(src, i) <= i + 1,
    decreases i,
{
    if i > 0 {
        lemma_pos_bounds(src, i - 1);
    }
}

/// A multiline string ends no earlier than its first segment starts, and
/// within the source.
pub proof fn lemma_multiline_bounds(src: Seq<char>, i: int)
    requires
        0 <= i <= src.len(),
    ensures
        i <= multiline(src, i).1 <= src.len(),
    decreases src.len() - i,
{
    let e = until(src, i, '\n');
    lemma_until_bounds(src, i, '\n');
    if e < src.len() {
        let j = skip_blanks(src, e + 1);
        lemma_skip_blanks_bounds(src, e + 1);
        if char_at(src, j) == '\\' && char_at(src, j + 1) == '\\' && i < j + 2 <= src.len() {
            lemma_multiline_bounds(src, j + 2);
        }
    }
}

/// Scanning from `i` consumes at least one character; the token found
/// there is placed no earlier than `i` nor after where scanning resumes;
/// scanning resumes within the source, or just past its end after the
/// end-of-input token.
pub proof fn lemma_lex_at_bounds(src: Seq<char>, i: int)
    requires
        0 <= i <= src.len(),
    ensures
        i <= lex_at(src, i).at <= lex_at(src, i).next <= src.len() + 1,
        i < lex_at(src, i).next,
        lex_at(src, i).at <= src.len(),
        lex_at(src, i).next == src.len() + 1 ==> lex_at(src, i).at == src.len()
            && lex_at(src, i).kind == TokenView::Plain(TokenType::Eof),
{
    if char_at(src, i) == '#' {
        lemma_until_bounds(src, i, '\n');
        lemma_lex_body_bounds(src, until(src, i, '\n'));
    } else {
        lemma_lex_body_bounds(src, i);
    }
}

/// As `lemma_lex_at_bounds`, where no comment starts.
proof fn lemma_lex_body_bounds(src: Seq<char>, i: int)
    requires
        0 <= i <= src.len(),
    ensures
        i <= lex_body(src, i).at <= lex_body(src, i).next <= src.len() + 1,
        i < lex_body(src, i).next,
        lex_body(src, i).at <= src.len(),
        lex_body(src, i).next == src.len() + 1 ==> lex_body(src, i).at == src.len()
            && lex_body(src, i).kind == TokenView::Plain(TokenType::Eof),
{
    let c = char_at(src, i);
    if alphabetical(c) {
        lemma_alnum_end_bounds(src, i + 1);
    } else if digit(c) {
        lemma_digits_end_bounds(src, i + 1);
        let e0 = digits_end(src, i);
        if char_at(src, e0) == '.' {
            lemma_digits_end_bounds(src, e0 + 1);
        }
    } else if c == '"' || c == '`' {
        lemma_until_bounds(src, i + 1, c);
    } else if c == '\\' && char_at(src, i + 1) == '\\' {
        lemma_multiline_bounds(src, i + 2);
    } else {
        let op = operator(c, char_at(src, i + 1), char_at(src, i + 2));
        assert(op.1 == 1 || (op.1 == 2 && char_at(src, i + 1) != '\0') || (op.1 == 3
            && char_at(src, i + 2) != '\0'));
    }
}

/// Each step moves scanning forward, to at most just past the end, and only
/// the end-of-input token takes it there.
pub proof fn lemma_step_bounds(src: Seq<char>, read: int)
    requires
        0 <= read <= src.len(),
    ensures
        read <= step(src, read).at <= step(src, read).next <= src.len() + 1,
        read < step(src, read).next,
        step(src, read).at <= src.len(),
        step(src, read).next == src.len() + 1 ==> step(src, read).at == src.len()
            && step(src, read).kind == TokenView::Plain(TokenType::Eof),
{
    lemma_skip_blanks_bounds(src, read);
    lemma_lex_at_bounds(src, skip_blanks(src, read));
}

/// The first remaining token is the next step, and the rest follow from
/// where that step leaves off.
pub proof fn lemma_tokens_from_unfold(src: Seq<char>, read: int)
    requires
        0 <= read <= src.len(),
    ensures
        tokens_from(src, read) == seq![step(src, read)] + tokens_from(src, step(src, read).next),
        tokens_from(src, read).len() > 0,
        tokens_from(src, read)[0] == step(src, read),
        tokens_from(src, read).drop_first() == tokens_from(src, step(src, read).next),
{
    lemma_step_bounds(src, read);
    assert((seq![step(src, read)] + tokens_from(src, step(src, read).next)).drop_first()
        =~= tokens_from(src, step(src, read).next));
}

/// Scanning only looks forward: past a prefix `q`, the runs of `q + s`
/// are those of `s`, moved by the length of `q`.
pub proof fn lemma_shift_runs(q: Seq<char>, s: Seq<char>, j: int, stop: char)
    requires
        0 <= j,
    ensures
        char_at(q + s, q.len() + j) == char_at(s, j),
        skip_blanks(q + s, q.len() + j) == q.len() + skip_blanks(s, j),
        alnum_end(q + s, q.len() + j) == q.len() + alnum_end(s, j),
        digits_end(q + s, q.len() + j) == q.len() + digits_end(s, j),
        until(q + s, q.len() + j, stop) == q.len() + until(s, j, stop),
    decreases s.len() - j,
{
    if j < s.len() {
        assert((q + s)[q.len() + j] == s[j]);
        lemma_shift_runs(q, s, j + 1, stop);
    }
}

/// Past a prefix `q`, a multiline string of `q + s` has the text of the
/// one in `s`, and ends moved by the length of `q`.
pub proof fn lemma_shift_multiline(q: Seq<char>, s: Seq<char>, j: int)
    requires
        0 <= j <= s.len(),
    ensures
        multiline(q + s, q.len() + j) == (multiline(s, j).0, q.len() + multiline(s, j).1),
    decreases s.len() - j,
{
    let src = q + s;
    let n = q.len() as int;
    lemma_shift_runs(q, s, j, '\n');
    lemma_until_bounds(s, j, '\n');
    let e = until(s, j, '\n');
    assert(src.subrange(n + j, n + e) =~= s.subrange(j, e));
    if e < s.len() {
        lemma_shift_runs(q, s, e + 1, '\n');
        lemma_skip_blanks_bounds(s, e + 1);
        let jj = skip_blanks(s, e + 1);
        lemma_shift_runs(q, s, jj, '\n');
        lemma_shift_runs(q, s, jj + 1, '\n');
        if char_at(s, jj) == '\\' && char_at(s, jj + 1) == '\\' && j < jj + 2 <= s.len() {
            lemma_shift_multiline(q, s, jj + 2);
        }
    }
}

/// Past a prefix `q`, the token that `q + s` has at an index is the one
/// `s` has there, moved by the length of `q`.
pub proof fn lemma_shift_step(q: Seq<char>, s: Seq<char>, j: int)
    requires
        0 <= j <= s.len(),
    ensures
        step(q + s, q.len() + j) == (Lexed {
            kind: step(s, j).kind,
            at: q.len() + step(s, j).at,
            next: q.len() + step(s, j).next,
        }),
{
    let src = q + s;
    let n = q.len() as int;
    lemma_shift_runs(q, s, j, '\n');
    lemma_skip_blanks_bounds(s, j);
    let i0 = skip_blanks(s, j);
    lemma_shift_runs(q, s, i0, '\n');
    let i = if char_at(s, i0) == '#' {
        lemma_until_bounds(s, i0, '\n');
        until(s, i0, '\n')
    } else {
        i0
    };
    lemma_shift_lex_body(q, s, i);
}

proof fn lemma_shift_lex_body(q: Seq<char>, s: Seq<char>, i: int)
    requires
        0 <= i <= s.len(),
    ensures
        lex_body(q + s, q.len() + i) == (Lexed {
            kind: lex_body(s, i).kind,
            at: q.len() + lex_body(s, i).at,
            next: q.len() + lex_body(s, i).next,
        }),
{
    let src = q + s;
    let n = q.len() as int;
    lemma_shift_runs(q, s, i, '"');
    lemma_shift_runs(q, s, i + 1, '"');
    lemma_shift_runs(q, s, i + 2, '"');
    let c = char_at(s, i);
    if alphabetical(c) {
        lemma_alnum_end_bounds(s, i);
        let e0 = alnum_end(s, i);
        lemma_shift_runs(q, s, e0, '"');
        let e = lex_tag(s, i).next;
        assert(src.subrange(n + i, n + e) =~= s.subrange(i, e));
    } else if digit(c) {
        lemma_digits_end_bounds(s, i);
        let e0 = digits_end(s, i);
        lemma_shift_runs(q, s, e0, '"');
        if char_at(s, e0) == '.' {
            lemma_shift_runs(q, s, e0 + 1, '"');
            lemma_digits_end_bounds(s, e0 + 1);
            let e1 = digits_end(s, e0 + 1);
            assert(src.subrange(n + i, n + e1) =~= s.subrange(i, e1));
        } else {
            assert(src.subrange(n + i, n + e0) =~= s.subrange(i, e0));
        }
    } else if c == '"' || c == '`' {
        lemma_shift_runs(q, s, i + 1, c);
        lemma_until_bounds(s, i + 1, c);
        let e = until(s, i + 1, c);
        assert(src.subrange(n + i + 1, n + e) =~= s.subrange(i + 1, e));
    } else if c == '\\' && char_at(s, i + 1) == '\\' {
        lemma_shift_multiline(q, s, i + 2);
    }
}

/// Past a prefix `q`, the tokens that `q + s` has left are those `s` has
/// left, kind for kind, each moved by the length of `q`.
pub proof fn lemma_shift_tokens(q: Seq<char>, s: Seq<char>, j: int)
    requires
        0 <= j,
    ensures
        tokens_from(q + s, q.len() + j).len() == tokens_from(s, j).len(),
        forall|m: int|
            0 <= m < tokens_from(s, j).len() ==> (#[trigger] tokens_from(q + s, q.len() + j)[m]).kind
                == tokens_from(s, j)[m].kind && tokens_from(q + s, q.len() + j)[m].at == q.len()
                + tokens_from(s, j)[m].at,
    decreases s.len() + 1 - j,
{
    if j <= s.len() {
        let n = q.len() as int;
        lemma_shift_step(q, s, j);
        lemma_tokens_from_unfold(s, j);
        lemma_tokens_from_unfold(q + s, n + j);
        let nx = step(s, j).next;
        lemma_step_bounds(s, j);
        lemma_shift_tokens(q, s, nx);
        let t1 = tokens_from(q + s, n + j);
        let t2 = tokens_from(s, j);
        assert forall|m: int| 0 <= m < t2.len() implies (#[trigger] t1[m]).kind == t2[m].kind
            && t1[m].at == n + t2[m].at by {
            if m > 0 {
                assert(t1[m] == tokens_from(q + s, n + nx)[m - 1]);
                assert(t2[m] == tokens_from(s, nx)[m - 1]);
            }
        }
    }
}

/// `t` is the token `l` of `src`, read from the file `file_name`.
pub open spec fn token_matches(t: Token, l: Lexed, src: Seq<char>, file_name: Seq<char>) -> bool {
    &&& t.tt@ == l.kind
    &&& t.pos.line == line_at(src, l.at)
    &&& t.pos.col == col_at(src, l.at)
    &&& t.file_name@ == file_name
}

} // verus!
