//! Properties of whole token streams, proved over the lexer's model.

use vstd::prelude::*;

use crate::lexer::{
    blank, char_at, col_at, lemma_pos_bounds, lemma_skip_blanks_at, lemma_skip_blanks_bounds,
    lemma_alnum_end_at, lemma_alnum_end_bounds, lemma_digits_end_bounds, lemma_shift_tokens,
    lemma_step_bounds, lemma_tokens_from_unfold, lemma_until_at, lemma_until_bounds, line_at,
    alnum_end, digits_end, lex_body, multiline, skip_blanks, step, tokens_from, until, Lexed,
};
use crate::scanner::{fresh, trim_newlines, ScanState};
use crate::token::{char_kind, keyword_of, TokenType, TokenView};
use crate::utilities::{alphabetical, alphanumeric, digit};

verus! {

/// Moving forward in the source never moves a position backwards.
proof fn lemma_pos_monotone(src: Seq<char>, a: int, b: int)
    requires
        0 <= a <= b,
    ensures
        line_at(src, a) < line_at(src, b) || (line_at(src, a) == line_at(src, b) && col_at(src, a)
            <= col_at(src, b)),
    decreases b - a,
{
    if a < b {
        lemma_pos_monotone(src, a, b - 1);
    }
}

/// Every token from `read` on is placed within the source, no earlier than
/// `read`, and no earlier than the tokens before it.
proof fn lemma_token_starts_ordered(src: Seq<char>, read: int)
    requires
        0 <= read,
    ensures
        forall|m: int|
            0 <= m < tokens_from(src, read).len() ==> read <= #[trigger] tokens_from(src, read)[m].at
                <= src.len(),
        forall|j: int, k: int|
            0 <= j <= k < tokens_from(src, read).len() ==> #[trigger] tokens_from(src, read)[j].at
                <= #[trigger] tokens_from(src, read)[k].at,
    decreases src.len() + 1 - read,
{
    if read <= src.len() {
        lemma_tokens_from_unfold(src, read);
        lemma_step_bounds(src, read);
        let s = step(src, read);
        lemma_token_starts_ordered(src, s.next);
        let t = tokens_from(src, read);
        let rest = tokens_from(src, s.next);
        assert forall|m: int| 0 <= m < t.len() implies read <= #[trigger] t[m].at <= src.len() by {
            if m > 0 {
                assert(t[m] == rest[m - 1]);
            }
        }
        assert forall|j: int, k: int| 0 <= j <= k < t.len() implies #[trigger] t[j].at
            <= #[trigger] t[k].at by {
            if k > 0 {
                assert(t[k] == rest[k - 1]);
            }
            if j > 0 {
                assert(t[j] == rest[j - 1]);
            }
        }
    }
}

/// Through the whole token stream of a source, positions never go
/// backwards (by line, then by column within a line), and no line or
/// column is 0.
pub proof fn lemma_positions_ordered(src: Seq<char>, j: int, k: int)
    requires
        0 <= j <= k < tokens_from(src, 0).len(),
    ensures
        line_at(src, tokens_from(src, 0)[j].at) >= 1,
        col_at(src, tokens_from(src, 0)[j].at) >= 1,
        ({
            let a = tokens_from(src, 0)[j].at;
            let b = tokens_from(src, 0)[k].at;
            line_at(src, a) < line_at(src, b) || (line_at(src, a) == line_at(src, b)
                && col_at(src, a) <= col_at(src, b))
        }),
{
    lemma_token_starts_ordered(src, 0);
    let t = tokens_from(src, 0);
    lemma_pos_monotone(src, t[j].at, t[k].at);
    lemma_pos_bounds(src, t[j].at);
}

/// Rewinding a scanner, wherever it stands, makes it hand out again exactly
/// the tokens that a fresh scanner on the same input hands out: kind for
/// kind and position for position.
pub proof fn lemma_reset_rescans(s: ScanState, file_name: Seq<char>, text: Seq<char>)
    requires
        s.source == trim_newlines(text),
        s.file_name == file_name,
    ensures
        s.rewound() == fresh(file_name, text),
        s.rewound().remaining() == fresh(file_name, text).remaining(),
{
}

/// Characters that are operators or punctuation on their own.
pub open spec fn single_operator(ch: char) -> bool {
    ch != '#' && ch != '\n' && ch != '\0' && char_kind(ch) != TokenType::Illegal
}

/// `c` followed by `d` begins a longer operator.
pub open spec fn compound_pair(c: char, d: char) -> bool {
    ||| c == '=' && (d == '>' || d == '~' || d == '=')
    ||| c == '+' && d == '+'
    ||| c == '*' && d == '*'
    ||| c == '-' && (d == '>' || d == '-')
    ||| c == '<' && (d == '=' || d == '<')
    ||| c == '>' && (d == '=' || d == '>')
    ||| c == '!' && (d == '=' || d == '~')
    ||| c == ':' && d == '='
    ||| c == '|' && d == '>'
    ||| c == '.' && d == '.'
}

proof fn lemma_lone_operators_from(src: Seq<char>, r: int)
    requires
        0 <= r <= src.len(),
        forall|k: int| 0 <= k < src.len() ==> single_operator(#[trigger] src[k]),
        forall|k: int| 0 <= k < src.len() - 1 ==> !compound_pair(#[trigger] src[k], src[k + 1]),
    ensures
        tokens_from(src, r).len() == src.len() - r + 1,
        forall|m: int|
            0 <= m < src.len() - r ==> #[trigger] tokens_from(src, r)[m].kind == TokenView::Plain(
                char_kind(src[r + m]),
            ),
        tokens_from(src, r)[src.len() - r].kind == TokenView::Plain(TokenType::Eof),
        forall|m: int| 0 <= m <= src.len() - r ==> #[trigger] tokens_from(src, r)[m].at == r + m,
    decreases src.len() - r,
{
    lemma_tokens_from_unfold(src, r);
    let t = tokens_from(src, r);
    if r < src.len() {
        let c = src[r];
        assert(single_operator(c));
        assert(skip_blanks(src, r) == r);
        if r + 1 < src.len() {
            assert(!compound_pair(c, src[r + 1]));
        }
        assert(step(src, r).next == r + 1);
        lemma_lone_operators_from(src, r + 1);
        let rest = tokens_from(src, r + 1);
        assert forall|m: int| 0 <= m < src.len() - r implies #[trigger] t[m].kind
            == TokenView::Plain(char_kind(src[r + m])) by {
            if m > 0 {
                assert(t[m] == rest[m - 1]);
                assert(src[r + m] == src[(r + 1) + (m - 1)]);
            }
        }
        assert forall|m: int| 0 <= m <= src.len() - r implies #[trigger] t[m].at == r + m by {
            if m > 0 {
                assert(t[m] == rest[m - 1]);
            }
        }
        assert(t[src.len() - r] == rest[src.len() - (r + 1)]);
    } else {
        assert(skip_blanks(src, r) == r);
    }
}

/// On a source without newlines, the character at `k` (and the end of the
/// source) sits on line 1, column `k + 1`.
proof fn lemma_single_line(src: Seq<char>, k: int)
    requires
        0 <= k <= src.len(),
        forall|m: int| 0 <= m < src.len() ==> src[m] != '\n',
    ensures
        line_at(src, k) == 1,
        col_at(src, k) == k + 1,
    decreases k,
{
    if k > 0 {
        lemma_single_line(src, k - 1);
    }
}

/// A source made only of one-character operators, no two adjacent ones
/// forming a longer operator, scans to one token per character, each the
/// kind of that character alone and placed at it (line 1, column `k + 1`
/// for the character at `k`), followed by the end-of-input token on line 1
/// just past the last character.
pub proof fn lemma_lone_operators(src: Seq<char>)
    requires
        forall|k: int| 0 <= k < src.len() ==> single_operator(#[trigger] src[k]),
        forall|k: int| 0 <= k < src.len() - 1 ==> !compound_pair(#[trigger] src[k], src[k + 1]),
    ensures
        tokens_from(src, 0).len() == src.len() + 1,
        forall|k: int|
            0 <= k < src.len() ==> #[trigger] tokens_from(src, 0)[k].kind == TokenView::Plain(
                char_kind(src[k]),
            ),
        tokens_from(src, 0)[src.len() as int].kind == TokenView::Plain(TokenType::Eof),
        forall|k: int|
            0 <= k <= src.len() ==> #[trigger] tokens_from(src, 0)[k].at == k && line_at(src, k) == 1
                && col_at(src, k) == k + 1,
{
    lemma_lone_operators_from(src, 0);
    assert forall|k: int| 0 <= k <= src.len() implies #[trigger] tokens_from(src, 0)[k].at == k
        && line_at(src, k) == 1 && col_at(src, k) == k + 1 by {
        assert(tokens_from(src, 0)[0 + k].at == 0 + k);
        assert forall|m: int| 0 <= m < src.len() implies src[m] != '\n' by {
            assert(single_operator(src[m]));
        }
        lemma_single_line(src, k);
    }
    assert forall|k: int| 0 <= k < src.len() implies #[trigger] tokens_from(src, 0)[k].kind
        == TokenView::Plain(char_kind(src[k])) by {
        assert(src[0 + k] == src[k]);
    }
}

/// Scanning at a comment yields no token of its own: it gives the newline
/// that ends the comment, placed at that newline, and scanning resumes just
/// past it; a comment that runs to the end of the source gives the
/// end-of-input token instead.
pub proof fn lemma_comment_skipped(src: Seq<char>, read: int)
    requires
        0 <= read <= src.len(),
        char_at(src, skip_blanks(src, read)) == '#',
    ensures
        ({
            let e = until(src, skip_blanks(src, read), '\n');
            step(src, read) == Lexed {
                kind: TokenView::Plain(if e < src.len() { TokenType::Newline } else { TokenType::Eof }),
                at: e,
                next: e + 1,
            }
        }),
{
    lemma_skip_blanks_bounds(src, read);
    lemma_until_bounds(src, skip_blanks(src, read), '\n');
}

/// No token of a stream is a comment marker: comments never reach the
/// token stream.
pub proof fn lemma_no_comment_tokens(src: Seq<char>, read: int)
    requires
        0 <= read,
    ensures
        forall|m: int|
            0 <= m < tokens_from(src, read).len() ==> #[trigger] tokens_from(src, read)[m].kind
                != TokenView::Plain(TokenType::Pound),
    decreases src.len() + 1 - read,
{
    if read <= src.len() {
        lemma_tokens_from_unfold(src, read);
        lemma_step_bounds(src, read);
        lemma_skip_blanks_bounds(src, read);
        let i = skip_blanks(src, read);
        if char_at(src, i) == '#' {
            lemma_until_bounds(src, i, '\n');
        }
        let s = step(src, read);
        assert(s.kind != TokenView::Plain(TokenType::Pound));
        lemma_no_comment_tokens(src, s.next);
        let t = tokens_from(src, read);
        assert forall|m: int| 0 <= m < t.len() implies #[trigger] t[m].kind != TokenView::Plain(
            TokenType::Pound,
        ) by {
            if m > 0 {
                assert(t[m] == tokens_from(src, s.next)[m - 1]);
            }
        }
    }
}

/// Two lines that each start with a `\\` marker (the second after any
/// blanks) scan to one string: the first line's text, a newline, then the
/// second line's text, placed at the start of the first line's text (line
/// 1, column 3); then comes the end of input.
pub proof fn lemma_two_line_string(a: Seq<char>, w: Seq<char>, b: Seq<char>)
    requires
        forall|k: int| 0 <= k < a.len() ==> a[k] != '\n',
        forall|k: int| 0 <= k < w.len() ==> blank(#[trigger] w[k]),
        forall|k: int| 0 <= k < b.len() ==> b[k] != '\n',
    ensures
        ({
            let src = seq!['\\', '\\'] + a + seq!['\n'] + w + seq!['\\', '\\'] + b;
            &&& tokens_from(src, 0).len() == 2
            &&& tokens_from(src, 0)[0] == Lexed {
                kind: TokenView::Str(a + seq!['\n'] + b),
                at: 2,
                next: src.len() as int,
            }
            &&& tokens_from(src, 0)[1].kind == TokenView::Plain(TokenType::Eof)
            &&& line_at(src, 2) == 1
            &&& col_at(src, 2) == 3
        }),
{
    let src = seq!['\\', '\\'] + a + seq!['\n'] + w + seq!['\\', '\\'] + b;
    let n = src.len() as int;
    let e = 2 + a.len() as int;
    let j = e + 1 + w.len() as int;
    assert(src[0] == '\\' && src[1] == '\\');
    assert forall|m: int| 2 <= m < e implies src[m] != '\n' by {
        assert(src[m] == a[m - 2]);
    }
    assert(src[e] == '\n');
    lemma_until_at(src, 2, e, '\n');
    assert forall|m: int| e + 1 <= m < j implies blank(src[m]) by {
        assert(src[m] == w[m - e - 1]);
    }
    assert(src[j] == '\\' && src[j + 1] == '\\');
    lemma_skip_blanks_at(src, e + 1, j);
    assert forall|m: int| j + 2 <= m < n implies src[m] != '\n' by {
        assert(src[m] == b[m - j - 2]);
    }
    lemma_until_at(src, j + 2, n, '\n');
    assert(src.subrange(2, e) =~= a);
    assert(src.subrange(j + 2, n) =~= b);
    assert(multiline(src, j + 2) == (b, n));
    assert(multiline(src, 2) == (a + seq!['\n'] + b, n));
    assert(skip_blanks(src, 0) == 0);
    assert(step(src, 0) == Lexed { kind: TokenView::Str(a + seq!['\n'] + b), at: 2, next: n });
    lemma_tokens_from_unfold(src, 0);
    lemma_tokens_from_unfold(src, n);
    assert(skip_blanks(src, n) == n);
    assert(line_at(src, 0) == 1 && col_at(src, 0) == 1);
    assert(line_at(src, 1) == 1 && col_at(src, 1) == 2);
}

/// Every token stream ends with the end-of-input token, placed at the end
/// of the source; scanning then stands past the end, where no more tokens
/// come.
pub proof fn lemma_ends_with_eof(src: Seq<char>, read: int)
    requires
        0 <= read <= src.len(),
    ensures
        tokens_from(src, read).len() > 0,
        tokens_from(src, read).last().kind == TokenView::Plain(TokenType::Eof),
        tokens_from(src, read).last().at == src.len(),
        tokens_from(src, read).last().next == src.len() + 1,
    decreases src.len() + 1 - read,
{
    lemma_tokens_from_unfold(src, read);
    lemma_step_bounds(src, read);
    let s = step(src, read);
    if s.next <= src.len() {
        lemma_ends_with_eof(src, s.next);
    } else {
        assert(tokens_from(src, s.next) =~= Seq::<Lexed>::empty());
    }
}

/// No keyword ends in `?` or `!`.
proof fn lemma_marked_words_are_not_keywords(text: Seq<char>)
    requires
        text.len() > 0,
        text.last() == '?' || text.last() == '!',
    ensures
        keyword_of(text) is None,
{
    reveal_strlit("const");
    reveal_strlit("let");
    reveal_strlit("return");
    reveal_strlit("fn");
    reveal_strlit("record");
    reveal_strlit("enum");
    reveal_strlit("trait");
    reveal_strlit("module");
    reveal_strlit("defer");
    reveal_strlit("when");
    reveal_strlit("inline");
    reveal_strlit("true");
    reveal_strlit("false");
    reveal_strlit("for");
    reveal_strlit("while");
    reveal_strlit("break");
    reveal_strlit("continue");
    reveal_strlit("match");
    reveal_strlit("if");
    reveal_strlit("else");
    reveal_strlit("as");
    reveal_strlit("and");
    reveal_strlit("or");
    reveal_strlit("dyn");
    reveal_strlit("anytype");
    reveal_strlit("mut");
    reveal_strlit("mov");
    reveal_strlit("loc");
    reveal_strlit("ctime");
}

/// A bare word directly followed by `?` or `!` scans as one tag that keeps
/// the mark, whatever comes after it.
pub proof fn lemma_marked_tag(w: Seq<char>, mark: char, rest: Seq<char>)
    requires
        w.len() > 0,
        alphabetical(w[0]),
        forall|k: int| 0 <= k < w.len() ==> alphanumeric(#[trigger] w[k]),
        mark == '?' || mark == '!',
    ensures
        step(w + seq![mark] + rest, 0) == (Lexed {
            kind: TokenView::Tag(w + seq![mark]),
            at: 0,
            next: w.len() + 1int,
        }),
{
    let src = w + seq![mark] + rest;
    let n = w.len() as int;
    assert forall|m: int| 0 <= m < n implies alphanumeric(#[trigger] src[m]) by {
        assert(src[m] == w[m]);
    }
    assert(src[n] == mark);
    lemma_alnum_end_at(src, 0, n);
    assert(src.subrange(0, n + 1) =~= w + seq![mark]);
    lemma_marked_words_are_not_keywords(w + seq![mark]);
    assert(skip_blanks(src, 0) == 0);
}

/// A `?` where a token starts scans as its own token, and so does a `!`
/// that no `=` or `~` follows.
pub proof fn lemma_bare_mark(src: Seq<char>, read: int)
    requires
        0 <= read <= src.len(),
    ensures
        ({
            let i = skip_blanks(src, read);
            &&& char_at(src, i) == '?' ==> step(src, read) == (Lexed {
                kind: TokenView::Plain(TokenType::Question),
                at: i,
                next: i + 1,
            })
            &&& char_at(src, i) == '!' && char_at(src, i + 1) != '=' && char_at(src, i + 1) != '~'
                ==> step(src, read) == (Lexed {
                kind: TokenView::Plain(TokenType::Bang),
                at: i,
                next: i + 1,
            })
        }),
{
}

/// A comment line scans exactly as an empty line does: a source that opens
/// with `#`, text without a newline, and the newline that ends it, followed
/// by anything, gives the same kinds of tokens, in the same order, as the
/// bare newline followed by the same thing. The comment adds no token, takes
/// nothing from its neighbours, and its newline is still emitted.
pub proof fn lemma_comment_line_is_newline(c: Seq<char>, b: Seq<char>)
    requires
        forall|k: int| 0 <= k < c.len() ==> c[k] != '\n',
    ensures
        ({
            let with_comment = tokens_from(seq!['#'] + c + seq!['\n'] + b, 0);
            let bare = tokens_from(seq!['\n'] + b, 0);
            &&& with_comment.len() == bare.len()
            &&& forall|m: int|
                0 <= m < bare.len() ==> (#[trigger] with_comment[m]).kind == bare[m].kind
        }),
{
    let q1 = seq!['#'] + c + seq!['\n'];
    let q2 = seq!['\n'];
    let s1 = q1 + b;
    let s2 = q2 + b;
    let e = c.len() + 1int;
    assert(s1[0] == '#');
    assert forall|m: int| 0 <= m < e implies s1[m] != '\n' by {
        if m > 0 {
            assert(s1[m] == c[m - 1]);
        }
    }
    assert(s1[e] == '\n');
    lemma_until_at(s1, 0, e, '\n');
    assert(skip_blanks(s1, 0) == 0);
    assert(step(s1, 0).next == q1.len() + 0);
    assert(step(s1, 0).kind == TokenView::Plain(TokenType::Newline));
    assert(s2[0] == '\n');
    assert(skip_blanks(s2, 0) == 0);
    assert(step(s2, 0).next == q2.len() + 0);
    assert(step(s2, 0).kind == TokenView::Plain(TokenType::Newline));
    lemma_tokens_from_unfold(s1, 0);
    lemma_tokens_from_unfold(s2, 0);
    lemma_shift_tokens(q1, b, 0);
    lemma_shift_tokens(q2, b, 0);
    let t1 = tokens_from(s1, 0);
    let t2 = tokens_from(s2, 0);
    assert forall|m: int| 0 <= m < t2.len() implies (#[trigger] t1[m]).kind == t2[m].kind by {
        if m > 0 {
            assert(t1[m] == tokens_from(q1 + b, q1.len() + 0int)[m - 1]);
            assert(t2[m] == tokens_from(q2 + b, q2.len() + 0int)[m - 1]);
        }
    }
}

/// The text a token carries, when it is a bare word or a number.
pub open spec fn word_text(k: TokenView) -> Seq<char> {
    match k {
        TokenView::Tag(t) => t,
        TokenView::Integer(t) => t,
        TokenView::Float(t) => t,
        _ => Seq::empty(),
    }
}

proof fn lemma_alnum_run(src: Seq<char>, i: int)
    requires
        0 <= i,
    ensures
        forall|m: int| i <= m < alnum_end(src, i) ==> alphanumeric(#[trigger] src[m]),
    decreases src.len() - i,
{
    if i < src.len() && alphanumeric(src[i]) {
        lemma_alnum_run(src, i + 1);
    }
}

proof fn lemma_digits_run(src: Seq<char>, i: int)
    requires
        0 <= i,
    ensures
        forall|m: int| i <= m < digits_end(src, i) ==> digit(#[trigger] src[m]),
    decreases src.len() - i,
{
    if i < src.len() && digit(src[i]) {
        lemma_digits_run(src, i + 1);
    }
}

/// No bare word or number holds `#`: outside a string, a regex or a
/// multiline string, a `#` always opens a comment.
pub proof fn lemma_no_hash_in_words(src: Seq<char>, read: int)
    requires
        0 <= read,
    ensures
        forall|m: int, p: int|
            0 <= m < tokens_from(src, read).len() && 0 <= p < word_text(
                tokens_from(src, read)[m].kind,
            ).len() ==> #[trigger] word_text(tokens_from(src, read)[m].kind)[p] != '#',
    decreases src.len() + 1 - read,
{
    if read <= src.len() {
        lemma_tokens_from_unfold(src, read);
        lemma_step_bounds(src, read);
        lemma_skip_blanks_bounds(src, read);
        let i0 = skip_blanks(src, read);
        let i = if char_at(src, i0) == '#' {
            lemma_until_bounds(src, i0, '\n');
            until(src, i0, '\n')
        } else {
            i0
        };
        let st = step(src, read);
        assert(st == lex_body(src, i));
        let w = word_text(st.kind);
        let c = char_at(src, i);
        if alphabetical(c) {
            lemma_alnum_run(src, i);
            lemma_alnum_end_bounds(src, i);
        } else if digit(c) {
            lemma_digits_run(src, i);
            lemma_digits_end_bounds(src, i);
            let e0 = digits_end(src, i);
            if char_at(src, e0) == '.' {
                lemma_digits_run(src, e0 + 1);
                lemma_digits_end_bounds(src, e0 + 1);
            }
        }
        assert forall|p: int| 0 <= p < w.len() implies w[p] != '#' by {
            if alphabetical(c) {
                assert(w[p] == src[i + p]);
            } else if digit(c) {
                assert(w[p] == src[i + p]);
            }
        }
        lemma_no_hash_in_words(src, st.next);
        let t = tokens_from(src, read);
        assert forall|m: int, p: int|
            0 <= m < t.len() && 0 <= p < word_text(t[m].kind).len() implies #[trigger] word_text(
            t[m].kind,
        )[p] != '#' by {
            if m > 0 {
                assert(t[m] == tokens_from(src, st.next)[m - 1]);
            }
        }
    }
}

} // verus!
