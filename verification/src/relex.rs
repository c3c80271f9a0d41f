//! Locality of the lexer: the token scanned at a position depends only on
//! the characters from there up to the token's end. From that, re-lexing
//! the substring covered by a consecutive run of tokens reproduces exactly
//! those tokens' kinds.

use vstd::prelude::*;

use crate::lexer::{
    comment_end, ident_end, is_blank, is_digit, is_ident_char, is_ident_start, lemma_comment_end,
    lemma_ident_end, lemma_number_end, lemma_string_body_end, lemma_token_at_bounds, lex_items,
    number_end, peeks, string_body_end, string_body_text, token_at, trim_blanks, LexItem,
};
use crate::token::SpecTokenKind;

verus! {

/// The kinds of a run of scanned tokens.
pub open spec fn item_kinds(items: Seq<LexItem>) -> Seq<SpecTokenKind> {
    items.map(|i: int, it: LexItem| it.kind)
}

/// A window `s[a..e]` of the input, as its own text.
pub open spec fn window(s: Seq<char>, a: nat, e: nat) -> Seq<char> {
    s.subrange(a as int, e as int)
}

/// Peeking inside a window agrees with peeking in the whole input: a
/// failed peek stays failed, and a peek that succeeds within the window
/// succeeds there too.
proof fn lemma_peeks_window(s: Seq<char>, a: nat, e: nat, p: nat, x: char)
    requires
        a <= p < e <= s.len(),
    ensures
        !peeks(s, p, x) ==> !peeks(window(s, a, e), (p - a) as nat, x),
        peeks(s, p, x) && p + 2 <= e ==> peeks(window(s, a, e), (p - a) as nat, x),
{
}

/// An identifier scan that ends within the window scans the same text
/// there.
proof fn lemma_ident_window(s: Seq<char>, a: nat, e: nat, p: nat)
    requires
        a <= p <= e <= s.len(),
        ident_end(s, p) <= e,
    ensures
        ident_end(window(s, a, e), (p - a) as nat) == ident_end(s, p) - a,
    decreases e - p,
{
    lemma_ident_end(s, p);
    if p == e {
    } else if is_ident_char(s[p as int]) {
        lemma_ident_window(s, a, e, p + 1);
    }
}

/// A numeric scan that ends within the window scans the same text there.
proof fn lemma_number_window(s: Seq<char>, a: nat, e: nat, p: nat)
    requires
        a <= p <= e <= s.len(),
        number_end(s, p) <= e,
    ensures
        number_end(window(s, a, e), (p - a) as nat) == number_end(s, p) - a,
    decreases e - p,
{
    lemma_number_end(s, p);
    let sub = window(s, a, e);
    if p == e {
    } else if is_digit(s[p as int]) {
        lemma_number_window(s, a, e, p + 1);
    } else if s[p as int] == '.' && p + 1 < s.len() && is_digit(s[p + 1 as int]) {
        lemma_number_end(s, p + 2);
        assert(number_end(s, p + 1) == number_end(s, p + 2));
        lemma_number_window(s, a, e, p + 1);
    } else {
        assert(number_end(sub, (p - a) as nat) == p - a);
    }
}

/// A string-literal scan that ends within the window scans the same body
/// and carries the same text there.
proof fn lemma_string_window(s: Seq<char>, a: nat, e: nat, p: nat)
    requires
        a <= p <= e <= s.len(),
        string_body_end(s, p) <= e,
    ensures
        string_body_end(window(s, a, e), (p - a) as nat) == string_body_end(s, p) - a,
        string_body_text(window(s, a, e), (p - a) as nat) == string_body_text(s, p),
    decreases e - p,
{
    lemma_string_body_end(s, p);
    let sub = window(s, a, e);
    if p == e {
        if p < s.len() {
            if s[p as int] == '\\' && peeks(s, p, '"') {
                lemma_string_body_end(s, p + 2);
                assert(false);
            } else if s[p as int] == '"' {
                assert(false);
            } else {
                lemma_string_body_end(s, p + 1);
                assert(false);
            }
        }
    } else if s[p as int] == '\\' && peeks(s, p, '"') {
        lemma_string_body_end(s, p + 2);
        lemma_peeks_window(s, a, e, p, '"');
        lemma_string_window(s, a, e, p + 2);
    } else if s[p as int] == '"' {
    } else {
        lemma_peeks_window(s, a, e, p, '"');
        lemma_string_window(s, a, e, p + 1);
    }
}

/// A comment scan that ends within the window ends at the same place
/// there.
proof fn lemma_comment_window(s: Seq<char>, a: nat, e: nat, p: nat)
    requires
        a <= p <= e <= s.len(),
        comment_end(s, p) <= e,
    ensures
        comment_end(window(s, a, e), (p - a) as nat) == comment_end(s, p) - a,
    decreases e - p,
{
    lemma_comment_end(s, p);
    if p == e {
    } else if s[p as int] == '\n' {
    } else {
        lemma_comment_window(s, a, e, p + 1);
    }
}

/// The token scanned at `p` is the same, with the same width, when the
/// input is cut down to any window that still holds the whole token.
proof fn lemma_token_window(s: Seq<char>, a: nat, e: nat, p: nat)
    requires
        a <= p < e <= s.len(),
        token_at(s, p).1 <= e,
    ensures
        token_at(window(s, a, e), (p - a) as nat).0 == token_at(s, p).0,
        token_at(window(s, a, e), (p - a) as nat).1 == token_at(s, p).1 - a,
{
    lemma_token_at_bounds(s, p);
    let sub = window(s, a, e);
    let c = s[p as int];
    let q = (p - a) as nat;
    assert(sub[q as int] == c);
    lemma_peeks_window(s, a, e, p, '/');
    lemma_peeks_window(s, a, e, p, '=');
    lemma_peeks_window(s, a, e, p, '>');
    lemma_peeks_window(s, a, e, p, '&');
    lemma_peeks_window(s, a, e, p, '|');
    if c == '/' && peeks(s, p, '/') {
        let ce = comment_end(s, p + 2);
        lemma_comment_end(s, p + 2);
        lemma_comment_window(s, a, e, p + 2);
        assert(window(s, p + 2, ce) =~= sub.subrange(q + 2 as int, (ce - a) as int));
    } else if c == '"' {
        lemma_string_window(s, a, e, p + 1);
    } else if is_ident_start(c) {
        lemma_ident_end(s, p + 1);
        assert(ident_end(s, p) == ident_end(s, p + 1));
        lemma_ident_window(s, a, e, p);
        let ie = ident_end(s, p);
        assert(window(s, p, ie) =~= sub.subrange(q as int, (ie - a) as int));
    } else if is_digit(c) {
        lemma_number_end(s, p + 1);
        assert(number_end(s, p) == number_end(s, p + 1));
        lemma_number_window(s, a, e, p);
        let ne = number_end(s, p);
        assert(window(s, p, ne) =~= sub.subrange(q as int, (ne - a) as int));
    }
}

/// Whether a scan started at `p`, skipping blanks and consuming whole
/// tokens, lands exactly on position `e`.
pub open spec fn scan_reaches(s: Seq<char>, p: nat, e: nat) -> bool
    decreases e - p,
    via scan_reaches_decreases
{
    if p >= e {
        p == e
    } else if p >= s.len() {
        false
    } else if is_blank(s[p as int]) {
        scan_reaches(s, p + 1, e)
    } else {
        token_at(s, p).1 <= e && scan_reaches(s, token_at(s, p).1, e)
    }
}

#[via_fn]
proof fn scan_reaches_decreases(s: Seq<char>, p: nat, e: nat) {
    if p < e && p < s.len() && !is_blank(s[p as int]) {
        lemma_token_at_bounds(s, p);
    }
}

/// The kinds of the tokens a scan from `p` produces before it would run
/// past position `e`.
pub open spec fn kinds_until(s: Seq<char>, p: nat, e: nat) -> Seq<SpecTokenKind>
    decreases e - p,
    via kinds_until_decreases
{
    if p >= e || p >= s.len() {
        Seq::empty()
    } else if is_blank(s[p as int]) {
        kinds_until(s, p + 1, e)
    } else if token_at(s, p).1 <= e {
        seq![token_at(s, p).0] + kinds_until(s, token_at(s, p).1, e)
    } else {
        Seq::empty()
    }
}

#[via_fn]
proof fn kinds_until_decreases(s: Seq<char>, p: nat, e: nat) {
    if p < e && p < s.len() && !is_blank(s[p as int]) {
        lemma_token_at_bounds(s, p);
    }
}

/// Lexing a window that a scan lands exactly on yields, in kind, the
/// tokens the scan saw, whatever cursor the lexing starts with.
proof fn lemma_window_kinds(s: Seq<char>, a: nat, e: nat, p: nat, l2: nat, c2: nat)
    requires
        a <= p <= e <= s.len(),
        scan_reaches(s, p, e),
    ensures
        item_kinds(lex_items(window(s, a, e), (p - a) as nat, l2, c2)) == kinds_until(s, p, e),
    decreases e - p,
{
    let sub = window(s, a, e);
    let q = (p - a) as nat;
    if p == e {
        assert(item_kinds(lex_items(sub, q, l2, c2)) =~= kinds_until(s, p, e));
    } else if is_blank(s[p as int]) {
        lemma_window_kinds(s, a, e, p + 1, l2, c2 + 1);
    } else {
        lemma_token_at_bounds(s, p);
        lemma_token_window(s, a, e, p);
        let k = token_at(s, p).0;
        let end = token_at(s, p).1;
        if s[p as int] == '\n' {
            lemma_window_kinds(s, a, e, end, l2 + 1, 0);
        } else {
            lemma_window_kinds(s, a, e, end, l2, (c2 + end - p) as nat);
        }
        assert(item_kinds(lex_items(sub, q, l2, c2)) =~= seq![k] + kinds_until(s, end, e));
        assert(kinds_until(s, p, e) =~= seq![k] + kinds_until(s, end, e));
    }
}

/// Every scanned token starts at or after the scan position and covers at
/// least one character within the input.
proof fn lemma_items_bounds(s: Seq<char>, p: nat, l: nat, c: nat, j: int)
    requires
        p <= s.len(),
        0 <= j < lex_items(s, p, l, c).len(),
    ensures
        p <= lex_items(s, p, l, c)[j].start,
        lex_items(s, p, l, c)[j].start < lex_items(s, p, l, c)[j].end,
        lex_items(s, p, l, c)[j].end <= s.len(),
    decreases s.len() - p,
{
    if p >= s.len() {
    } else if is_blank(s[p as int]) {
        lemma_items_bounds(s, p + 1, l, c + 1, j);
    } else {
        lemma_token_at_bounds(s, p);
        let end = token_at(s, p).1;
        if j > 0 {
            if s[p as int] == '\n' {
                lemma_items_bounds(s, end, l + 1, 0, j - 1);
            } else {
                lemma_items_bounds(s, end, l, (c + end - p) as nat, j - 1);
            }
        }
    }
}

/// A scan from the current position lands exactly on any of its tokens'
/// ends, seeing, in kind, exactly the tokens up to it.
proof fn lemma_prefix(s: Seq<char>, p: nat, l: nat, c: nat, j: int)
    requires
        p <= s.len(),
        0 <= j < lex_items(s, p, l, c).len(),
    ensures
        scan_reaches(s, p, lex_items(s, p, l, c)[j].end),
        kinds_until(s, p, lex_items(s, p, l, c)[j].end) == item_kinds(
            lex_items(s, p, l, c).subrange(0, j + 1),
        ),
    decreases s.len() - p,
{
    let items = lex_items(s, p, l, c);
    let ee = items[j].end;
    lemma_items_bounds(s, p, l, c, j);
    assert(p < s.len());
    if is_blank(s[p as int]) {
        lemma_prefix(s, p + 1, l, c + 1, j);
    } else {
        lemma_token_at_bounds(s, p);
        let k = token_at(s, p).0;
        let end = token_at(s, p).1;
        if j == 0 {
            assert(ee == end);
            assert(scan_reaches(s, end, end));
            assert(kinds_until(s, end, end) =~= Seq::<SpecTokenKind>::empty());
            assert(kinds_until(s, p, end) =~= item_kinds(items.subrange(0, 1)));
        } else {
            if s[p as int] == '\n' {
                let rest = lex_items(s, end, l + 1, 0);
                lemma_items_bounds(s, end, l + 1, 0, j - 1);
                lemma_prefix(s, end, l + 1, 0, j - 1);
                assert(ee == rest[j - 1].end);
                assert(items.subrange(0, j + 1) =~= seq![items[0]] + rest.subrange(0, j));
                assert(item_kinds(seq![items[0]] + rest.subrange(0, j)) =~= seq![k] + item_kinds(
                    rest.subrange(0, j),
                ));
            } else {
                let rest = lex_items(s, end, l, (c + end - p) as nat);
                lemma_items_bounds(s, end, l, (c + end - p) as nat, j - 1);
                lemma_prefix(s, end, l, (c + end - p) as nat, j - 1);
                assert(ee == rest[j - 1].end);
                assert(items.subrange(0, j + 1) =~= seq![items[0]] + rest.subrange(0, j));
                assert(item_kinds(seq![items[0]] + rest.subrange(0, j)) =~= seq![k] + item_kinds(
                    rest.subrange(0, j),
                ));
            }
        }
    }
}

/// A scan from one token's start lands exactly on a later token's end,
/// seeing, in kind, exactly the run of tokens between them.
proof fn lemma_between(s: Seq<char>, p: nat, l: nat, c: nat, i: int, j: int)
    requires
        p <= s.len(),
        0 <= i <= j < lex_items(s, p, l, c).len(),
    ensures
        scan_reaches(s, lex_items(s, p, l, c)[i].start, lex_items(s, p, l, c)[j].end),
        kinds_until(s, lex_items(s, p, l, c)[i].start, lex_items(s, p, l, c)[j].end) == item_kinds(
            lex_items(s, p, l, c).subrange(i, j + 1),
        ),
    decreases s.len() - p,
{
    let items = lex_items(s, p, l, c);
    lemma_items_bounds(s, p, l, c, j);
    assert(p < s.len());
    if is_blank(s[p as int]) {
        lemma_between(s, p + 1, l, c + 1, i, j);
    } else if i == 0 {
        lemma_prefix(s, p, l, c, j);
    } else {
        lemma_token_at_bounds(s, p);
        let end = token_at(s, p).1;
        if s[p as int] == '\n' {
            lemma_between(s, end, l + 1, 0, i - 1, j - 1);
            let rest = lex_items(s, end, l + 1, 0);
            assert(items[i] == rest[i - 1] && items[j] == rest[j - 1]);
            assert(items.subrange(i, j + 1) =~= rest.subrange(i - 1, j));
        } else {
            lemma_between(s, end, l, (c + end - p) as nat, i - 1, j - 1);
            let rest = lex_items(s, end, l, (c + end - p) as nat);
            assert(items[i] == rest[i - 1] && items[j] == rest[j - 1]);
            assert(items.subrange(i, j + 1) =~= rest.subrange(i - 1, j));
        }
    }
}

/// Re-lexing the substring of the input covered by tokens `i` through `j`
/// of a single scan reproduces exactly those tokens' kinds: every token
/// carries enough of its own context that a consecutive run of tokens,
/// cut back out of the source, lexes to itself.
pub proof fn lemma_relex_spans(s: Seq<char>, i: int, j: int)
    requires
        0 <= i <= j < lex_items(s, 0, 1, 0).len(),
    ensures
        ({
            let items = lex_items(s, 0, 1, 0);
            item_kinds(lex_items(window(s, items[i].start, items[j].end), 0, 1, 0)) == item_kinds(
                items.subrange(i, j + 1),
            )
        }),
{
    let items = lex_items(s, 0, 1, 0);
    let a = items[i].start;
    let e = items[j].end;
    lemma_items_bounds(s, 0, 1, 0, i);
    lemma_items_bounds(s, 0, 1, 0, j);
    lemma_between(s, 0, 1, 0, i, j);
    assert(a <= e) by {
        if a > e {
            assert(!scan_reaches(s, a, e));
        }
    }
    lemma_window_kinds(s, a, e, a, 1, 0);
}

} // verus!
