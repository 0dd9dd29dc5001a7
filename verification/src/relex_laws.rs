//! Reading the text of a token again gives back the same token.
use vstd::prelude::*;

use crate::lexer_laws::{lemma_lex_end, lemma_token_is_source_text};
use crate::lexer_spec::{
    digits, hex_prefix, is_simple_escape, lemma_hex_prefix_bound, lemma_run_end_bounds,
    lemma_scan_number_bounds, lemma_scan_string_bounds, lemma_skip_ws_bounds, lex_all, lex_next,
    run_end, scan_number, scan_string, skip_ws, word_chars,
};
use crate::located_iterator::max_input_len;
use crate::text::{is_alpha, is_digit};
use crate::token::{delimiter_of, token_kind_text};

verus! {

/// A run of characters read inside a window of the text ends where it ends
/// in the whole text, when it ends inside the window.
proof fn lemma_run_end_window(
    s: Seq<char>,
    x: Seq<char>,
    q: int,
    f: int,
    i: int,
    p: spec_fn(char) -> bool,
)
    requires
        0 <= q <= i <= s.len(),
        f <= s.len(),
        x == s.subrange(q, f),
        run_end(s, i, p) <= f,
    ensures
        run_end(x, i - q, p) == run_end(s, i, p) - q,
    decreases s.len() - i,
{
    lemma_run_end_bounds(s, i, p);
    if i < s.len() && p(s[i]) {
        lemma_run_end_window(s, x, q, f, i + 1, p);
    }
}

/// Hexadecimal digits counted inside a window are counted as in the whole
/// text, when the count stops inside the window.
proof fn lemma_hex_prefix_window(s: Seq<char>, x: Seq<char>, q: int, f: int, j: int, n: nat)
    requires
        0 <= q <= j,
        f <= s.len(),
        x == s.subrange(q, f),
        j + hex_prefix(s, j, n) < f,
    ensures
        hex_prefix(x, j - q, n) == hex_prefix(s, j, n),
    decreases n,
{
    if n > 0 && 0 <= j < s.len() && crate::text::is_hex(s[j]) {
        lemma_hex_prefix_window(s, x, q, f, j + 1, (n - 1) as nat);
    }
}

/// A terminated string body is read the same inside a window that ends just
/// after its closing quote.
proof fn lemma_scan_string_window(s: Seq<char>, x: Seq<char>, q: int, i: int)
    requires
        0 <= q < i,
        scan_string(s, i).1,
        x == s.subrange(q, scan_string(s, i).0 + 1),
    ensures
        scan_string(x, i - q) == (scan_string(s, i).0 - q, true, scan_string(s, i).2),
    decreases s.len() - i,
{
    lemma_scan_string_bounds(s, i);
    let e = scan_string(s, i).0;
    let f = e + 1;
    if s[i] == '"' {
    } else if s[i] == '\\' {
        if is_simple_escape(s[i + 1]) {
            lemma_scan_string_bounds(s, i + 2);
            lemma_scan_string_window(s, x, q, i + 2);
        } else if s[i + 1] == 'u' {
            lemma_hex_prefix_bound(s, i + 2, 4);
            let k = hex_prefix(s, i + 2, 4);
            lemma_scan_string_bounds(s, i + 2 + k);
            lemma_hex_prefix_window(s, x, q, f, i + 2, 4);
            lemma_scan_string_window(s, x, q, i + 2 + k);
        } else {
            lemma_scan_string_bounds(s, i + 2);
            lemma_scan_string_window(s, x, q, i + 2);
        }
    } else {
        lemma_scan_string_bounds(s, i + 1);
        lemma_scan_string_window(s, x, q, i + 1);
    }
}

/// A number is read the same from the text it spans alone.
proof fn lemma_scan_number_window(s: Seq<char>, q: int)
    requires
        0 <= q < s.len(),
    ensures
        scan_number(s.subrange(q, scan_number(s, q).0), 0) == (
            scan_number(s, q).0 - q,
            scan_number(s, q).1,
        ),
{
    lemma_scan_number_bounds(s, q);
    let e = scan_number(s, q).0;
    let x = s.subrange(q, e);
    let i0 = q + 1;
    lemma_run_end_bounds(s, i0, digits());
    let i1 = run_end(s, i0, digits());
    let has_frac = i1 < s.len() && s[i1] == '.';
    if has_frac {
        lemma_run_end_bounds(s, i1 + 1, digits());
    }
    let i2 = if has_frac { run_end(s, i1 + 1, digits()) } else { i1 };
    let has_exp = i2 < s.len() && (s[i2] == 'e' || s[i2] == 'E');
    let has_sign = has_exp && i2 + 1 < s.len() && (s[i2 + 1] == '+' || s[i2 + 1] == '-');
    let i3 = if has_sign { i2 + 2 } else if has_exp { i2 + 1 } else { i2 };
    if has_exp {
        lemma_run_end_bounds(s, i3, digits());
    }
    assert(i1 <= i2 <= e);
    lemma_run_end_window(s, x, q, e, i0, digits());
    if has_frac {
        lemma_run_end_window(s, x, q, e, i1 + 1, digits());
    }
    if has_exp {
        lemma_run_end_window(s, x, q, e, i3, digits());
    }
}

/// Lexing the text of a token gives back a single token of the same kind,
/// and nothing more.
pub proof fn lemma_relex_token(s: Seq<char>, i: int)
    requires
        0 <= i <= s.len(),
        s.len() <= max_input_len(),
    ensures
        lex_next(s, i) matches Some((Ok(tok), _)) ==> {
            let x = token_kind_text(tok.kind);
            &&& lex_all(x, 0).len() == 1
            &&& lex_all(x, 0)[0] matches Ok(t) && t.kind == tok.kind
        },
{
    lemma_skip_ws_bounds(s, i);
    lemma_token_is_source_text(s, i);
    let q = skip_ws(s, i);
    if let Some((Ok(tok), p)) = lex_next(s, i) {
        let x = token_kind_text(tok.kind);
        lemma_run_end_bounds(s, q + 1, word_chars());
        lemma_scan_number_bounds(s, q);
        lemma_scan_string_bounds(s, q + 1);
        assert(q < p);
        assert(x == s.subrange(q, p));
        let c = s[q];
        assert(x[0] == c);
        assert(skip_ws(x, 0) == 0);
        if delimiter_of(c) is Some {
            assert(lex_next(x, 0) matches Some((Ok(t), n)) && t.kind == tok.kind && n == x.len());
        } else if is_alpha(c) || c == '_' {
            lemma_run_end_bounds(x, 1, word_chars());
            let e = run_end(x, 1, word_chars());
            if e < x.len() {
                assert(word_chars()(x[e]));
            }
            assert(e == x.len());
            assert(x.subrange(0, e) =~= x);
            assert(lex_next(x, 0) matches Some((Ok(t), n)) && t.kind == tok.kind && n == x.len());
        } else if c == '-' || is_digit(c) {
            lemma_scan_number_window(s, q);
            assert(x.subrange(0, x.len() as int) =~= x);
            assert(lex_next(x, 0) matches Some((Ok(t), n)) && t.kind == tok.kind && n == x.len());
        } else {
            assert(c == '"');
            let end = scan_string(s, q + 1).0;
            assert(p == end + 1);
            lemma_scan_string_window(s, x, q, q + 1);
            assert(x.subrange(1, end - q) =~= s.subrange(q + 1, end));
            assert(lex_next(x, 0) matches Some((Ok(t), n)) && t.kind == tok.kind && n == x.len());
        }
        lemma_lex_end(x);
        assert(lex_next(x, 0) matches Some((Ok(t), n)) && t.kind == tok.kind && n == x.len());
        assert(lex_all(x, x.len() as int).len() == 0);
    }
}

} // verus!
