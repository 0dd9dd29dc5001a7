//! Properties of the lexer that hold for every input.
use vstd::prelude::*;

use crate::lexer_spec::{
    digits, hex_prefix, is_simple_escape, lemma_hex_prefix_bound, lemma_run_end_bounds, lemma_scan_number_bounds, lemma_scan_string_bounds,
    lemma_skip_ws_bounds, lex_all, lex_next, run_end, scan_number, scan_string, skip_ws, word_chars,
};
use crate::located_iterator::{lemma_line_col_bound, location_at, max_input_len};
use crate::text::{is_alpha, is_digit, is_forbidden_control, is_hex};
use crate::token::{
    delimiter_char, delimiter_of, false_text, null_text, token_kind_text, true_text, SpecLiteral,
    SpecTokenKind,
};

verus! {

/// Every character of `t` is an ASCII digit.
pub open spec fn all_digits(t: Seq<char>) -> bool {
    forall|k: int| 0 <= k < t.len() ==> is_digit(#[trigger] t[k])
}

/// The integer part of a JSON number: digits, without a leading zero unless it is `0`.
pub open spec fn is_json_int(t: Seq<char>) -> bool {
    &&& t.len() >= 1
    &&& all_digits(t)
    &&& t[0] == '0' ==> t.len() == 1
}

/// The optional fraction part of a JSON number: nothing, or `.` and digits.
pub open spec fn is_json_frac(t: Seq<char>) -> bool {
    t.len() == 0 || (t.len() >= 2 && t[0] == '.' && all_digits(t.subrange(1, t.len() as int)))
}

/// The optional exponent part of a JSON number: nothing, or `e`/`E`, an
/// optional sign, and digits.
pub open spec fn is_json_exp(t: Seq<char>) -> bool {
    ||| t.len() == 0
    ||| {
        &&& t.len() >= 2
        &&& (t[0] == 'e' || t[0] == 'E')
        &&& if t[1] == '+' || t[1] == '-' {
            t.len() >= 3 && all_digits(t.subrange(2, t.len() as int))
        } else {
            all_digits(t.subrange(1, t.len() as int))
        }
    }
}

/// A JSON number: an optional `-`, an integer part, an optional fraction and
/// an optional exponent.
pub open spec fn is_json_number(t: Seq<char>) -> bool {
    exists|a: int, b: int, c: int|
        0 <= a <= 1 && a <= b <= c <= t.len() && (a == 1 ==> t[0] == '-') && #[trigger] is_json_int(
            t.subrange(a, b),
        ) && is_json_frac(#[trigger] t.subrange(b, c)) && is_json_exp(
            #[trigger] t.subrange(c, t.len() as int),
        )
}

/// Once the whole text is read, the lexer gives nothing more.
pub proof fn lemma_lex_end(s: Seq<char>)
    ensures
        lex_next(s, s.len() as int) is None,
{
}

/// The text of a token is the source text it was read from: the lexer keeps
/// numbers and string bodies as written, so printing a token gives back the
/// characters it spans; its span starts where that text starts and ends, on
/// the same line, as many characters to the right as the text is long.
pub proof fn lemma_token_is_source_text(s: Seq<char>, i: int)
    requires
        0 <= i <= s.len(),
        s.len() <= max_input_len(),
    ensures
        lex_next(s, i) matches Some((Ok(tok), p)) ==> {
            let q = skip_ws(s, i);
            &&& token_kind_text(tok.kind) == s.subrange(q, p)
            &&& tok.span.start == location_at(s, q)
            &&& tok.span.end.line == tok.span.start.line
            &&& tok.span.end.column == tok.span.start.column + (p - q)
        },
{
    lemma_skip_ws_bounds(s, i);
    let q = skip_ws(s, i);
    if q < s.len() {
        lemma_line_col_bound(s, q);
        let c = s[q];
        if let Some((Ok(tok), p)) = lex_next(s, i) {
            let text = s.subrange(q, p);
            if delimiter_of(c) is Some {
                assert(text =~= seq![delimiter_char(delimiter_of(c).unwrap())]);
            } else if is_alpha(c) || c == '_' {
                lemma_run_end_bounds(s, q + 1, word_chars());
                assert(text == true_text() || text == false_text() || text == null_text());
            } else if c == '-' || is_digit(c) {
                lemma_scan_number_bounds(s, q);
            } else if c == '"' {
                lemma_scan_string_bounds(s, q + 1);
                let end = scan_string(s, q + 1).0;
                let body = s.subrange(q + 1, end);
                assert(text =~= seq!['"'] + body + seq!['"']);
            }
        }
    }
}

/// Every number token is a well-formed JSON number: the lexer gives a
/// number token only for text that follows the JSON number grammar.
pub proof fn lemma_number_token_is_json_number(s: Seq<char>, i: int)
    requires
        0 <= i <= s.len(),
    ensures
        lex_next(s, i) matches Some((Ok(tok), _)) ==> (tok.kind matches SpecTokenKind::Literal(
            SpecLiteral::Number(text),
        ) ==> is_json_number(text)),
{
    lemma_skip_ws_bounds(s, i);
    let q = skip_ws(s, i);
    if q < s.len() && (s[q] == '-' || is_digit(s[q])) && delimiter_of(s[q]) is None && !(
    is_alpha(s[q]) || s[q] == '_') {
        lemma_scan_number_bounds(s, q);
        let (e, err) = scan_number(s, q);
        if err is None {
            let text = s.subrange(q, e);
            let first = s[q];
            let i0 = q + 1;
            lemma_run_end_bounds(s, i0, digits());
            let i1 = run_end(s, i0, digits());
            let has_frac = i1 < s.len() && s[i1] == '.';
            if has_frac {
                lemma_run_end_bounds(s, i1 + 1, digits());
            }
            let i2 = if has_frac { run_end(s, i1 + 1, digits()) } else { i1 };
            let has_exp = i2 < s.len() && (s[i2] == 'e' || s[i2] == 'E');
            let has_sign = has_exp && i2 + 1 < s.len() && (s[i2 + 1] == '+' || s[i2 + 1] == '-');
            let i3 = if has_sign { i2 + 2 } else if has_exp { i2 + 1 } else { i2 };
            if has_exp {
                lemma_run_end_bounds(s, i3, digits());
            }
            let a: int = if first == '-' { 1 } else { 0 };
            let b = i1 - q;
            let c = i2 - q;
            let int_part = text.subrange(a, b);
            assert(int_part =~= s.subrange(q + a, i1));
            assert forall|k: int| 0 <= k < int_part.len() implies is_digit(#[trigger] int_part[k]) by {
                if q + a + k > q {
                    assert(digits()(s[q + a + k]));
                }
            }
            assert(is_json_int(int_part));
            let frac_part = text.subrange(b, c);
            assert(frac_part =~= s.subrange(i1, i2));
            if has_frac {
                let fd = frac_part.subrange(1, frac_part.len() as int);
                assert forall|k: int| 0 <= k < fd.len() implies is_digit(#[trigger] fd[k]) by {
                    assert(fd[k] == s[i1 + 1 + k]);
                    assert(digits()(s[i1 + 1 + k]));
                }
            }
            assert(is_json_frac(frac_part));
            let exp_part = text.subrange(c, text.len() as int);
            assert(exp_part =~= s.subrange(i2, e));
            if has_exp {
                let skip = i3 - i2;
                let ed = exp_part.subrange(skip, exp_part.len() as int);
                assert forall|k: int| 0 <= k < ed.len() implies is_digit(#[trigger] ed[k]) by {
                    assert(ed[k] == s[i3 + k]);
                    assert(digits()(s[i3 + k]));
                }
                if has_sign {
                    assert(exp_part[1] == '+' || exp_part[1] == '-');
                } else if i2 + 1 < s.len() {
                    assert(exp_part.len() >= 2 ==> exp_part[1] == s[i2 + 1]);
                }
            }
            assert(is_json_exp(exp_part));
            assert(is_json_number(text));
        }
    }
}

/// A JSON string body as the lexer accepts it: no unescaped `"`, no control
/// character (`0x00` through `0x1f`), and every `\` starts an escape: `\"`, `\\`, `\/`,
/// `\b`, `\f`, `\n`, `\r`, `\t`, or `\u` with four hexadecimal digits.
pub open spec fn is_string_body(b: Seq<char>) -> bool
    decreases b.len(),
{
    if b.len() == 0 {
        true
    } else if b[0] == '\\' {
        b.len() >= 2 && if is_simple_escape(b[1]) {
            is_string_body(b.subrange(2, b.len() as int))
        } else {
            b[1] == 'u' && b.len() >= 6 && is_hex(b[2]) && is_hex(b[3]) && is_hex(b[4]) && is_hex(
                b[5],
            ) && is_string_body(b.subrange(6, b.len() as int))
        }
    } else {
        b[0] != '"' && !is_forbidden_control(b[0]) && is_string_body(
            b.subrange(1, b.len() as int),
        )
    }
}

proof fn lemma_hex_prefix_full(s: Seq<char>, j: int, n: nat)
    requires
        0 <= j,
        hex_prefix(s, j, n) == n,
    ensures
        forall|k: int| j <= k < j + n ==> is_hex(#[trigger] s[k]),
        n > 0 ==> j + n <= s.len(),
    decreases n,
{
    if n > 0 {
        lemma_hex_prefix_full(s, j + 1, (n - 1) as nat);
    }
}

/// A string read without error has a well-formed body.
proof fn lemma_scan_string_body(s: Seq<char>, i: int)
    requires
        0 <= i,
    ensures
        scan_string(s, i) matches (end, true, None) ==> is_string_body(s.subrange(i, end)),
    decreases s.len() - i,
{
    lemma_scan_string_bounds(s, i);
    if let (end, true, None) = scan_string(s, i) {
        let b = s.subrange(i, end);
        if s[i] == '"' {
            assert(b.len() == 0);
        } else if s[i] == '\\' {
            if is_simple_escape(s[i + 1]) {
                lemma_scan_string_body(s, i + 2);
                lemma_scan_string_bounds(s, i + 2);
                assert(b.subrange(2, b.len() as int) =~= s.subrange(i + 2, end));
            } else {
                let k = hex_prefix(s, i + 2, 4);
                lemma_hex_prefix_bound(s, i + 2, 4);
                lemma_hex_prefix_full(s, i + 2, 4);
                lemma_scan_string_body(s, i + 6);
                lemma_scan_string_bounds(s, i + 6);
                assert(b.subrange(6, b.len() as int) =~= s.subrange(i + 6, end));
                assert(b[2] == s[i + 2] && b[3] == s[i + 3] && b[4] == s[i + 4] && b[5] == s[i + 5]);
            }
        } else {
            lemma_scan_string_body(s, i + 1);
            lemma_scan_string_bounds(s, i + 1);
            assert(b.subrange(1, b.len() as int) =~= s.subrange(i + 1, end));
        }
    }
}

/// Every string token has a well-formed JSON string body.
pub proof fn lemma_string_token_is_json_string(s: Seq<char>, i: int)
    requires
        0 <= i <= s.len(),
    ensures
        lex_next(s, i) matches Some((Ok(tok), _)) ==> (tok.kind matches SpecTokenKind::Literal(
            SpecLiteral::String(body),
        ) ==> is_string_body(body)),
{
    lemma_skip_ws_bounds(s, i);
    let q = skip_ws(s, i);
    if q < s.len() && s[q] == '"' {
        lemma_scan_string_body(s, q + 1);
    }
}

} // verus!

verus! {

/// A run that covers exactly `[i, j)` ends at `j`.
pub proof fn lemma_run_end_exact(s: Seq<char>, i: int, j: int, p: spec_fn(char) -> bool)
    requires
        0 <= i <= j <= s.len(),
        forall|k: int| i <= k < j ==> #[trigger] p(s[k]),
        j < s.len() ==> !p(s[j]),
    ensures
        run_end(s, i, p) == j,
    decreases j - i,
{
    if i < j {
        lemma_run_end_exact(s, i + 1, j, p);
    }
}

/// A well-formed string body, up to a closing quote at `e`, is read without
/// error up to that quote.
pub proof fn lemma_string_body_scans(s: Seq<char>, i: int, e: int)
    requires
        0 <= i <= e < s.len(),
        s[e] == '"',
        is_string_body(s.subrange(i, e)),
    ensures
        scan_string(s, i) == (e, true, Option::<crate::lexical_error::LexicalErrorKind>::None),
    decreases e - i,
{
    let b = s.subrange(i, e);
    if i < e {
        assert(b[0] == s[i]);
        if s[i] == '\\' {
            assert(b[1] == s[i + 1]);
            if is_simple_escape(s[i + 1]) {
                assert(b.subrange(2, b.len() as int) =~= s.subrange(i + 2, e));
                lemma_string_body_scans(s, i + 2, e);
            } else {
                assert(b[2] == s[i + 2] && b[3] == s[i + 3] && b[4] == s[i + 4] && b[5] == s[i + 5]);
                assert(hex_prefix(s, i + 2, 4) == 4) by {
                    reveal_with_fuel(hex_prefix, 5);
                }
                assert(b.subrange(6, b.len() as int) =~= s.subrange(i + 6, e));
                lemma_string_body_scans(s, i + 6, e);
            }
        } else {
            assert(b.subrange(1, b.len() as int) =~= s.subrange(i + 1, e));
            lemma_string_body_scans(s, i + 1, e);
        }
    }
}

/// Every well-formed JSON string body, between double quotes, is read as a
/// single string token with that body, spanning the whole text.
pub proof fn lemma_json_string_is_token(b: Seq<char>)
    requires
        is_string_body(b),
    ensures
        ({
            let x = seq!['"'] + b + seq!['"'];
            &&& lex_next(x, 0) matches Some((Ok(t), n)) && n == x.len() && t.kind
                == SpecTokenKind::Literal(SpecLiteral::String(b))
            &&& lex_all(x, 0).len() == 1
        }),
{
    let x = seq!['"'] + b + seq!['"'];
    let e: int = b.len() as int + 1;
    assert(x.subrange(1, e) =~= b);
    lemma_string_body_scans(x, 1, e);
    assert(skip_ws(x, 0) == 0);
    assert(lex_next(x, 0) matches Some((Ok(t), n)) && n == x.len() && t.kind
        == SpecTokenKind::Literal(SpecLiteral::String(b)));
    lemma_lex_end(x);
    assert(lex_all(x, x.len() as int).len() == 0);
}

/// A number at `q` made of the parts `[q, b)` (sign and integer digits),
/// `[b, c)` (fraction) and `[c, e)` (exponent), each well formed, and not
/// followed by a character that could continue it, is read up to `e`
/// without error.
proof fn lemma_number_parts_scan(s: Seq<char>, q: int, a: int, b: int, c: int, e: int)
    requires
        0 <= q <= a <= q + 1,
        a < b <= c <= e <= s.len(),
        a == q + 1 ==> s[q] == '-',
        forall|k: int| a <= k < b ==> is_digit(#[trigger] s[k]),
        s[a] == '0' ==> b == a + 1,
        c > b ==> s[b] == '.' && c >= b + 2,
        forall|k: int| b + 1 <= k < c ==> is_digit(#[trigger] s[k]),
        e > c ==> (s[c] == 'e' || s[c] == 'E') && e >= c + 2,
        e > c && (s[c + 1] == '+' || s[c + 1] == '-') ==> e >= c + 3,
        e > c && (s[c + 1] == '+' || s[c + 1] == '-') ==> forall|k: int|
            c + 2 <= k < e ==> is_digit(#[trigger] s[k]),
        e > c && !(s[c + 1] == '+' || s[c + 1] == '-') ==> forall|k: int|
            c + 1 <= k < e ==> is_digit(#[trigger] s[k]),
        e < s.len() ==> !is_digit(s[e]) && s[e] != '.' && s[e] != 'e' && s[e] != 'E',
    ensures
        scan_number(s, q) == (e, Option::<crate::lexical_error::LexicalErrorKind>::None),
{
    assert forall|k: int| q + 1 <= k < b implies #[trigger] digits()(s[k]) by {}
    lemma_run_end_exact(s, q + 1, b, digits());
    if c > b {
        assert forall|k: int| b + 1 <= k < c implies #[trigger] digits()(s[k]) by {}
        lemma_run_end_exact(s, b + 1, c, digits());
    }
    if e > c {
        let i3: int = if s[c + 1] == '+' || s[c + 1] == '-' { c + 2 } else { c + 1 };
        assert forall|k: int| i3 <= k < e implies #[trigger] digits()(s[k]) by {}
        lemma_run_end_exact(s, i3, e, digits());
    }
}

/// A well-formed JSON number `t` standing at `q`, not followed by a digit,
/// `.`, `e` or `E`, is read up to its end without error.
pub proof fn lemma_json_number_scans(s: Seq<char>, q: int, t: Seq<char>)
    requires
        is_json_number(t),
        0 <= q,
        q + t.len() <= s.len(),
        s.subrange(q, q + t.len()) == t,
        q + t.len() < s.len() ==> !is_digit(s[q + t.len()]) && s[q + t.len()] != '.' && s[q
            + t.len()] != 'e' && s[q + t.len()] != 'E',
    ensures
        scan_number(s, q) == (q + t.len(), Option::<crate::lexical_error::LexicalErrorKind>::None),
{
    let (a, b, c) = choose|a: int, b: int, c: int|
        0 <= a <= 1 && a <= b <= c <= t.len() && (a == 1 ==> t[0] == '-') && #[trigger] is_json_int(
            t.subrange(a, b),
        ) && is_json_frac(#[trigger] t.subrange(b, c)) && is_json_exp(
            #[trigger] t.subrange(c, t.len() as int),
        );
    let ip = t.subrange(a, b);
    let fp = t.subrange(b, c);
    let ep = t.subrange(c, t.len() as int);
    let len = t.len() as int;
    assert forall|k: int| 0 <= k < len implies #[trigger] s[q + k] == t[k] by {}
    assert(ip[0] == t[a]);
    assert(s[q + a] == t[a]);
    assert forall|k: int| q + a <= k < q + b implies is_digit(#[trigger] s[k]) by {
        assert(ip[k - q - a] == t[k - q]);
        assert(s[q + (k - q)] == t[k - q]);
    }
    if a == 1 {
        assert(s[q + 0] == t[0]);
    }
    if c > b {
        assert(fp[0] == t[b]);
        assert(s[q + b] == t[b]);
        assert forall|k: int| q + b + 1 <= k < q + c implies is_digit(#[trigger] s[k]) by {
            assert(fp.subrange(1, fp.len() as int)[k - q - b - 1] == t[k - q]);
            assert(s[q + (k - q)] == t[k - q]);
        }
    }
    if len > c {
        assert(ep[0] == t[c]);
        assert(ep[1] == t[c + 1]);
        assert(s[q + c] == t[c]);
        assert(s[q + (c + 1)] == t[c + 1]);
        if t[c + 1] == '+' || t[c + 1] == '-' {
            assert forall|k: int| q + c + 2 <= k < q + len implies is_digit(#[trigger] s[k]) by {
                assert(ep.subrange(2, ep.len() as int)[k - q - c - 2] == t[k - q]);
                assert(s[q + (k - q)] == t[k - q]);
            }
        } else {
            assert forall|k: int| q + c + 1 <= k < q + len implies is_digit(#[trigger] s[k]) by {
                assert(ep.subrange(1, ep.len() as int)[k - q - c - 1] == t[k - q]);
                assert(s[q + (k - q)] == t[k - q]);
            }
        }
    }
    lemma_number_parts_scan(s, q, q + a, q + b, q + c, q + len);
}

/// Every well-formed JSON number is read as a single number token with that
/// text, spanning the whole text.
pub proof fn lemma_json_number_is_token(t: Seq<char>)
    requires
        is_json_number(t),
    ensures
        lex_next(t, 0) matches Some((Ok(tok), n)) && n == t.len() && tok.kind
            == SpecTokenKind::Literal(SpecLiteral::Number(t)),
        lex_all(t, 0).len() == 1,
{
    let len = t.len() as int;
    assert(t.subrange(0, len) =~= t);
    lemma_json_number_scans(t, 0, t);
    let (a, b, c) = choose|a: int, b: int, c: int|
        0 <= a <= 1 && a <= b <= c <= t.len() && (a == 1 ==> t[0] == '-') && #[trigger] is_json_int(
            t.subrange(a, b),
        ) && is_json_frac(#[trigger] t.subrange(b, c)) && is_json_exp(
            #[trigger] t.subrange(c, t.len() as int),
        );
    assert(t.subrange(a, b)[0] == t[a]);
    assert(t[0] == '-' || is_digit(t[0]));
    assert(skip_ws(t, 0) == 0);
    assert(lex_next(t, 0) matches Some((Ok(tok), n)) && n == t.len() && tok.kind
        == SpecTokenKind::Literal(SpecLiteral::Number(t)));
    lemma_lex_end(t);
    assert(lex_all(t, len).len() == 0);
}

} // verus!
