//! Lexing the printed text of a value gives the tokens of that value.
use vstd::prelude::*;

use crate::lexer_laws::{
    is_json_number, is_string_body, lemma_json_number_scans, lemma_run_end_exact,
    lemma_string_body_scans,
};
use crate::lexer_spec::{lemma_lex_next_progress, lex_all, lex_next, skip_ws, word_chars};
use crate::parser_spec::SpecMember;
use crate::reparse_laws::{
    items_tokens, kind_tokens, members_tokens, separator, tokens_at,
};
use crate::text::{is_digit, is_ws};
use crate::token::{
    delimiter_char, delimiter_of, false_text, literal_text, null_text, true_text, Delimiter,
    SpecLiteral, SpecTokenKind,
};
use crate::value::{SpecValue, SpecValueKind};
use crate::value_display::{
    footer_text, header_text, indent_text, item_suffix_text, render, render_items,
    render_members, ValueDisplayMode,
};

verus! {

/// A character that may follow a printed value: a separator, a closing
/// bracket or whitespace.
pub open spec fn is_stop(c: char) -> bool {
    c == ',' || c == ']' || c == '}' || is_ws(c)
}

/// The text ends at `e`, or a stop character stands there.
pub open spec fn stops_at(s: Seq<char>, e: int) -> bool {
    e == s.len() || (0 <= e < s.len() && is_stop(s[e]))
}

/// Lexing from `i` gives tokens of kinds `ks`, then what lexing from `e` gives.
pub open spec fn lexes_to(s: Seq<char>, i: int, e: int, ks: Seq<SpecTokenKind>) -> bool {
    &&& 0 <= i <= e <= s.len()
    &&& lex_all(s, i).len() == ks.len() + lex_all(s, e).len()
    &&& tokens_at(lex_all(s, i), 0, ks)
    &&& lex_all(s, i).subrange(ks.len() as int, lex_all(s, i).len() as int) == lex_all(s, e)
}

/// A literal whose text the lexer reads back: numbers and strings well formed.
pub open spec fn literal_ok(lit: SpecLiteral) -> bool {
    match lit {
        SpecLiteral::Number(t) => is_json_number(t),
        SpecLiteral::String(b) => is_string_body(b),
        _ => true,
    }
}

/// A value kind whose literals and member names the lexer reads back.
pub open spec fn well_formed(k: SpecValueKind) -> bool
    decreases k, 0nat,
{
    match k {
        SpecValueKind::Literal(lit) => literal_ok(lit),
        SpecValueKind::Array(items) => items_well_formed(items, 0),
        SpecValueKind::Object(members) => members_well_formed(members, 0),
    }
}

/// The items from index `n` on are well formed.
pub open spec fn items_well_formed(items: Seq<SpecValue>, n: nat) -> bool
    decreases items, items.len() - n,
{
    n < items.len() ==> well_formed(items[n as int].kind) && items_well_formed(items, n + 1)
}

/// The members from index `n` on have well-formed names and values.
pub open spec fn members_well_formed(members: Seq<SpecMember>, n: nat) -> bool
    decreases members, members.len() - n,
{
    n < members.len() ==> is_string_body(members[n as int].0.0) && well_formed(
        members[n as int].1.kind,
    ) && members_well_formed(members, n + 1)
}

/// A text standing at `j` that is `a` followed by `b` has `a` at `j` and `b` after it.
proof fn lemma_sub(s: Seq<char>, j: int, a: Seq<char>, b: Seq<char>)
    requires
        0 <= j,
        j + a.len() + b.len() <= s.len(),
        s.subrange(j, j + a.len() + b.len()) == a + b,
    ensures
        s.subrange(j, j + a.len()) == a,
        s.subrange(j + a.len(), j + a.len() + b.len()) == b,
{
    assert forall|k: int| 0 <= k < a.len() implies s.subrange(j, j + a.len())[k] == a[k] by {
        assert(s.subrange(j, j + a.len() + b.len())[k] == (a + b)[k]);
    }
    assert forall|k: int| 0 <= k < b.len() implies s.subrange(j + a.len(), j + a.len() + b.len())[k]
        == b[k] by {
        assert(s.subrange(j, j + a.len() + b.len())[a.len() + k] == (a + b)[a.len() + k]);
        assert(s.subrange(j, j + a.len() + b.len())[a.len() + k] == s[j + a.len() + k]);
        assert(s.subrange(j + a.len(), j + a.len() + b.len())[k] == s[j + a.len() + k]);
    }
    assert(s.subrange(j, j + a.len()) =~= a);
    assert(s.subrange(j + a.len(), j + a.len() + b.len()) =~= b);
}

/// Lexing from `i` gives nothing before what lexing from `i` gives.
proof fn lemma_lexes_empty(s: Seq<char>, i: int)
    requires
        0 <= i <= s.len(),
    ensures
        lexes_to(s, i, i, Seq::empty()),
{
    assert(lex_all(s, i).subrange(0, lex_all(s, i).len() as int) =~= lex_all(s, i));
}

/// Two stretches of text lexed one after the other give their tokens in order.
proof fn lemma_lexes_trans(
    s: Seq<char>,
    i: int,
    j: int,
    e: int,
    a: Seq<SpecTokenKind>,
    b: Seq<SpecTokenKind>,
)
    requires
        lexes_to(s, i, j, a),
        lexes_to(s, j, e, b),
    ensures
        lexes_to(s, i, e, a + b),
{
    let li = lex_all(s, i);
    let lj = lex_all(s, j);
    let le = lex_all(s, e);
    assert forall|m: int| 0 <= m < (a + b).len() implies (#[trigger] li[0 + m] matches Ok(tok)
        && tok.kind == (a + b)[m]) by {
        if m < a.len() {
            assert(li[0 + m] matches Ok(tok) && tok.kind == a[m]);
        } else {
            assert(li.subrange(a.len() as int, li.len() as int)[m - a.len()] == li[m]);
            assert(lj[0 + (m - a.len())] matches Ok(tok) && tok.kind == b[m - a.len()]);
            assert(li[0 + m] == li[m]);
        }
    }
    assert forall|m: int| 0 <= m < le.len() implies li.subrange((a + b).len() as int, li.len() as int)[m]
        == le[m] by {
        assert(li.subrange(a.len() as int, li.len() as int)[b.len() + m] == lj[b.len() + m]);
        assert(lj.subrange(b.len() as int, lj.len() as int)[m] == le[m]);
    }
    assert(li.subrange((a + b).len() as int, li.len() as int) =~= le);
}

/// Skipping whitespace from anywhere inside a run of whitespace ends at the same place.
proof fn lemma_skip_ws_same(s: Seq<char>, i: int, j: int)
    requires
        0 <= i <= j <= s.len(),
        forall|k: int| i <= k < j ==> is_ws(#[trigger] s[k]),
    ensures
        skip_ws(s, i) == skip_ws(s, j),
    decreases j - i,
{
    if i < j {
        lemma_skip_ws_same(s, i + 1, j);
    }
}

/// Whitespace gives no token.
proof fn lemma_lexes_ws(s: Seq<char>, i: int, j: int)
    requires
        0 <= i <= j <= s.len(),
        forall|k: int| i <= k < j ==> is_ws(#[trigger] s[k]),
    ensures
        lexes_to(s, i, j, Seq::empty()),
{
    lemma_skip_ws_same(s, i, j);
    assert(lex_next(s, i) == lex_next(s, j));
    assert(lex_all(s, i) == lex_all(s, j));
    lemma_lexes_empty(s, j);
}

/// One token read at `i`, ending at `e`.
proof fn lemma_lexes_token(s: Seq<char>, i: int, e: int, k: SpecTokenKind)
    requires
        0 <= i <= s.len(),
        lex_next(s, i) matches Some((Ok(tok), p)) && p == e && tok.kind == k,
    ensures
        lexes_to(s, i, e, seq![k]),
{
    lemma_lex_next_progress(s, i);
    let li = lex_all(s, i);
    assert(li == seq![lex_next(s, i).unwrap().0] + lex_all(s, e));
    assert(li[0int + 0int] == li[0int]);
    assert(li.subrange(1, li.len() as int) =~= lex_all(s, e));
}

/// A delimiter at `i`.
proof fn lemma_lexes_delimiter(s: Seq<char>, i: int, d: Delimiter)
    requires
        0 <= i < s.len(),
        s[i] == delimiter_char(d),
    ensures
        lexes_to(s, i, i + 1, seq![SpecTokenKind::Delimiter(d)]),
{
    assert(skip_ws(s, i) == i);
    assert(delimiter_of(s[i]) == Some(d));
    lemma_lexes_token(s, i, i + 1, SpecTokenKind::Delimiter(d));
}

/// A JSON number starts with `-` or a digit.
proof fn lemma_json_number_first(t: Seq<char>)
    requires
        is_json_number(t),
    ensures
        t.len() >= 1,
        t[0] == '-' || is_digit(t[0]),
{
    let (a, b, c) = choose|a: int, b: int, c: int|
        0 <= a <= 1 && a <= b <= c <= t.len() && (a == 1 ==> t[0] == '-') && #[trigger] crate::lexer_laws::is_json_int(
            t.subrange(a, b),
        ) && crate::lexer_laws::is_json_frac(#[trigger] t.subrange(b, c)) && crate::lexer_laws::is_json_exp(
            #[trigger] t.subrange(c, t.len() as int),
        );
    assert(t.subrange(a, b)[0] == t[a]);
}

/// A string token whose body `b` stands just after the quote at `i`.
proof fn lemma_lexes_string(s: Seq<char>, i: int, b: Seq<char>)
    requires
        0 <= i,
        i + b.len() + 2 <= s.len(),
        s.subrange(i, i + b.len() + 2) == seq!['"'] + b + seq!['"'],
        is_string_body(b),
    ensures
        lexes_to(s, i, i + b.len() + 2, seq![SpecTokenKind::Literal(SpecLiteral::String(b))]),
{
    let x = seq!['"'] + b + seq!['"'];
    let e = i + 1 + b.len();
    assert forall|k: int| 0 <= k < x.len() implies #[trigger] s[i + k] == x[k] by {
        assert(s.subrange(i, i + b.len() + 2)[k] == x[k]);
    }
    assert(s[i + 0] == '"');
    assert(s[i + (1 + b.len())] == '"');
    assert(s.subrange(i + 1, e) =~= b) by {
        assert forall|k: int| 0 <= k < b.len() implies s.subrange(i + 1, e)[k] == b[k] by {
            assert(s[i + (1 + k)] == x[1 + k]);
        }
    }
    lemma_string_body_scans(s, i + 1, e);
    assert(skip_ws(s, i) == i);
    lemma_lexes_token(s, i, i + b.len() + 2, SpecTokenKind::Literal(SpecLiteral::String(b)));
}

/// A literal whose text stands at `i`, followed by a stop.
proof fn lemma_lexes_literal(s: Seq<char>, i: int, lit: SpecLiteral)
    requires
        literal_ok(lit),
        0 <= i,
        i + literal_text(lit).len() <= s.len(),
        s.subrange(i, i + literal_text(lit).len()) == literal_text(lit),
        stops_at(s, i + literal_text(lit).len()),
    ensures
        lexes_to(s, i, i + literal_text(lit).len(), seq![SpecTokenKind::Literal(lit)]),
{
    let x = literal_text(lit);
    let e = i + x.len();
    assert forall|k: int| 0 <= k < x.len() implies #[trigger] s[i + k] == x[k] by {
        assert(s.subrange(i, e)[k] == x[k]);
    }
    match lit {
        SpecLiteral::String(b) => {
            lemma_lexes_string(s, i, b);
        },
        SpecLiteral::Number(t) => {
            lemma_json_number_first(t);
            assert(s[i + 0] == t[0]);
            lemma_json_number_scans(s, i, t);
            assert(skip_ws(s, i) == i);
            lemma_lexes_token(s, i, e, SpecTokenKind::Literal(lit));
        },
        _ => {
            assert(s[i + 0] == x[0]);
            assert forall|k: int| i + 1 <= k < e implies #[trigger] word_chars()(s[k]) by {
                assert(s[i + (k - i)] == x[k - i]);
            }
            lemma_run_end_exact(s, i + 1, e, word_chars());
            assert(s.subrange(i, e) == x);
            assert(skip_ws(s, i) == i);
            assert(x == true_text() || x == false_text() || x == null_text());
            lemma_lexes_token(s, i, e, SpecTokenKind::Literal(lit));
        },
    }
}

/// The printed text of the items from index `n` on, read forwards.
pub open spec fn items_text(mode: ValueDisplayMode, d: nat, items: Seq<SpecValue>, n: nat) -> Seq<char>
    decreases items.len() - n,
{
    if n < items.len() {
        indent_text(mode, d + 1) + render(mode, d + 1, items[n as int].kind) + item_suffix_text(
            mode,
            n + 1 == items.len(),
        ) + items_text(mode, d, items, n + 1)
    } else {
        Seq::empty()
    }
}

/// The printed text of the members from index `n` on, read forwards.
pub open spec fn members_text(mode: ValueDisplayMode, d: nat, members: Seq<SpecMember>, n: nat) -> Seq<
    char,
>
    decreases members.len() - n,
{
    if n < members.len() {
        indent_text(mode, d + 1) + seq!['"'] + members[n as int].0.0 + seq!['"', ':', ' '] + render(
            mode,
            d + 1,
            members[n as int].1.kind,
        ) + item_suffix_text(mode, n + 1 == members.len()) + members_text(mode, d, members, n + 1)
    } else {
        Seq::empty()
    }
}

/// The printed items, built from the last one back, read the same forwards.
proof fn lemma_items_forward(mode: ValueDisplayMode, d: nat, items: Seq<SpecValue>, n: nat)
    requires
        n <= items.len(),
    ensures
        render_items(mode, d, items, n) + items_text(mode, d, items, n) == items_text(mode, d, items, 0),
    decreases n,
{
    if n == 0 {
        assert(render_items(mode, d, items, 0) + items_text(mode, d, items, 0) =~= items_text(mode, d, items, 0));
    } else {
        lemma_items_forward(mode, d, items, (n - 1) as nat);
        assert(render_items(mode, d, items, n) + items_text(mode, d, items, n) =~= render_items(
            mode,
            d,
            items,
            (n - 1) as nat,
        ) + items_text(mode, d, items, (n - 1) as nat));
    }
}

/// The printed members, built from the last one back, read the same forwards.
proof fn lemma_members_forward(mode: ValueDisplayMode, d: nat, members: Seq<SpecMember>, n: nat)
    requires
        n <= members.len(),
    ensures
        render_members(mode, d, members, n) + members_text(mode, d, members, n) == members_text(
            mode,
            d,
            members,
            0,
        ),
    decreases n,
{
    if n == 0 {
        assert(render_members(mode, d, members, 0) + members_text(mode, d, members, 0) =~= members_text(mode, d, members, 0));
    } else {
        lemma_members_forward(mode, d, members, (n - 1) as nat);
        assert(render_members(mode, d, members, n) + members_text(mode, d, members, n) =~= render_members(
            mode,
            d,
            members,
            (n - 1) as nat,
        ) + members_text(mode, d, members, (n - 1) as nat));
    }
}

/// The comma after the item or member at index `n` of `len`.
pub open spec fn comma_after(n: nat, len: nat) -> Seq<SpecTokenKind> {
    if n + 1 < len {
        seq![SpecTokenKind::Delimiter(Delimiter::Comma)]
    } else {
        Seq::empty()
    }
}

/// The token kinds of the items from index `n` on, each with the comma after it.
pub open spec fn items_tokens_after(items: Seq<SpecValue>, n: nat) -> Seq<SpecTokenKind>
    decreases items.len() - n,
{
    if n < items.len() {
        kind_tokens(items[n as int].kind) + comma_after(n, items.len()) + items_tokens_after(items, n + 1)
    } else {
        Seq::empty()
    }
}

/// The token kinds of the members from index `n` on, each with the comma after it.
pub open spec fn members_tokens_after(members: Seq<SpecMember>, n: nat) -> Seq<SpecTokenKind>
    decreases members.len() - n,
{
    if n < members.len() {
        seq![
            SpecTokenKind::Literal(SpecLiteral::String(members[n as int].0.0)),
            SpecTokenKind::Delimiter(Delimiter::Colon),
        ] + kind_tokens(members[n as int].1.kind) + comma_after(n, members.len())
            + members_tokens_after(members, n + 1)
    } else {
        Seq::empty()
    }
}

/// Items with a comma before each but the first are items with a comma after each but the last.
proof fn lemma_items_tokens_after(items: Seq<SpecValue>, n: nat)
    ensures
        items_tokens(items, n) == separator(n) + items_tokens_after(items, n) || (n >= items.len()
            && items_tokens(items, n) == Seq::<SpecTokenKind>::empty() && items_tokens_after(items, n)
            == Seq::<SpecTokenKind>::empty()),
        n >= items.len() ==> items_tokens(items, n) == Seq::<SpecTokenKind>::empty(),
        n < items.len() ==> items_tokens(items, n) == separator(n) + items_tokens_after(items, n),
    decreases items.len() - n,
{
    if n < items.len() {
        lemma_items_tokens_after(items, n + 1);
        assert(items_tokens(items, n) =~= separator(n) + items_tokens_after(items, n));
    }
}

/// Members with a comma before each but the first are members with a comma after each but the last.
proof fn lemma_members_tokens_after(members: Seq<SpecMember>, n: nat)
    ensures
        n >= members.len() ==> members_tokens(members, n) == Seq::<SpecTokenKind>::empty(),
        n < members.len() ==> members_tokens(members, n) == separator(n) + members_tokens_after(members, n),
    decreases members.len() - n,
{
    if n < members.len() {
        lemma_members_tokens_after(members, n + 1);
        let head = seq![
            SpecTokenKind::Literal(SpecLiteral::String(members[n as int].0.0)),
            SpecTokenKind::Delimiter(Delimiter::Colon),
        ];
        let k = kind_tokens(members[n as int].1.kind);
        let tail = members_tokens_after(members, n + 1);
        assert(members_tokens(members, n + 1) =~= comma_after(n, members.len()) + tail);
        assert(members_tokens(members, n) == separator(n) + head + k + members_tokens(members, n + 1));
        assert(members_tokens_after(members, n) == head + k + comma_after(n, members.len()) + tail);
        assert(members_tokens(members, n) =~= separator(n) + members_tokens_after(members, n));
    }
}

/// Indentation is whitespace.
proof fn lemma_indent_ws(mode: ValueDisplayMode, d: nat)
    ensures
        forall|k: int| 0 <= k < indent_text(mode, d).len() ==> is_ws(#[trigger] indent_text(mode, d)[k]),
{
}

/// What follows an item: a comma and whitespace, or whitespace alone.
proof fn lemma_lexes_suffix(s: Seq<char>, j: int, mode: ValueDisplayMode, is_last: bool)
    requires
        0 <= j,
        j + item_suffix_text(mode, is_last).len() <= s.len(),
        s.subrange(j, j + item_suffix_text(mode, is_last).len()) == item_suffix_text(mode, is_last),
    ensures
        lexes_to(
            s,
            j,
            j + item_suffix_text(mode, is_last).len(),
            if is_last {
                Seq::<SpecTokenKind>::empty()
            } else {
                seq![SpecTokenKind::Delimiter(Delimiter::Comma)]
            },
        ),
        item_suffix_text(mode, is_last).len() > 0 ==> is_stop(item_suffix_text(mode, is_last)[0]),
{
    let x = item_suffix_text(mode, is_last);
    assert forall|k: int| 0 <= k < x.len() implies #[trigger] s[j + k] == x[k] by {
        assert(s.subrange(j, j + x.len())[k] == x[k]);
    }
    if is_last {
        assert forall|k: int| j <= k < j + x.len() implies is_ws(#[trigger] s[k]) by {
            assert(s[j + (k - j)] == x[k - j]);
        }
        lemma_lexes_ws(s, j, j + x.len());
    } else {
        assert(s[j + 0] == x[0]);
        lemma_lexes_delimiter(s, j, Delimiter::Comma);
        assert(s[j + 1] == x[1]);
        lemma_lexes_ws(s, j + 1, j + 2);
        lemma_lexes_trans(s, j, j + 1, j + 2, seq![SpecTokenKind::Delimiter(Delimiter::Comma)], Seq::empty());
        assert(seq![SpecTokenKind::Delimiter(Delimiter::Comma)] + Seq::<SpecTokenKind>::empty() =~= seq![SpecTokenKind::Delimiter(Delimiter::Comma)]);
    }
}

/// Lexing the printed text of a well-formed value kind, followed by a stop.
proof fn lemma_lex_kind(s: Seq<char>, i: int, mode: ValueDisplayMode, d: nat, k: SpecValueKind)
    requires
        well_formed(k),
        0 <= i,
        i + render(mode, d, k).len() <= s.len(),
        s.subrange(i, i + render(mode, d, k).len()) == render(mode, d, k),
        stops_at(s, i + render(mode, d, k).len()),
    ensures
        lexes_to(s, i, i + render(mode, d, k).len(), kind_tokens(k)),
    decreases k, 2nat,
{
    match k {
        SpecValueKind::Literal(lit) => {
            lemma_lexes_literal(s, i, lit);
        },
        SpecValueKind::Array(items) => {
            lemma_lex_array(s, i, mode, d, items);
        },
        SpecValueKind::Object(members) => {
            lemma_lex_object(s, i, mode, d, members);
        },
    }
}

/// Lexing the printed text of a well-formed array, followed by a stop.
proof fn lemma_lex_array(s: Seq<char>, i: int, mode: ValueDisplayMode, d: nat, items: Seq<SpecValue>)
    requires
        items_well_formed(items, 0),
        0 <= i,
        i + render(mode, d, SpecValueKind::Array(items)).len() <= s.len(),
        s.subrange(i, i + render(mode, d, SpecValueKind::Array(items)).len()) == render(mode, d, SpecValueKind::Array(items)),
        stops_at(s, i + render(mode, d, SpecValueKind::Array(items)).len()),
    ensures
        lexes_to(s, i, i + render(mode, d, SpecValueKind::Array(items)).len(), kind_tokens(SpecValueKind::Array(items))),
    decreases SpecValueKind::Array(items), 1nat,
{
    let r = render(mode, d, SpecValueKind::Array(items));
    let len = items.len();
    let h = header_text(mode, '[', len == 0);
    let body = items_text(mode, d, items, 0);
    let f = footer_text(mode, d, ']', len == 0);
    lemma_items_forward(mode, d, items, len);
    assert(items_text(mode, d, items, len) =~= Seq::<char>::empty());
    assert(render_items(mode, d, items, len) =~= body);
    assert(r == h + render_items(mode, d, items, len) + f);
    assert(r =~= h + body + f);
    lemma_sub(s, i, h + body, f);
    lemma_sub(s, i, h, body);
    let jb = i + h.len();
    let jf = jb + body.len();
    let je = jf + f.len();
    assert(s.subrange(i, jb)[0] == s[i]);
    lemma_lexes_delimiter(s, i, Delimiter::LeftBracket);
    assert forall|q: int| i + 1 <= q < jb implies is_ws(#[trigger] s[q]) by {
        assert(s.subrange(i, jb)[q - i] == s[q]);
    }
    lemma_lexes_ws(s, i + 1, jb);
    lemma_lexes_trans(s, i, i + 1, jb, seq![SpecTokenKind::Delimiter(Delimiter::LeftBracket)], Seq::empty());
    lemma_indent_ws(mode, d);
    assert(s.subrange(jf, je)[0] == s[jf]);
    assert(f[0] == ']' || is_ws(f[0]));
    lemma_lex_items(s, jb, mode, d, items, 0);
    assert forall|q: int| jf <= q < je - 1 implies is_ws(#[trigger] s[q]) by {
        assert(s.subrange(jf, je)[q - jf] == s[q]);
    }
    lemma_lexes_ws(s, jf, je - 1);
    assert(s.subrange(jf, je)[f.len() - 1] == s[je - 1]);
    lemma_lexes_delimiter(s, je - 1, Delimiter::RightBracket);
    lemma_lexes_trans(s, jf, je - 1, je, Seq::empty(), seq![SpecTokenKind::Delimiter(Delimiter::RightBracket)]);
    let lb = seq![SpecTokenKind::Delimiter(Delimiter::LeftBracket)] + Seq::<SpecTokenKind>::empty();
    let rb = Seq::<SpecTokenKind>::empty() + seq![SpecTokenKind::Delimiter(Delimiter::RightBracket)];
    lemma_lexes_trans(s, i, jb, jf, lb, items_tokens_after(items, 0));
    lemma_lexes_trans(s, i, jf, je, lb + items_tokens_after(items, 0), rb);
    lemma_items_tokens_after(items, 0);
    assert(lb + items_tokens_after(items, 0) + rb =~= kind_tokens(SpecValueKind::Array(items)));
}

/// Lexing the printed text of a well-formed object, followed by a stop.
proof fn lemma_lex_object(s: Seq<char>, i: int, mode: ValueDisplayMode, d: nat, members: Seq<SpecMember>)
    requires
        members_well_formed(members, 0),
        0 <= i,
        i + render(mode, d, SpecValueKind::Object(members)).len() <= s.len(),
        s.subrange(i, i + render(mode, d, SpecValueKind::Object(members)).len()) == render(mode, d, SpecValueKind::Object(members)),
        stops_at(s, i + render(mode, d, SpecValueKind::Object(members)).len()),
    ensures
        lexes_to(s, i, i + render(mode, d, SpecValueKind::Object(members)).len(), kind_tokens(SpecValueKind::Object(members))),
    decreases SpecValueKind::Object(members), 1nat,
{
    let r = render(mode, d, SpecValueKind::Object(members));
    let len = members.len();
    let h = header_text(mode, '{', len == 0);
    let body = members_text(mode, d, members, 0);
    let f = footer_text(mode, d, '}', len == 0);
    lemma_members_forward(mode, d, members, len);
    assert(members_text(mode, d, members, len) =~= Seq::<char>::empty());
    assert(render_members(mode, d, members, len) =~= body);
    assert(r == h + render_members(mode, d, members, len) + f);
    assert(r =~= h + body + f);
    lemma_sub(s, i, h + body, f);
    lemma_sub(s, i, h, body);
    let jb = i + h.len();
    let jf = jb + body.len();
    let je = jf + f.len();
    assert(s.subrange(i, jb)[0] == s[i]);
    lemma_lexes_delimiter(s, i, Delimiter::LeftBrace);
    assert forall|q: int| i + 1 <= q < jb implies is_ws(#[trigger] s[q]) by {
        assert(s.subrange(i, jb)[q - i] == s[q]);
    }
    lemma_lexes_ws(s, i + 1, jb);
    lemma_lexes_trans(s, i, i + 1, jb, seq![SpecTokenKind::Delimiter(Delimiter::LeftBrace)], Seq::empty());
    lemma_indent_ws(mode, d);
    assert(s.subrange(jf, je)[0] == s[jf]);
    assert(f[0] == '}' || is_ws(f[0]));
    lemma_lex_members(s, jb, mode, d, members, 0);
    assert forall|q: int| jf <= q < je - 1 implies is_ws(#[trigger] s[q]) by {
        assert(s.subrange(jf, je)[q - jf] == s[q]);
    }
    lemma_lexes_ws(s, jf, je - 1);
    assert(s.subrange(jf, je)[f.len() - 1] == s[je - 1]);
    lemma_lexes_delimiter(s, je - 1, Delimiter::RightBrace);
    lemma_lexes_trans(s, jf, je - 1, je, Seq::empty(), seq![SpecTokenKind::Delimiter(Delimiter::RightBrace)]);
    let lb = seq![SpecTokenKind::Delimiter(Delimiter::LeftBrace)] + Seq::<SpecTokenKind>::empty();
    let rb = Seq::<SpecTokenKind>::empty() + seq![SpecTokenKind::Delimiter(Delimiter::RightBrace)];
    lemma_lexes_trans(s, i, jb, jf, lb, members_tokens_after(members, 0));
    lemma_lexes_trans(s, i, jf, je, lb + members_tokens_after(members, 0), rb);
    lemma_members_tokens_after(members, 0);
    assert(lb + members_tokens_after(members, 0) + rb =~= kind_tokens(SpecValueKind::Object(members)));
}

/// Lexing the printed items from index `n` on.
proof fn lemma_lex_items(
    s: Seq<char>,
    j: int,
    mode: ValueDisplayMode,
    d: nat,
    items: Seq<SpecValue>,
    n: nat,
)
    requires
        items_well_formed(items, n),
        n <= items.len(),
        0 <= j,
        j + items_text(mode, d, items, n).len() <= s.len(),
        s.subrange(j, j + items_text(mode, d, items, n).len()) == items_text(mode, d, items, n),
        stops_at(s, j + items_text(mode, d, items, n).len()),
    ensures
        lexes_to(s, j, j + items_text(mode, d, items, n).len(), items_tokens_after(items, n)),
    decreases items, items.len() - n,
{
    let t = items_text(mode, d, items, n);
    if n < items.len() {
        let item = items[n as int];
        let last = n + 1 == items.len();
        let ind = indent_text(mode, d + 1);
        let r = render(mode, d + 1, item.kind);
        let suf = item_suffix_text(mode, last);
        let rest = items_text(mode, d, items, n + 1);
        assert(t == ind + r + suf + rest);
        lemma_sub(s, j, ind + r + suf, rest);
        lemma_sub(s, j, ind + r, suf);
        lemma_sub(s, j, ind, r);
        let j1 = j + ind.len();
        let j2 = j1 + r.len();
        let j3 = j2 + suf.len();
        let je = j3 + rest.len();
        lemma_indent_ws(mode, d + 1);
        assert forall|q: int| j <= q < j1 implies is_ws(#[trigger] s[q]) by {
            assert(s.subrange(j, j1)[q - j] == s[q]);
        }
        lemma_lexes_ws(s, j, j1);
        lemma_lexes_suffix(s, j2, mode, last);
        if suf.len() > 0 {
            assert(s.subrange(j2, j3)[0] == s[j2]);
        } else {
            assert(rest =~= Seq::<char>::empty());
        }
        assert(decreases_to!(items => items[n as int]));
        lemma_lex_kind(s, j1, mode, d + 1, item.kind);
        lemma_lex_items(s, j3, mode, d, items, n + 1);
        let kt = kind_tokens(item.kind);
        let ct = comma_after(n, items.len());
        assert(ct == (if last {
            Seq::<SpecTokenKind>::empty()
        } else {
            seq![SpecTokenKind::Delimiter(Delimiter::Comma)]
        }));
        lemma_lexes_trans(s, j, j1, j2, Seq::empty(), kt);
        lemma_lexes_trans(s, j, j2, j3, Seq::<SpecTokenKind>::empty() + kt, ct);
        lemma_lexes_trans(s, j, j3, je, Seq::<SpecTokenKind>::empty() + kt + ct, items_tokens_after(items, n + 1));
        assert(Seq::<SpecTokenKind>::empty() + kt + ct + items_tokens_after(items, n + 1) =~= items_tokens_after(items, n));
    } else {
        assert(t =~= Seq::<char>::empty());
        lemma_lexes_empty(s, j);
    }
}

/// Lexing the printed members from index `n` on.
proof fn lemma_lex_members(
    s: Seq<char>,
    j: int,
    mode: ValueDisplayMode,
    d: nat,
    members: Seq<SpecMember>,
    n: nat,
)
    requires
        members_well_formed(members, n),
        n <= members.len(),
        0 <= j,
        j + members_text(mode, d, members, n).len() <= s.len(),
        s.subrange(j, j + members_text(mode, d, members, n).len()) == members_text(mode, d, members, n),
        stops_at(s, j + members_text(mode, d, members, n).len()),
    ensures
        lexes_to(s, j, j + members_text(mode, d, members, n).len(), members_tokens_after(members, n)),
    decreases members, members.len() - n,
{
    let t = members_text(mode, d, members, n);
    if n < members.len() {
        let member = members[n as int];
        let name = member.0.0;
        let last = n + 1 == members.len();
        let ind = indent_text(mode, d + 1);
        let q = seq!['"'] + name + seq!['"', ':', ' '];
        let r = render(mode, d + 1, member.1.kind);
        let suf = item_suffix_text(mode, last);
        let rest = members_text(mode, d, members, n + 1);
        assert(t =~= ind + q + r + suf + rest);
        lemma_sub(s, j, ind + q + r + suf, rest);
        lemma_sub(s, j, ind + q + r, suf);
        lemma_sub(s, j, ind + q, r);
        lemma_sub(s, j, ind, q);
        let j1 = j + ind.len();
        let js = j1 + name.len() + 2;
        let j2 = j1 + q.len();
        let j3 = j2 + r.len();
        let j4 = j3 + suf.len();
        let je = j4 + rest.len();
        lemma_indent_ws(mode, d + 1);
        assert forall|p: int| j <= p < j1 implies is_ws(#[trigger] s[p]) by {
            assert(s.subrange(j, j1)[p - j] == s[p]);
        }
        lemma_lexes_ws(s, j, j1);
        let qs = seq!['"'] + name + seq!['"'];
        assert(q =~= qs + seq![':', ' ']);
        lemma_sub(s, j1, qs, seq![':', ' ']);
        lemma_lexes_string(s, j1, name);
        assert(s.subrange(js, j2)[0] == s[js]);
        assert(s.subrange(js, j2)[1] == s[js + 1]);
        lemma_lexes_delimiter(s, js, Delimiter::Colon);
        lemma_lexes_ws(s, js + 1, j2);
        lemma_lexes_suffix(s, j3, mode, last);
        if suf.len() > 0 {
            assert(s.subrange(j3, j4)[0] == s[j3]);
        } else {
            assert(rest =~= Seq::<char>::empty());
        }
        assert(decreases_to!(members => members[n as int]));
        assert(decreases_to!(members[n as int] => members[n as int].1));
        lemma_lex_kind(s, j2, mode, d + 1, member.1.kind);
        lemma_lex_members(s, j4, mode, d, members, n + 1);
        let st = seq![SpecTokenKind::Literal(SpecLiteral::String(name))];
        let co = seq![SpecTokenKind::Delimiter(Delimiter::Colon)];
        let kt = kind_tokens(member.1.kind);
        let ct = comma_after(n, members.len());
        assert(ct == (if last {
            Seq::<SpecTokenKind>::empty()
        } else {
            seq![SpecTokenKind::Delimiter(Delimiter::Comma)]
        }));
        lemma_lexes_trans(s, js, js + 1, j2, co, Seq::empty());
        lemma_lexes_trans(s, j, j1, js, Seq::empty(), st);
        lemma_lexes_trans(s, j, js, j2, Seq::<SpecTokenKind>::empty() + st, co + Seq::<SpecTokenKind>::empty());
        let a1 = Seq::<SpecTokenKind>::empty() + st + (co + Seq::<SpecTokenKind>::empty());
        lemma_lexes_trans(s, j, j2, j3, a1, kt);
        lemma_lexes_trans(s, j, j3, j4, a1 + kt, ct);
        lemma_lexes_trans(s, j, j4, je, a1 + kt + ct, members_tokens_after(members, n + 1));
        assert(a1 + kt + ct + members_tokens_after(members, n + 1) =~= members_tokens_after(members, n));
    } else {
        assert(t =~= Seq::<char>::empty());
        lemma_lexes_empty(s, j);
    }
}

/// Lexing the printed text of a well-formed value kind gives exactly the
/// tokens of that value, in every mode.
pub proof fn lemma_printed_text_lexes(mode: ValueDisplayMode, k: SpecValueKind)
    requires
        well_formed(k),
    ensures
        ({
            let r = render(mode, 0, k);
            &&& lex_all(r, 0).len() == kind_tokens(k).len()
            &&& forall|m: int| 0 <= m < lex_all(r, 0).len() ==> (#[trigger] lex_all(r, 0)[m] matches Ok(
                tok,
            ) && tok.kind == kind_tokens(k)[m])
        }),
{
    let r = render(mode, 0, k);
    assert(r.subrange(0, r.len() as int) =~= r);
    lemma_lex_kind(r, 0, mode, 0, k);
    crate::lexer_laws::lemma_lex_end(r);
    assert(lex_all(r, r.len() as int).len() == 0);
    assert forall|m: int| 0 <= m < lex_all(r, 0).len() implies (#[trigger] lex_all(r, 0)[m] matches Ok(
        tok,
    ) && tok.kind == kind_tokens(k)[m]) by {
        assert(lex_all(r, 0)[0 + m] == lex_all(r, 0)[m]);
    }
}

} // verus!
