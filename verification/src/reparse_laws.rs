//! The parser reads back the tokens of a printed value.
use vstd::prelude::*;

use crate::parser_spec::{
    parse_array_rest, parse_member_at, parse_object_rest, parse_tokens, parse_value_at,
    SpecMember, SpecTokenResult,
};
use crate::code_span::CodeSpan;
use crate::token::{Delimiter, SpecLiteral, SpecTokenKind};
use crate::value::{SpecValue, SpecValueKind};
use crate::value_display::{
    alike, height, items_alike, items_height, lemma_items_height, lemma_members_height,
    members_alike, members_height,
};

verus! {

/// The kinds of the tokens of a value of kind `k` as it is printed: a
/// literal, or brackets around items (members `"name": value`) separated by
/// commas.
pub open spec fn kind_tokens(k: SpecValueKind) -> Seq<SpecTokenKind>
    decreases k, 0nat,
{
    match k {
        SpecValueKind::Literal(lit) => seq![SpecTokenKind::Literal(lit)],
        SpecValueKind::Array(items) => seq![SpecTokenKind::Delimiter(Delimiter::LeftBracket)]
            + items_tokens(items, 0) + seq![SpecTokenKind::Delimiter(Delimiter::RightBracket)],
        SpecValueKind::Object(members) => seq![SpecTokenKind::Delimiter(Delimiter::LeftBrace)]
            + members_tokens(members, 0) + seq![SpecTokenKind::Delimiter(Delimiter::RightBrace)],
    }
}

/// The separator before the item or member at index `n`.
pub open spec fn separator(n: nat) -> Seq<SpecTokenKind> {
    if n > 0 {
        seq![SpecTokenKind::Delimiter(Delimiter::Comma)]
    } else {
        Seq::empty()
    }
}

/// The token kinds of the items from index `n` on.
pub open spec fn items_tokens(items: Seq<SpecValue>, n: nat) -> Seq<SpecTokenKind>
    decreases items, items.len() - n,
{
    if n < items.len() {
        separator(n) + kind_tokens(items[n as int].kind) + items_tokens(items, n + 1)
    } else {
        Seq::empty()
    }
}

/// The token kinds of the members from index `n` on.
pub open spec fn members_tokens(members: Seq<SpecMember>, n: nat) -> Seq<SpecTokenKind>
    decreases members, members.len() - n,
{
    if n < members.len() {
        separator(n) + seq![
            SpecTokenKind::Literal(SpecLiteral::String(members[n as int].0.0)),
            SpecTokenKind::Delimiter(Delimiter::Colon),
        ] + kind_tokens(members[n as int].1.kind) + members_tokens(members, n + 1)
    } else {
        Seq::empty()
    }
}

/// The lexer results from index `i` on begin with tokens of kinds `ks`.
pub open spec fn tokens_at(t: Seq<SpecTokenResult>, i: int, ks: Seq<SpecTokenKind>) -> bool {
    &&& 0 <= i
    &&& i + ks.len() <= t.len()
    &&& forall|m: int| 0 <= m < ks.len() ==> (#[trigger] t[i + m] matches Ok(tok) && tok.kind == ks[m])
}

/// Tokens of kinds `a` followed by `b` are tokens of kinds `a`, then tokens of kinds `b`.
proof fn lemma_tokens_at_split(t: Seq<SpecTokenResult>, i: int, a: Seq<SpecTokenKind>, b: Seq<SpecTokenKind>)
    requires
        tokens_at(t, i, a + b),
    ensures
        tokens_at(t, i, a),
        tokens_at(t, i + a.len(), b),
{
    assert forall|m: int| 0 <= m < a.len() implies (#[trigger] t[i + m] matches Ok(tok) && tok.kind == a[m]) by {
        assert((a + b)[m] == a[m]);
    }
    assert forall|m: int| 0 <= m < b.len() implies (#[trigger] t[i + a.len() + m] matches Ok(tok) && tok.kind == b[m]) by {
        assert((a + b)[a.len() + m] == b[m]);
        assert(t[i + (a.len() + m)] == t[i + a.len() + m]);
    }
}

/// A printed value starts with neither a closing bracket nor a comma.
proof fn lemma_first_token_not_delimiter_end(k: SpecValueKind)
    ensures
        kind_tokens(k).len() >= 1,
        kind_tokens(k)[0] != SpecTokenKind::Delimiter(Delimiter::RightBracket),
        kind_tokens(k)[0] != SpecTokenKind::Delimiter(Delimiter::RightBrace),
        kind_tokens(k)[0] != SpecTokenKind::Delimiter(Delimiter::Comma),
{
}

/// Items alike one by one are alike as a sequence.
proof fn lemma_alike_refl_items(acc: Seq<SpecValue>, items: Seq<SpecValue>, n: nat)
    requires
        n <= acc.len(),
        n <= items.len(),
        forall|k: int| 0 <= k < n ==> alike(#[trigger] acc[k].kind, items[k].kind),
    ensures
        items_alike(acc, items, n),
    decreases n,
{
    if n > 0 {
        lemma_alike_refl_items(acc, items, (n - 1) as nat);
    }
}

/// Members alike one by one are alike as a sequence.
proof fn lemma_alike_refl_members(acc: Seq<SpecMember>, members: Seq<SpecMember>, n: nat)
    requires
        n <= acc.len(),
        n <= members.len(),
        forall|k: int|
            0 <= k < n ==> #[trigger] acc[k].0.0 == members[k].0.0 && alike(acc[k].1.kind, members[k].1.kind),
    ensures
        members_alike(acc, members, n),
    decreases n,
{
    if n > 0 {
        lemma_alike_refl_members(acc, members, (n - 1) as nat);
    }
}

/// Reading a value whose tokens are those of `k`.
proof fn lemma_parse_kind(t: Seq<SpecTokenResult>, i: int, d: int, max: int, k: SpecValueKind)
    requires
        0 <= d,
        d + height(k) <= max,
        tokens_at(t, i, kind_tokens(k)),
    ensures
        parse_value_at(t, i, d, max) matches Ok((v, _, j)) && j == i + kind_tokens(k).len() && alike(
            v.kind,
            k,
        ),
    decreases k, 0nat,
{
    assert(t[i + 0] == t[i]);
    match k {
        SpecValueKind::Literal(_) => {},
        SpecValueKind::Array(items) => {
            let ks = items_tokens(items, 0);
            let open = seq![SpecTokenKind::Delimiter(Delimiter::LeftBracket)];
            let close = seq![SpecTokenKind::Delimiter(Delimiter::RightBracket)];
            lemma_tokens_at_split(t, i, open + ks, close);
            lemma_tokens_at_split(t, i, open, ks);
            let tok = t[i]->Ok_0;
            lemma_parse_array(t, i + 1, d, max, tok.span, Seq::empty(), tok.span, items, 0);
        },
        SpecValueKind::Object(members) => {
            let ks = members_tokens(members, 0);
            let open = seq![SpecTokenKind::Delimiter(Delimiter::LeftBrace)];
            let close = seq![SpecTokenKind::Delimiter(Delimiter::RightBrace)];
            lemma_tokens_at_split(t, i, open + ks, close);
            lemma_tokens_at_split(t, i, open, ks);
            let tok = t[i]->Ok_0;
            lemma_parse_object(t, i + 1, d, max, tok.span, Seq::empty(), tok.span, members, 0);
        },
    }
}

/// Reading the rest of an array whose items from `n` on are those of `items`.
proof fn lemma_parse_array(
    t: Seq<SpecTokenResult>,
    j: int,
    d: int,
    max: int,
    begin: CodeSpan,
    acc: Seq<SpecValue>,
    last: CodeSpan,
    items: Seq<SpecValue>,
    n: nat,
)
    requires
        0 <= d <= max,
        items.len() > 0 ==> d + 1 + items_height(items, items.len()) <= max,
        n <= items.len(),
        acc.len() == n,
        forall|k: int| 0 <= k < n ==> alike(#[trigger] acc[k].kind, items[k].kind),
        tokens_at(
            t,
            j,
            items_tokens(items, n) + seq![SpecTokenKind::Delimiter(Delimiter::RightBracket)],
        ),
    ensures
        parse_array_rest(t, j, d, max, begin, acc, last) matches Ok((v, _, e)) && e == j
            + items_tokens(items, n).len() + 1 && alike(v.kind, SpecValueKind::Array(items)),
    decreases items, items.len() - n,
{
    let close = seq![SpecTokenKind::Delimiter(Delimiter::RightBracket)];
    let ks = items_tokens(items, n);
    assert(t[j + 0] == t[j]);
    if n < items.len() {
        let item = items[n as int];
        let sep = separator(n);
        let its = kind_tokens(item.kind);
        let rest = items_tokens(items, n + 1);
        assert(ks + close =~= sep + (its + (rest + close)));
        lemma_tokens_at_split(t, j, sep, its + (rest + close));
        lemma_tokens_at_split(t, j + sep.len(), its, rest + close);
        lemma_first_token_not_delimiter_end(item.kind);
        if n > 0 {
            assert((sep + (its + (rest + close)))[0] == SpecTokenKind::Delimiter(Delimiter::Comma));
        } else {
            assert((sep + (its + (rest + close)))[0] == its[0]);
        }
        assert(t[j + sep.len() + 0] == t[j + sep.len()]);
        lemma_items_height(items, items.len(), n as int);
        lemma_parse_kind(t, j + sep.len(), d + 1, max, item.kind);
        let (v, v_last, e) = parse_value_at(t, j + sep.len(), d + 1, max)->Ok_0;
        lemma_parse_array(t, e, d, max, begin, acc.push(v), v_last, items, n + 1);
    } else {
        assert(ks =~= Seq::<SpecTokenKind>::empty());
        assert((ks + close)[0] == SpecTokenKind::Delimiter(Delimiter::RightBracket));
        lemma_alike_refl_items(acc, items, n);
    }
}

/// Reading the rest of an object whose members from `n` on are those of `members`.
proof fn lemma_parse_object(
    t: Seq<SpecTokenResult>,
    j: int,
    d: int,
    max: int,
    begin: CodeSpan,
    acc: Seq<SpecMember>,
    last: CodeSpan,
    members: Seq<SpecMember>,
    n: nat,
)
    requires
        0 <= d <= max,
        members.len() > 0 ==> d + 1 + members_height(members, members.len()) <= max,
        n <= members.len(),
        acc.len() == n,
        forall|k: int|
            0 <= k < n ==> #[trigger] acc[k].0.0 == members[k].0.0 && alike(acc[k].1.kind, members[k].1.kind),
        tokens_at(
            t,
            j,
            members_tokens(members, n) + seq![SpecTokenKind::Delimiter(Delimiter::RightBrace)],
        ),
    ensures
        parse_object_rest(t, j, d, max, begin, acc, last) matches Ok((v, _, e)) && e == j
            + members_tokens(members, n).len() + 1 && alike(v.kind, SpecValueKind::Object(members)),
    decreases members, members.len() - n,
{
    let close = seq![SpecTokenKind::Delimiter(Delimiter::RightBrace)];
    let ks = members_tokens(members, n);
    assert(t[j + 0] == t[j]);
    if n < members.len() {
        let member = members[n as int];
        let sep = separator(n);
        let head = seq![
            SpecTokenKind::Literal(SpecLiteral::String(member.0.0)),
            SpecTokenKind::Delimiter(Delimiter::Colon),
        ];
        let its = kind_tokens(member.1.kind);
        let rest = members_tokens(members, n + 1);
        assert(ks + close =~= sep + (head + (its + (rest + close))));
        lemma_tokens_at_split(t, j, sep, head + (its + (rest + close)));
        let mi = j + sep.len();
        lemma_tokens_at_split(t, mi, head, its + (rest + close));
        lemma_tokens_at_split(t, mi + 2, its, rest + close);
        if n > 0 {
            assert((sep + (head + (its + (rest + close))))[0] == SpecTokenKind::Delimiter(Delimiter::Comma));
        } else {
            assert((sep + (head + (its + (rest + close))))[0] == head[0]);
        }
        assert(t[mi + 0] == t[mi]);
        assert(t[mi + 1] matches Ok(tok) && tok.kind == head[1]);
        lemma_members_height(members, members.len(), n as int);
        lemma_parse_kind(t, mi + 2, d + 1, max, member.1.kind);
        let (v, v_last, e) = parse_value_at(t, mi + 2, d + 1, max)->Ok_0;
        let name_tok = t[mi]->Ok_0;
        let m: SpecMember = ((member.0.0, name_tok.span), v);
        assert(parse_member_at(t, mi, d, max, begin, crate::parser_spec::result_end(t[j]))
            == Ok::<(SpecMember, CodeSpan, int), (crate::parser_spec::SpecParseError, int)>((m, v_last, e)));
        lemma_parse_object(t, e, d, max, begin, acc.push(m), v_last, members, n + 1);
    } else {
        assert(ks =~= Seq::<SpecTokenKind>::empty());
        assert((ks + close)[0] == SpecTokenKind::Delimiter(Delimiter::RightBrace));
        lemma_alike_refl_members(acc, members, n);
    }
}

/// The parser reads back what printing gives: lexer results whose token
/// kinds are those of a printed value of kind `k`, nested no deeper than the
/// maximum depth, parse to a value alike `k` but for its spans.
pub proof fn lemma_parse_reads_printed_tokens(t: Seq<SpecTokenResult>, k: SpecValueKind, max_depth: int)
    requires
        height(k) <= max_depth,
        t.len() == kind_tokens(k).len(),
        forall|m: int| 0 <= m < t.len() ==> (#[trigger] t[m] matches Ok(tok) && tok.kind == kind_tokens(k)[m]),
    ensures
        parse_tokens(t, 0, max_depth).0 matches Ok(v) && alike(v.kind, k),
{
    assert forall|m: int| 0 <= m < kind_tokens(k).len() implies (#[trigger] t[0 + m] matches Ok(tok) && tok.kind == kind_tokens(k)[m]) by {
        assert(t[0 + m] == t[m]);
    }
    lemma_parse_kind(t, 0, 0, max_depth, k);
}

} // verus!
