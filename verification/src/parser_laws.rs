//! Properties of the parser that hold for every sequence of tokens.
use vstd::prelude::*;

use crate::code_location::CodeLocation;
use crate::code_span::CodeSpan;
use crate::lexer_spec::{lemma_lex_next_progress, lemma_skip_ws_bounds, lex_all, lex_next, skip_ws};
use crate::parser_spec::{
    parse_array_rest, parse_member_at, parse_object_rest, parse_tokens, parse_value_at,
    result_end, result_start, SpecMember, SpecParseError, SpecTokenResult,
};
use crate::token::{Delimiter, SpecTokenKind};
use crate::value::SpecValue;
use crate::value_display::{
    fits, height, items_height, members_height, ValueDisplayMode,
};

verus! {

proof fn lemma_items_height_bound(items: Seq<SpecValue>, n: nat, b: nat)
    requires
        n <= items.len(),
        forall|k: int| 0 <= k < n ==> height(#[trigger] items[k].kind) <= b,
    ensures
        items_height(items, n) <= b,
    decreases n,
{
    if n > 0 {
        lemma_items_height_bound(items, (n - 1) as nat, b);
    }
}

proof fn lemma_members_height_bound(members: Seq<SpecMember>, n: nat, b: nat)
    requires
        n <= members.len(),
        forall|k: int| 0 <= k < n ==> height(#[trigger] members[k].1.kind) <= b,
    ensures
        members_height(members, n) <= b,
    decreases n,
{
    if n > 0 {
        lemma_members_height_bound(members, (n - 1) as nat, b);
    }
}

/// What a value read at `i` looks like: it takes at least one token, it
/// starts where its first token starts and ends where its last token ends,
/// and it is nested no deeper than the maximum depth.  `NoToken` comes
/// exactly when no token is left.
proof fn lemma_value(t: Seq<SpecTokenResult>, i: int, d: int, m: int)
    requires
        0 <= i <= t.len(),
        0 <= d,
    ensures
        parse_value_at(t, i, d, m) matches Ok((v, last, j)) ==> {
            &&& i < j <= t.len()
            &&& v.span.start == result_start(t[i])
            &&& v.span.end == last.end
            &&& t[j - 1] matches Ok(tok) && tok.span == last
            &&& d + height(v.kind) <= m
        },
        parse_value_at(t, i, d, m) matches Err((e, j)) ==> i <= j <= t.len(),
        (parse_value_at(t, i, d, m) matches Err((SpecParseError::NoToken, _))) <==> i >= t.len(),
    decreases t.len() - i, 0int,
{
    if i < t.len() {
        if let Ok(tok) = t[i] {
            if d <= m {
                lemma_array(t, i + 1, d, m, tok.span, Seq::empty(), tok.span);
                lemma_object(t, i + 1, d, m, tok.span, Seq::empty(), tok.span);
            }
        }
    }
}

proof fn lemma_array(
    t: Seq<SpecTokenResult>,
    i: int,
    d: int,
    m: int,
    begin: CodeSpan,
    items: Seq<SpecValue>,
    last: CodeSpan,
)
    requires
        0 <= i <= t.len(),
        0 <= d <= m,
        forall|k: int| 0 <= k < items.len() ==> d + 1 + height(#[trigger] items[k].kind) <= m,
    ensures
        parse_array_rest(t, i, d, m, begin, items, last) matches Ok((v, l, j)) ==> {
            &&& i < j <= t.len()
            &&& v.span.start == begin.start
            &&& v.span.end == l.end
            &&& t[j - 1] matches Ok(tok) && tok.span == l
            &&& d + height(v.kind) <= m
        },
        parse_array_rest(t, i, d, m, begin, items, last) matches Err((e, j)) ==> {
            &&& !(e is NoToken)
            &&& i <= j <= t.len()
        },
    decreases t.len() - i, 1int,
{
    if i < t.len() {
        let next = t[i];
        let is_end = next matches Ok(tok) && tok.kind == SpecTokenKind::Delimiter(
            Delimiter::RightBracket,
        );
        let is_comma = next matches Ok(tok) && tok.kind == SpecTokenKind::Delimiter(
            Delimiter::Comma,
        );
        if is_end {
            if items.len() > 0 {
                lemma_items_height_bound(items, items.len(), (m - d - 1) as nat);
            }
        } else if is_comma && items.len() == 0 {
        } else if !is_comma && items.len() > 0 {
        } else {
            let vi = if is_comma { i + 1 } else { i };
            lemma_value(t, vi, d + 1, m);
            if let Ok((item, item_last, j)) = parse_value_at(t, vi, d + 1, m) {
                let items2 = items.push(item);
                assert forall|k: int| 0 <= k < items2.len() implies d + 1 + height(
                    #[trigger] items2[k].kind,
                ) <= m by {
                    if k < items.len() {
                        assert(items2[k] == items[k]);
                    }
                }
                lemma_array(t, j, d, m, begin, items2, item_last);
            }
        }
    }
}

proof fn lemma_object(
    t: Seq<SpecTokenResult>,
    i: int,
    d: int,
    m: int,
    begin: CodeSpan,
    members: Seq<SpecMember>,
    last: CodeSpan,
)
    requires
        0 <= i <= t.len(),
        0 <= d <= m,
        forall|k: int| 0 <= k < members.len() ==> d + 1 + height(#[trigger] members[k].1.kind) <= m,
    ensures
        parse_object_rest(t, i, d, m, begin, members, last) matches Ok((v, l, j)) ==> {
            &&& i < j <= t.len()
            &&& v.span.start == begin.start
            &&& v.span.end == l.end
            &&& t[j - 1] matches Ok(tok) && tok.span == l
            &&& d + height(v.kind) <= m
        },
        parse_object_rest(t, i, d, m, begin, members, last) matches Err((e, j)) ==> {
            &&& !(e is NoToken)
            &&& i <= j <= t.len()
        },
    decreases t.len() - i, 2int,
{
    if i < t.len() {
        let next = t[i];
        let is_end = next matches Ok(tok) && tok.kind == SpecTokenKind::Delimiter(
            Delimiter::RightBrace,
        );
        let is_comma = next matches Ok(tok) && tok.kind == SpecTokenKind::Delimiter(
            Delimiter::Comma,
        );
        if is_end {
            if members.len() > 0 {
                lemma_members_height_bound(members, members.len(), (m - d - 1) as nat);
            }
        } else if is_comma && members.len() == 0 {
        } else if !is_comma && members.len() > 0 {
        } else {
            let mi = if is_comma { i + 1 } else { i };
            let after = result_end(next);
            lemma_member(t, mi, d, m, begin, after);
            if let Ok((member, member_last, j)) = parse_member_at(t, mi, d, m, begin, after) {
                let members2 = members.push(member);
                assert forall|k: int| 0 <= k < members2.len() implies d + 1 + height(
                    #[trigger] members2[k].1.kind,
                ) <= m by {
                    if k < members.len() {
                        assert(members2[k] == members[k]);
                    }
                }
                lemma_object(t, j, d, m, begin, members2, member_last);
            }
        }
    }
}

proof fn lemma_member(
    t: Seq<SpecTokenResult>,
    i: int,
    d: int,
    m: int,
    begin: CodeSpan,
    after: CodeLocation,
)
    requires
        0 <= i <= t.len(),
        0 <= d <= m,
    ensures
        parse_member_at(t, i, d, m, begin, after) matches Ok((member, l, j)) ==> {
            &&& i < j <= t.len()
            &&& t[j - 1] matches Ok(tok) && tok.span == l
            &&& d + 1 + height(member.1.kind) <= m
        },
        parse_member_at(t, i, d, m, begin, after) matches Err((e, j)) ==> {
            &&& !(e is NoToken)
            &&& i <= j <= t.len()
        },
    decreases t.len() - i, 1int,
{
    if i + 2 <= t.len() {
        lemma_value(t, i + 2, d + 1, m);
    }
}

/// Parsing reports that there is no token exactly when there is none.
pub proof fn lemma_parse_no_token_iff_empty(t: Seq<SpecTokenResult>, max_depth: int)
    ensures
        (parse_tokens(t, 0, max_depth).0 matches Err(SpecParseError::NoToken)) <==> t.len() == 0,
{
    lemma_value(t, 0, 0, max_depth);
}

/// A successful parse reads every token; the value starts where the first
/// token starts and ends where the last token ends, and it is nested no
/// deeper than the maximum depth.
pub proof fn lemma_parse_ok(t: Seq<SpecTokenResult>, max_depth: int)
    ensures
        parse_tokens(t, 0, max_depth).0 matches Ok(v) ==> {
            &&& t.len() > 0
            &&& parse_tokens(t, 0, max_depth).1 == t.len()
            &&& v.span.start == result_start(t[0])
            &&& v.span.end == result_end(t[t.len() - 1])
            &&& height(v.kind) <= max_depth
        },
{
    lemma_value(t, 0, 0, max_depth);
}

/// A parsed value can always be printed on one line, and pretty-printed with
/// any indentation width `w` for which `w` spaces times the maximum depth fit
/// in a `usize`.
pub proof fn lemma_parsed_value_prints(t: Seq<SpecTokenResult>, max_depth: nat, w: usize)
    requires
        max_depth <= usize::MAX,
    ensures
        parse_tokens(t, 0, max_depth as int).0 matches Ok(v) ==> {
            &&& fits(ValueDisplayMode::ToString, 0, v.kind)
            &&& w as nat * max_depth <= usize::MAX ==> fits(ValueDisplayMode::PrettyPrint(w), 0, v.kind)
        },
{
    lemma_value(t, 0, 0, max_depth as int);
    if let Ok(v) = parse_tokens(t, 0, max_depth as int).0 {
        let h = height(v.kind);
        assert(w as nat * h <= w as nat * max_depth) by (nonlinear_arith)
            requires
                h <= max_depth,
        ;
    }
}

/// The lexer gives no token at all exactly when the text holds nothing but
/// whitespace.
pub proof fn lemma_no_tokens_iff_blank(s: Seq<char>)
    ensures
        lex_all(s, 0).len() == 0 <==> skip_ws(s, 0) == s.len(),
{
    lemma_skip_ws_bounds(s, 0);
    lemma_lex_next_progress(s, 0);
    if lex_next(s, 0) is Some {
        let p = lex_next(s, 0).unwrap().1;
        assert(lex_all(s, 0) == seq![lex_next(s, 0).unwrap().0] + lex_all(s, p));
    }
}

} // verus!
