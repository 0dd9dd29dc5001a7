//! Printing a parsed value and parsing the text again gives the same value.
use vstd::prelude::*;

use crate::code_location::CodeLocation;
use crate::code_span::CodeSpan;
use crate::lexer_laws::{lemma_number_token_is_json_number, lemma_string_token_is_json_string};
use crate::lexer_spec::{lemma_lex_next_progress, lex_all, lex_next};
use crate::parser_laws::lemma_parse_ok;
use crate::parser_spec::{
    parse_array_rest, parse_member_at, parse_object_rest, parse_tokens, parse_value_at,
    SpecMember, SpecTokenResult,
};
use crate::print_lex_laws::{
    items_well_formed, lemma_printed_text_lexes, literal_ok, members_well_formed, well_formed,
};
use crate::reparse_laws::lemma_parse_reads_printed_tokens;
use crate::token::SpecTokenKind;
use crate::value::SpecValue;
use crate::value_display::{alike, lemma_printing_ignores_spans, render, ValueDisplayMode};

verus! {

/// A lexer result whose literal, if any, the lexer reads back.
pub open spec fn token_ok(r: SpecTokenResult) -> bool {
    match r {
        Ok(tok) => match tok.kind {
            SpecTokenKind::Literal(lit) => literal_ok(lit),
            _ => true,
        },
        Err(_) => true,
    }
}

/// A member with a well-formed name and value.
pub open spec fn member_ok(member: SpecMember) -> bool {
    crate::lexer_laws::is_string_body(member.0.0) && well_formed(member.1.kind)
}

/// Every lexer result of `t` is [`token_ok`].
pub open spec fn tokens_ok(t: Seq<SpecTokenResult>) -> bool {
    forall|m: int| 0 <= m < t.len() ==> token_ok(#[trigger] t[m])
}

/// Every result of the lexer is [`token_ok`].
proof fn lemma_lex_all_ok(s: Seq<char>, i: int)
    requires
        0 <= i <= s.len(),
    ensures
        tokens_ok(lex_all(s, i)),
    decreases s.len() - i,
{
    lemma_lex_next_progress(s, i);
    if let Some((r, p)) = lex_next(s, i) {
        lemma_number_token_is_json_number(s, i);
        lemma_string_token_is_json_string(s, i);
        lemma_lex_all_ok(s, p);
        let rest = lex_all(s, p);
        assert(lex_all(s, i) == seq![r] + rest);
        assert forall|m: int| 0 <= m < lex_all(s, i).len() implies token_ok(#[trigger] lex_all(s, i)[m]) by {
            if m > 0 {
                assert(lex_all(s, i)[m] == rest[m - 1]);
            }
        }
    }
}

/// Items each well formed are well formed together.
proof fn lemma_items_wf(items: Seq<SpecValue>, n: nat)
    requires
        forall|k: int| n <= k < items.len() ==> well_formed(#[trigger] items[k].kind),
    ensures
        items_well_formed(items, n),
    decreases items.len() - n,
{
    if n < items.len() {
        lemma_items_wf(items, n + 1);
    }
}

/// Members each well formed are well formed together.
proof fn lemma_members_wf(members: Seq<SpecMember>, n: nat)
    requires
        forall|k: int| n <= k < members.len() ==> member_ok(#[trigger] members[k]),
    ensures
        members_well_formed(members, n),
    decreases members.len() - n,
{
    if n < members.len() {
        assert(member_ok(members[n as int]));
        lemma_members_wf(members, n + 1);
    }
}

/// A value read from lexer results that are all [`token_ok`] is well formed.
proof fn lemma_value_wf(t: Seq<SpecTokenResult>, i: int, d: int, m: int)
    requires
        tokens_ok(t),
        0 <= i,
    ensures
        parse_value_at(t, i, d, m) matches Ok((v, _, _)) ==> well_formed(v.kind),
    decreases t.len() - i, 0int,
{
    if i < t.len() {
        assert(token_ok(t[i]));
        if let Ok(tok) = t[i] {
            lemma_array_wf(t, i + 1, d, m, tok.span, Seq::empty(), tok.span);
            lemma_object_wf(t, i + 1, d, m, tok.span, Seq::empty(), tok.span);
        }
    }
}

/// The rest of an array read from lexer results that are all [`token_ok`] is well formed.
proof fn lemma_array_wf(
    t: Seq<SpecTokenResult>,
    i: int,
    d: int,
    m: int,
    begin: CodeSpan,
    items: Seq<SpecValue>,
    last: CodeSpan,
)
    requires
        tokens_ok(t),
        0 <= i,
        forall|k: int| 0 <= k < items.len() ==> well_formed(#[trigger] items[k].kind),
    ensures
        parse_array_rest(t, i, d, m, begin, items, last) matches Ok((v, _, _)) ==> well_formed(v.kind),
    decreases t.len() - i, 1int,
{
    if i < t.len() {
        lemma_items_wf(items, 0);
        let vi = if t[i] matches Ok(tok) && tok.kind == SpecTokenKind::Delimiter(crate::token::Delimiter::Comma) {
            i + 1
        } else {
            i
        };
        lemma_value_wf(t, vi, d + 1, m);
        if let Ok((item, item_last, j)) = parse_value_at(t, vi, d + 1, m) {
            if i < j <= t.len() {
                let items2 = items.push(item);
                assert forall|k: int| 0 <= k < items2.len() implies well_formed(#[trigger] items2[k].kind) by {
                    if k < items.len() {
                        assert(items2[k] == items[k]);
                    }
                }
                lemma_array_wf(t, j, d, m, begin, items2, item_last);
            }
        }
    }
}

/// The rest of an object read from lexer results that are all [`token_ok`] is well formed.
proof fn lemma_object_wf(
    t: Seq<SpecTokenResult>,
    i: int,
    d: int,
    m: int,
    begin: CodeSpan,
    members: Seq<SpecMember>,
    last: CodeSpan,
)
    requires
        tokens_ok(t),
        0 <= i,
        forall|k: int| 0 <= k < members.len() ==> member_ok(#[trigger] members[k]),
    ensures
        parse_object_rest(t, i, d, m, begin, members, last) matches Ok((v, _, _)) ==> well_formed(v.kind),
    decreases t.len() - i, 2int,
{
    if i < t.len() {
        lemma_members_wf(members, 0);
        let mi = if t[i] matches Ok(tok) && tok.kind == SpecTokenKind::Delimiter(crate::token::Delimiter::Comma) {
            i + 1
        } else {
            i
        };
        let after = crate::parser_spec::result_end(t[i]);
        lemma_member_wf(t, mi, d, m, begin, after);
        if let Ok((member, member_last, j)) = parse_member_at(t, mi, d, m, begin, after) {
            if i < j <= t.len() {
                let members2 = members.push(member);
                assert forall|k: int| 0 <= k < members2.len() implies member_ok(#[trigger] members2[k]) by {
                    if k < members.len() {
                        assert(members2[k] == members[k]);
                    }
                }
                lemma_object_wf(t, j, d, m, begin, members2, member_last);
            }
        }
    }
}

/// A member read from lexer results that are all [`token_ok`] is well formed.
proof fn lemma_member_wf(
    t: Seq<SpecTokenResult>,
    i: int,
    d: int,
    m: int,
    begin: CodeSpan,
    after: CodeLocation,
)
    requires
        tokens_ok(t),
        0 <= i,
    ensures
        parse_member_at(t, i, d, m, begin, after) matches Ok((member, _, _)) ==> {
            &&& crate::lexer_laws::is_string_body(member.0.0)
            &&& well_formed(member.1.kind)
        },
    decreases t.len() - i, 1int,
{
    if i < t.len() {
        assert(token_ok(t[i]));
        if i + 2 <= t.len() {
            lemma_value_wf(t, i + 2, d + 1, m);
        }
    }
}

/// Printing a parsed value, on one line or pretty-printed, and parsing the
/// printed text again gives a value alike the first but for its spans, which
/// prints to the same text.
pub proof fn lemma_print_parse_round_trip(s: Seq<char>, mode: ValueDisplayMode, max_depth: int)
    ensures
        parse_tokens(lex_all(s, 0), 0, max_depth).0 matches Ok(v) ==> {
            let printed = render(mode, 0, v.kind);
            &&& parse_tokens(lex_all(printed, 0), 0, max_depth).0 matches Ok(v2) && alike(v2.kind, v.kind)
                && render(mode, 0, v2.kind) == printed
        },
{
    let t = lex_all(s, 0);
    if let Ok(v) = parse_tokens(t, 0, max_depth).0 {
        lemma_lex_all_ok(s, 0);
        lemma_parse_ok(t, max_depth);
        lemma_value_wf(t, 0, 0, max_depth);
        let printed = render(mode, 0, v.kind);
        lemma_printed_text_lexes(mode, v.kind);
        let t2 = lex_all(printed, 0);
        lemma_parse_reads_printed_tokens(t2, v.kind, max_depth);
        let v2 = parse_tokens(t2, 0, max_depth).0->Ok_0;
        lemma_printing_ignores_spans(mode, 0, v2.kind, v.kind);
    }
}

} // verus!
