//! Printing on one line gives a single line.
use vstd::prelude::*;

use crate::lexer_laws::{is_json_number, is_string_body};
use crate::parser_spec::SpecMember;
use crate::print_lex_laws::{items_well_formed, literal_ok, members_well_formed, well_formed};
use crate::token::{literal_text, SpecLiteral};
use crate::value::{SpecValue, SpecValueKind};
use crate::value_display::{render, render_items, render_members, ValueDisplayMode};

verus! {

/// No character of `s` is a line feed.
pub open spec fn no_line_break(s: Seq<char>) -> bool {
    forall|i: int| 0 <= i < s.len() ==> #[trigger] s[i] != '\n'
}

/// A member whose name and value the lexer reads back.
pub open spec fn member_well_formed(m: SpecMember) -> bool {
    is_string_body(m.0.0) && well_formed(m.1.kind)
}

/// Two texts without line feeds make one without.
proof fn lemma_no_line_break_concat(a: Seq<char>, b: Seq<char>)
    requires
        no_line_break(a),
        no_line_break(b),
    ensures
        no_line_break(a + b),
{
    assert forall|i: int| 0 <= i < (a + b).len() implies #[trigger] (a + b)[i] != '\n' by {
        if i < a.len() {
            assert((a + b)[i] == a[i]);
        } else {
            assert((a + b)[i] == b[i - a.len()]);
        }
    }
}

/// A well-formed string body holds no line feed: line feeds must be escaped.
proof fn lemma_string_body_no_line_break(b: Seq<char>)
    requires
        is_string_body(b),
    ensures
        no_line_break(b),
    decreases b.len(),
{
    if b.len() > 0 {
        if b[0] == '\\' {
            if crate::lexer_spec::is_simple_escape(b[1]) {
                let rest = b.subrange(2, b.len() as int);
                lemma_string_body_no_line_break(rest);
                assert forall|i: int| 0 <= i < b.len() implies #[trigger] b[i] != '\n' by {
                    if i >= 2 {
                        assert(b[i] == rest[i - 2]);
                    }
                }
            } else {
                let rest = b.subrange(6, b.len() as int);
                lemma_string_body_no_line_break(rest);
                assert forall|i: int| 0 <= i < b.len() implies #[trigger] b[i] != '\n' by {
                    if i >= 6 {
                        assert(b[i] == rest[i - 6]);
                    }
                }
            }
        } else {
            let rest = b.subrange(1, b.len() as int);
            lemma_string_body_no_line_break(rest);
            assert forall|i: int| 0 <= i < b.len() implies #[trigger] b[i] != '\n' by {
                if i >= 1 {
                    assert(b[i] == rest[i - 1]);
                }
            }
        }
    }
}

/// A JSON number holds no line feed.
proof fn lemma_number_no_line_break(t: Seq<char>)
    requires
        is_json_number(t),
    ensures
        no_line_break(t),
{
    let (a, b, c) = choose|a: int, b: int, c: int|
        0 <= a <= 1 && a <= b <= c <= t.len() && (a == 1 ==> t[0] == '-') && #[trigger] crate::lexer_laws::is_json_int(
            t.subrange(a, b),
        ) && crate::lexer_laws::is_json_frac(#[trigger] t.subrange(b, c)) && crate::lexer_laws::is_json_exp(
            #[trigger] t.subrange(c, t.len() as int),
        );
    let ip = t.subrange(a, b);
    let fp = t.subrange(b, c);
    let ep = t.subrange(c, t.len() as int);
    assert forall|i: int| 0 <= i < t.len() implies #[trigger] t[i] != '\n' by {
        if i < a {
        } else if i < b {
            assert(ip[i - a] == t[i]);
        } else if i < c {
            assert(fp[i - b] == t[i]);
            if i > b {
                assert(fp.subrange(1, fp.len() as int)[i - b - 1] == t[i]);
            }
        } else {
            assert(ep[i - c] == t[i]);
            if i > c + 1 {
                if ep[1] == '+' || ep[1] == '-' {
                    assert(ep.subrange(2, ep.len() as int)[i - c - 2] == t[i]);
                } else {
                    assert(ep.subrange(1, ep.len() as int)[i - c - 1] == t[i]);
                }
            } else if i == c + 1 {
                if !(ep[1] == '+' || ep[1] == '-') {
                    assert(ep.subrange(1, ep.len() as int)[0] == t[i]);
                }
            }
        }
    }
}

/// The text of a well-formed literal holds no line feed.
proof fn lemma_literal_no_line_break(lit: SpecLiteral)
    requires
        literal_ok(lit),
    ensures
        no_line_break(literal_text(lit)),
{
    match lit {
        SpecLiteral::Number(t) => lemma_number_no_line_break(t),
        SpecLiteral::String(b) => {
            lemma_string_body_no_line_break(b);
            lemma_no_line_break_concat(seq!['"'], b);
            lemma_no_line_break_concat(seq!['"'] + b, seq!['"']);
        },
        _ => {},
    }
}

/// Well-formed items from index `n` on are each well formed.
proof fn lemma_items_each_well_formed(items: Seq<SpecValue>, n: nat)
    requires
        items_well_formed(items, n),
    ensures
        forall|j: int| n <= j < items.len() ==> well_formed(#[trigger] items[j].kind),
    decreases items.len() - n,
{
    if n < items.len() {
        lemma_items_each_well_formed(items, n + 1);
    }
}

/// Well-formed members from index `n` on each have a well-formed name and value.
proof fn lemma_members_each_well_formed(members: Seq<SpecMember>, n: nat)
    requires
        members_well_formed(members, n),
    ensures
        forall|j: int| n <= j < members.len() ==> member_well_formed(#[trigger] members[j]),
    decreases members.len() - n,
{
    if n < members.len() {
        assert(member_well_formed(members[n as int]));
        lemma_members_each_well_formed(members, n + 1);
    }
}

proof fn lemma_kind_one_line(d: nat, k: SpecValueKind)
    requires
        well_formed(k),
    ensures
        no_line_break(render(ValueDisplayMode::ToString, d, k)),
    decreases k, 0nat,
{
    let m = ValueDisplayMode::ToString;
    match k {
        SpecValueKind::Literal(lit) => lemma_literal_no_line_break(lit),
        SpecValueKind::Array(items) => {
            lemma_items_each_well_formed(items, 0);
            lemma_items_one_line(d, items, items.len());
            assert(no_line_break(seq!['[']));
            assert(no_line_break(seq![']']));
            lemma_no_line_break_concat(seq!['['], render_items(m, d, items, items.len()));
            lemma_no_line_break_concat(seq!['['] + render_items(m, d, items, items.len()), seq![']']);
            assert(render(m, d, k) =~= seq!['['] + render_items(m, d, items, items.len()) + seq![']']);
        },
        SpecValueKind::Object(members) => {
            lemma_members_each_well_formed(members, 0);
            lemma_members_one_line(d, members, members.len());
            assert(no_line_break(seq!['{']));
            assert(no_line_break(seq!['}']));
            lemma_no_line_break_concat(seq!['{'], render_members(m, d, members, members.len()));
            lemma_no_line_break_concat(seq!['{'] + render_members(m, d, members, members.len()), seq!['}']);
            assert(render(m, d, k) =~= seq!['{'] + render_members(m, d, members, members.len()) + seq!['}']);
        },
    }
}

proof fn lemma_items_one_line(d: nat, items: Seq<SpecValue>, n: nat)
    requires
        forall|j: int| 0 <= j < items.len() ==> well_formed(#[trigger] items[j].kind),
    ensures
        no_line_break(render_items(ValueDisplayMode::ToString, d, items, n)),
    decreases items, n,
{
    let m = ValueDisplayMode::ToString;
    if n > 0 && n <= items.len() {
        lemma_items_one_line(d, items, (n - 1) as nat);
        lemma_kind_one_line(d + 1, items[n - 1].kind);
        let suf: Seq<char> = if n == items.len() { Seq::empty() } else { seq![',', ' '] };
        assert(no_line_break(suf));
        let prev = render_items(m, d, items, (n - 1) as nat);
        let r = render(m, d + 1, items[n - 1].kind);
        lemma_no_line_break_concat(prev, r);
        lemma_no_line_break_concat(prev + r, suf);
        assert(render_items(m, d, items, n) =~= prev + r + suf);
    }
}

proof fn lemma_members_one_line(d: nat, members: Seq<SpecMember>, n: nat)
    requires
        forall|j: int| 0 <= j < members.len() ==> member_well_formed(#[trigger] members[j]),
    ensures
        no_line_break(render_members(ValueDisplayMode::ToString, d, members, n)),
    decreases members, n,
{
    let m = ValueDisplayMode::ToString;
    if n > 0 && n <= members.len() {
        let member = members[n - 1];
        assert(member_well_formed(member));
        lemma_members_one_line(d, members, (n - 1) as nat);
        lemma_kind_one_line(d + 1, member.1.kind);
        lemma_string_body_no_line_break(member.0.0);
        let suf: Seq<char> = if n == members.len() { Seq::empty() } else { seq![',', ' '] };
        assert(no_line_break(suf));
        assert(no_line_break(seq!['"']));
        assert(no_line_break(seq!['"', ':', ' ']));
        let prev = render_members(m, d, members, (n - 1) as nat);
        let r = render(m, d + 1, member.1.kind);
        lemma_no_line_break_concat(prev, seq!['"']);
        lemma_no_line_break_concat(prev + seq!['"'], member.0.0);
        lemma_no_line_break_concat(prev + seq!['"'] + member.0.0, seq!['"', ':', ' ']);
        lemma_no_line_break_concat(prev + seq!['"'] + member.0.0 + seq!['"', ':', ' '], r);
        lemma_no_line_break_concat(prev + seq!['"'] + member.0.0 + seq!['"', ':', ' '] + r, suf);
        assert(render_members(m, d, members, n) =~= prev + seq!['"'] + member.0.0 + seq![
            '"',
            ':',
            ' ',
        ] + r + suf);
    }
}

/// Printing a well-formed value on one line gives text without any line
/// feed, at every depth.
pub proof fn lemma_one_line_has_no_line_break(d: nat, k: SpecValueKind)
    requires
        well_formed(k),
    ensures
        no_line_break(render(ValueDisplayMode::ToString, d, k)),
{
    lemma_kind_one_line(d, k);
}

/// The characters of `s` that are not JSON whitespace, in order.
pub open spec fn strip_ws(s: Seq<char>) -> Seq<char>
    decreases s.len(),
{
    if s.len() == 0 {
        Seq::empty()
    } else if crate::text::is_ws(s.last()) {
        strip_ws(s.drop_last())
    } else {
        strip_ws(s.drop_last()).push(s.last())
    }
}

/// Stripping whitespace from two texts one after the other.
proof fn lemma_strip_concat(a: Seq<char>, b: Seq<char>)
    ensures
        strip_ws(a + b) == strip_ws(a) + strip_ws(b),
    decreases b.len(),
{
    if b.len() == 0 {
        assert(a + b =~= a);
        assert(strip_ws(a) + strip_ws(b) =~= strip_ws(a));
    } else {
        lemma_strip_concat(a, b.drop_last());
        assert((a + b).drop_last() =~= a + b.drop_last());
        assert((a + b).last() == b.last());
        if !crate::text::is_ws(b.last()) {
            assert(strip_ws(a) + strip_ws(b.drop_last()).push(b.last()) =~= (strip_ws(a) + strip_ws(
                b.drop_last(),
            )).push(b.last()));
        }
    }
}

/// Whitespace strips to nothing.
proof fn lemma_strip_all_ws(s: Seq<char>)
    requires
        forall|i: int| 0 <= i < s.len() ==> crate::text::is_ws(#[trigger] s[i]),
    ensures
        strip_ws(s) == Seq::<char>::empty(),
    decreases s.len(),
{
    if s.len() > 0 {
        assert(crate::text::is_ws(s[s.len() - 1]));
        lemma_strip_all_ws(s.drop_last());
    }
}

/// A single character strips to nothing when it is whitespace, else to itself.
proof fn lemma_strip_one(c: char)
    ensures
        strip_ws(seq![c]) == (if crate::text::is_ws(c) { Seq::<char>::empty() } else { seq![c] }),
{
    assert(seq![c].drop_last() =~= Seq::<char>::empty());
    assert(seq![c].last() == c);
    assert(strip_ws(Seq::<char>::empty()) == Seq::<char>::empty());
    assert(Seq::<char>::empty().push(c) =~= seq![c]);
}

proof fn lemma_strip_indent(mode: ValueDisplayMode, d: nat)
    ensures
        strip_ws(crate::value_display::indent_text(mode, d)) == Seq::<char>::empty(),
{
    lemma_strip_all_ws(crate::value_display::indent_text(mode, d));
}

proof fn lemma_strip_suffix(w: usize, is_last: bool)
    ensures
        strip_ws(crate::value_display::item_suffix_text(ValueDisplayMode::PrettyPrint(w), is_last))
            == strip_ws(crate::value_display::item_suffix_text(ValueDisplayMode::ToString, is_last)),
{
    lemma_strip_one(',');
    lemma_strip_one(' ');
    lemma_strip_one('\n');
    lemma_strip_concat(seq![','], seq!['\n']);
    lemma_strip_concat(seq![','], seq![' ']);
    assert(seq![','] + seq!['\n'] =~= seq![',', '\n']);
    assert(seq![','] + seq![' '] =~= seq![',', ' ']);
    assert(strip_ws(Seq::<char>::empty()) == Seq::<char>::empty());
}

proof fn lemma_kind_strip(w: usize, d1: nat, d2: nat, k: SpecValueKind)
    ensures
        strip_ws(render(ValueDisplayMode::PrettyPrint(w), d1, k)) == strip_ws(
            render(ValueDisplayMode::ToString, d2, k),
        ),
    decreases k, 0nat,
{
    let p = ValueDisplayMode::PrettyPrint(w);
    let o = ValueDisplayMode::ToString;
    match k {
        SpecValueKind::Literal(_) => {},
        SpecValueKind::Array(items) => {
            let n = items.len();
            lemma_items_strip(w, d1, d2, items, n);
            let hp = crate::value_display::header_text(p, '[', n == 0);
            let ho = crate::value_display::header_text(o, '[', n == 0);
            let fp = crate::value_display::footer_text(p, d1, ']', n == 0);
            let fo = crate::value_display::footer_text(o, d2, ']', n == 0);
            lemma_strip_one('[');
            lemma_strip_one(']');
            lemma_strip_one('\n');
            lemma_strip_concat(seq!['['], seq!['\n']);
            assert(seq!['['] + seq!['\n'] =~= seq!['[', '\n']);
            lemma_strip_indent(p, d1);
            lemma_strip_indent(o, d2);
            lemma_strip_concat(crate::value_display::indent_text(p, d1), seq![']']);
            lemma_strip_concat(crate::value_display::indent_text(o, d2), seq![']']);
            assert(strip_ws(hp) == strip_ws(ho));
            assert(strip_ws(fp) == strip_ws(fo));
            let bp = render_items(p, d1, items, n);
            let bo = render_items(o, d2, items, n);
            lemma_strip_concat(hp, bp);
            lemma_strip_concat(hp + bp, fp);
            lemma_strip_concat(ho, bo);
            lemma_strip_concat(ho + bo, fo);
        },
        SpecValueKind::Object(members) => {
            let n = members.len();
            lemma_members_strip(w, d1, d2, members, n);
            let hp = crate::value_display::header_text(p, '{', n == 0);
            let ho = crate::value_display::header_text(o, '{', n == 0);
            let fp = crate::value_display::footer_text(p, d1, '}', n == 0);
            let fo = crate::value_display::footer_text(o, d2, '}', n == 0);
            lemma_strip_one('{');
            lemma_strip_one('}');
            lemma_strip_one('\n');
            lemma_strip_concat(seq!['{'], seq!['\n']);
            assert(seq!['{'] + seq!['\n'] =~= seq!['{', '\n']);
            lemma_strip_indent(p, d1);
            lemma_strip_indent(o, d2);
            lemma_strip_concat(crate::value_display::indent_text(p, d1), seq!['}']);
            lemma_strip_concat(crate::value_display::indent_text(o, d2), seq!['}']);
            assert(strip_ws(hp) == strip_ws(ho));
            assert(strip_ws(fp) == strip_ws(fo));
            let bp = render_members(p, d1, members, n);
            let bo = render_members(o, d2, members, n);
            lemma_strip_concat(hp, bp);
            lemma_strip_concat(hp + bp, fp);
            lemma_strip_concat(ho, bo);
            lemma_strip_concat(ho + bo, fo);
        },
    }
}

proof fn lemma_items_strip(w: usize, d1: nat, d2: nat, items: Seq<SpecValue>, n: nat)
    ensures
        strip_ws(render_items(ValueDisplayMode::PrettyPrint(w), d1, items, n)) == strip_ws(
            render_items(ValueDisplayMode::ToString, d2, items, n),
        ),
    decreases items, n,
{
    let p = ValueDisplayMode::PrettyPrint(w);
    let o = ValueDisplayMode::ToString;
    if n > 0 && n <= items.len() {
        lemma_items_strip(w, d1, d2, items, (n - 1) as nat);
        lemma_kind_strip(w, d1 + 1, d2 + 1, items[n - 1].kind);
        lemma_strip_indent(p, d1 + 1);
        lemma_strip_indent(o, d2 + 1);
        lemma_strip_suffix(w, n == items.len());
        let prev_p = render_items(p, d1, items, (n - 1) as nat);
        let ind_p = crate::value_display::indent_text(p, d1 + 1);
        let r_p = render(p, d1 + 1, items[n - 1].kind);
        let suf_p = crate::value_display::item_suffix_text(p, n == items.len());
        let prev_o = render_items(o, d2, items, (n - 1) as nat);
        let ind_o = crate::value_display::indent_text(o, d2 + 1);
        let r_o = render(o, d2 + 1, items[n - 1].kind);
        let suf_o = crate::value_display::item_suffix_text(o, n == items.len());
        lemma_strip_concat(prev_p, ind_p);
        lemma_strip_concat(prev_p + ind_p, r_p);
        lemma_strip_concat(prev_p + ind_p + r_p, suf_p);
        lemma_strip_concat(prev_o, ind_o);
        lemma_strip_concat(prev_o + ind_o, r_o);
        lemma_strip_concat(prev_o + ind_o + r_o, suf_o);
        assert(strip_ws(prev_p) + Seq::<char>::empty() =~= strip_ws(prev_p));
        assert(strip_ws(prev_o) + Seq::<char>::empty() =~= strip_ws(prev_o));
    }
}

proof fn lemma_members_strip(w: usize, d1: nat, d2: nat, members: Seq<SpecMember>, n: nat)
    ensures
        strip_ws(render_members(ValueDisplayMode::PrettyPrint(w), d1, members, n)) == strip_ws(
            render_members(ValueDisplayMode::ToString, d2, members, n),
        ),
    decreases members, n,
{
    let p = ValueDisplayMode::PrettyPrint(w);
    let o = ValueDisplayMode::ToString;
    if n > 0 && n <= members.len() {
        let member = members[n - 1];
        lemma_members_strip(w, d1, d2, members, (n - 1) as nat);
        lemma_kind_strip(w, d1 + 1, d2 + 1, member.1.kind);
        lemma_strip_indent(p, d1 + 1);
        lemma_strip_indent(o, d2 + 1);
        lemma_strip_suffix(w, n == members.len());
        let q = seq!['"'] + member.0.0 + seq!['"', ':', ' '];
        let prev_p = render_members(p, d1, members, (n - 1) as nat);
        let ind_p = crate::value_display::indent_text(p, d1 + 1);
        let r_p = render(p, d1 + 1, member.1.kind);
        let suf_p = crate::value_display::item_suffix_text(p, n == members.len());
        let prev_o = render_members(o, d2, members, (n - 1) as nat);
        let ind_o = crate::value_display::indent_text(o, d2 + 1);
        let r_o = render(o, d2 + 1, member.1.kind);
        let suf_o = crate::value_display::item_suffix_text(o, n == members.len());
        assert(render_members(p, d1, members, n) =~= prev_p + ind_p + q + r_p + suf_p);
        assert(render_members(o, d2, members, n) =~= prev_o + ind_o + q + r_o + suf_o);
        lemma_strip_concat(prev_p, ind_p);
        lemma_strip_concat(prev_p + ind_p, q);
        lemma_strip_concat(prev_p + ind_p + q, r_p);
        lemma_strip_concat(prev_p + ind_p + q + r_p, suf_p);
        lemma_strip_concat(prev_o, ind_o);
        lemma_strip_concat(prev_o + ind_o, q);
        lemma_strip_concat(prev_o + ind_o + q, r_o);
        lemma_strip_concat(prev_o + ind_o + q + r_o, suf_o);
        assert(strip_ws(prev_p) + Seq::<char>::empty() =~= strip_ws(prev_p));
        assert(strip_ws(prev_o) + Seq::<char>::empty() =~= strip_ws(prev_o));
    }
}

/// Pretty-printing adds only whitespace: with every JSON whitespace character
/// taken out, a value pretty-printed at any width and depth reads the same
/// as the value printed on one line at any depth.
pub proof fn lemma_pretty_print_adds_only_whitespace(
    w: usize,
    d1: nat,
    d2: nat,
    k: SpecValueKind,
)
    ensures
        strip_ws(render(ValueDisplayMode::PrettyPrint(w), d1, k)) == strip_ws(
            render(ValueDisplayMode::ToString, d2, k),
        ),
{
    lemma_kind_strip(w, d1, d2, k);
}

} // verus!
