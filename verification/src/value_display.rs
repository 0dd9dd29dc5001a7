//! Printing values: on one line, or pretty-printed with indentation.
use vstd::prelude::*;

use crate::code_span::CodeSpan;
use crate::parser_spec::SpecMember;
use crate::text::push_str;
use crate::token::literal_text;
use crate::value::{SpecValue, SpecValueKind, Value, ValueKind};

verus! {

/// How a value is printed.
#[derive(Debug, Clone, Copy, PartialEq, Eq, Structural)]
pub enum ValueDisplayMode {
    /// On one line, items separated by `, `.
    ToString,
    /// One item per line, each level indented by the given number of spaces.
    PrettyPrint(usize),
}

/// `n` spaces.
pub open spec fn spaces(n: nat) -> Seq<char> {
    Seq::new(n, |i: int| ' ')
}

/// The indentation of a line at nesting depth `depth`.
pub open spec fn indent_text(mode: ValueDisplayMode, depth: nat) -> Seq<char> {
    match mode {
        ValueDisplayMode::ToString => Seq::empty(),
        ValueDisplayMode::PrettyPrint(width) => spaces(width as nat * depth),
    }
}

/// The opening bracket of an array or object, with a line break after it
/// when pretty-printing a non-empty one.
pub open spec fn header_text(mode: ValueDisplayMode, ch: char, is_empty: bool) -> Seq<char> {
    if mode is PrettyPrint && !is_empty {
        seq![ch, '\n']
    } else {
        seq![ch]
    }
}

/// What follows an item: a separator unless it is the last one, and a line
/// break when pretty-printing.
pub open spec fn item_suffix_text(mode: ValueDisplayMode, is_last: bool) -> Seq<char> {
    match mode {
        ValueDisplayMode::ToString => if is_last { Seq::empty() } else { seq![',', ' '] },
        ValueDisplayMode::PrettyPrint(_) => if is_last { seq!['\n'] } else { seq![',', '\n'] },
    }
}

/// The closing bracket, indented when the array or object is not empty.
pub open spec fn footer_text(mode: ValueDisplayMode, depth: nat, ch: char, is_empty: bool) -> Seq<
    char,
> {
    if is_empty {
        seq![ch]
    } else {
        indent_text(mode, depth) + seq![ch]
    }
}

/// The text of a value of kind `kind` printed at nesting depth `depth`.
pub open spec fn render(mode: ValueDisplayMode, depth: nat, kind: SpecValueKind) -> Seq<char>
    decreases kind, 0nat,
{
    match kind {
        SpecValueKind::Literal(lit) => literal_text(lit),
        SpecValueKind::Array(items) => header_text(mode, '[', items.len() == 0) + render_items(
            mode,
            depth,
            items,
            items.len(),
        ) + footer_text(mode, depth, ']', items.len() == 0),
        SpecValueKind::Object(members) => header_text(mode, '{', members.len() == 0)
            + render_members(mode, depth, members, members.len()) + footer_text(
            mode,
            depth,
            '}',
            members.len() == 0,
        ),
    }
}

/// The text of the first `n` items of an array printed at depth `depth`.
pub open spec fn render_items(
    mode: ValueDisplayMode,
    depth: nat,
    items: Seq<SpecValue>,
    n: nat,
) -> Seq<char>
    decreases items, n,
{
    if n == 0 || n > items.len() {
        Seq::empty()
    } else {
        render_items(mode, depth, items, (n - 1) as nat) + indent_text(mode, depth + 1) + render(
            mode,
            depth + 1,
            items[n - 1].kind,
        ) + item_suffix_text(mode, n == items.len())
    }
}

/// The text of the first `n` members of an object printed at depth `depth`.
pub open spec fn render_members(
    mode: ValueDisplayMode,
    depth: nat,
    members: Seq<SpecMember>,
    n: nat,
) -> Seq<char>
    decreases members, n,
{
    if n == 0 || n > members.len() {
        Seq::empty()
    } else {
        render_members(mode, depth, members, (n - 1) as nat) + indent_text(mode, depth + 1)
            + seq!['"'] + members[n - 1].0.0 + seq!['"', ':', ' '] + render(
            mode,
            depth + 1,
            members[n - 1].1.kind,
        ) + item_suffix_text(mode, n == members.len())
    }
}

/// How many levels of indentation a value of kind `kind` needs below its own
/// line: none for a literal or an empty array or object, else one more than
/// its deepest item.
pub open spec fn height(kind: SpecValueKind) -> nat
    decreases kind, 0nat,
{
    match kind {
        SpecValueKind::Literal(_) => 0,
        SpecValueKind::Array(items) => if items.len() == 0 {
            0
        } else {
            1 + items_height(items, items.len())
        },
        SpecValueKind::Object(members) => if members.len() == 0 {
            0
        } else {
            1 + members_height(members, members.len())
        },
    }
}

/// The greatest height of the first `n` items.
pub open spec fn items_height(items: Seq<SpecValue>, n: nat) -> nat
    decreases items, n,
{
    if n == 0 || n > items.len() {
        0
    } else {
        let h = height(items[n - 1].kind);
        let rest = items_height(items, (n - 1) as nat);
        if h > rest {
            h
        } else {
            rest
        }
    }
}

/// The greatest height of the values of the first `n` members.
pub open spec fn members_height(members: Seq<SpecMember>, n: nat) -> nat
    decreases members, n,
{
    if n == 0 || n > members.len() {
        0
    } else {
        let h = height(members[n - 1].1.kind);
        let rest = members_height(members, (n - 1) as nat);
        if h > rest {
            h
        } else {
            rest
        }
    }
}

/// No item is taller than the greatest height among the items.
pub proof fn lemma_items_height(items: Seq<SpecValue>, n: nat, j: int)
    requires
        0 <= j < n <= items.len(),
    ensures
        height(items[j].kind) <= items_height(items, n),
    decreases n,
{
    if j < n - 1 {
        lemma_items_height(items, (n - 1) as nat, j);
    }
}

/// No member's value is taller than the greatest height among the members.
pub proof fn lemma_members_height(members: Seq<SpecMember>, n: nat, j: int)
    requires
        0 <= j < n <= members.len(),
    ensures
        height(members[j].1.kind) <= members_height(members, n),
    decreases n,
{
    if j < n - 1 {
        lemma_members_height(members, (n - 1) as nat, j);
    }
}

/// Printing a value of kind `kind` at depth `depth` needs no indentation
/// wider than `usize::MAX` spaces, and no depth beyond `usize::MAX`.
pub open spec fn fits(mode: ValueDisplayMode, depth: nat, kind: SpecValueKind) -> bool {
    &&& depth + height(kind) <= usize::MAX
    &&& match mode {
        ValueDisplayMode::ToString => true,
        ValueDisplayMode::PrettyPrint(width) => width as nat * (depth + height(kind)) <= usize::MAX,
    }
}

/// A depth and height whose sum is no more than one that fits also fit, and
/// so does the indentation of that depth alone.
pub proof fn lemma_fits_smaller(mode: ValueDisplayMode, d1: nat, h1: nat, d2: nat, h2: nat)
    requires
        d1 + h1 <= d2 + h2,
        d2 + h2 <= usize::MAX,
        mode matches ValueDisplayMode::PrettyPrint(w) ==> w as nat * (d2 + h2) <= usize::MAX,
    ensures
        d1 + h1 <= usize::MAX,
        mode matches ValueDisplayMode::PrettyPrint(w) ==> w as nat * (d1 + h1) <= usize::MAX,
        mode matches ValueDisplayMode::PrettyPrint(w) ==> w as nat * d1 <= usize::MAX,
{
    if let ValueDisplayMode::PrettyPrint(w) = mode {
        assert(w as nat * (d1 + h1) <= w as nat * (d2 + h2)) by (nonlinear_arith)
            requires
                d1 + h1 <= d2 + h2,
        ;
        assert(w as nat * d1 <= w as nat * (d1 + h1)) by (nonlinear_arith);
    }
}

/// Pretty-printed indentation at depth `d` with width `w` is exactly `w * d`
/// space characters.
pub proof fn lemma_pretty_indent_is_spaces(w: usize, d: nat)
    ensures
        indent_text(ValueDisplayMode::PrettyPrint(w), d).len() == w as nat * d,
        forall|k: int|
            0 <= k < w as nat * d ==> #[trigger] indent_text(ValueDisplayMode::PrettyPrint(w), d)[k]
                == ' ',
{
}

/// Printing on one line indents nothing at any depth, and separates items by
/// a comma and one space, with nothing after the last item.
pub proof fn lemma_one_line_layout(d: nat)
    ensures
        indent_text(ValueDisplayMode::ToString, d) == Seq::<char>::empty(),
        item_suffix_text(ValueDisplayMode::ToString, false) == seq![',', ' '],
        item_suffix_text(ValueDisplayMode::ToString, true) == Seq::<char>::empty(),
        header_text(ValueDisplayMode::ToString, '[', false) == seq!['['],
        header_text(ValueDisplayMode::ToString, '{', false) == seq!['{'],
{
}

/// A value that needs no indentation (a literal, or an empty array or object)
/// prints the same on one line and pretty-printed, at any width and depth.
pub proof fn lemma_flat_value_prints_alike(kind: SpecValueKind, width: usize, depth: nat)
    requires
        height(kind) == 0,
    ensures
        render(ValueDisplayMode::PrettyPrint(width), depth, kind) == render(
            ValueDisplayMode::ToString,
            depth,
            kind,
        ),
{
}

/// Two value kinds that are the same but for the spans inside them: the same
/// literals, the same member names, in the same order, at every level.
pub open spec fn alike(k1: SpecValueKind, k2: SpecValueKind) -> bool
    decreases k1, 0nat,
{
    match k1 {
        SpecValueKind::Literal(l1) => k2 == SpecValueKind::Literal(l1),
        SpecValueKind::Array(a) => match k2 {
            SpecValueKind::Array(b) => a.len() == b.len() && items_alike(a, b, a.len()),
            _ => false,
        },
        SpecValueKind::Object(a) => match k2 {
            SpecValueKind::Object(b) => a.len() == b.len() && members_alike(a, b, a.len()),
            _ => false,
        },
    }
}

/// The first `n` items of `a` and `b` are alike but for their spans.
pub open spec fn items_alike(a: Seq<SpecValue>, b: Seq<SpecValue>, n: nat) -> bool
    decreases a, n,
{
    if n == 0 || n > a.len() {
        true
    } else {
        items_alike(a, b, (n - 1) as nat) && alike(a[n - 1].kind, b[n - 1].kind)
    }
}

/// The first `n` members of `a` and `b` have the same names and values alike
/// but for their spans.
pub open spec fn members_alike(a: Seq<SpecMember>, b: Seq<SpecMember>, n: nat) -> bool
    decreases a, n,
{
    if n == 0 || n > a.len() {
        true
    } else {
        members_alike(a, b, (n - 1) as nat) && a[n - 1].0.0 == b[n - 1].0.0 && alike(
            a[n - 1].1.kind,
            b[n - 1].1.kind,
        )
    }
}

proof fn lemma_alike_kind(mode: ValueDisplayMode, depth: nat, k1: SpecValueKind, k2: SpecValueKind)
    requires
        alike(k1, k2),
    ensures
        render(mode, depth, k1) == render(mode, depth, k2),
        height(k1) == height(k2),
    decreases k1, 0nat,
{
    match k1 {
        SpecValueKind::Literal(_) => {},
        SpecValueKind::Array(a) => {
            let b = k2->Array_0;
            lemma_alike_items(mode, depth, a, b, a.len());
        },
        SpecValueKind::Object(a) => {
            let b = k2->Object_0;
            lemma_alike_members(mode, depth, a, b, a.len());
        },
    }
}

proof fn lemma_alike_items(
    mode: ValueDisplayMode,
    depth: nat,
    a: Seq<SpecValue>,
    b: Seq<SpecValue>,
    n: nat,
)
    requires
        a.len() == b.len(),
        items_alike(a, b, n),
    ensures
        render_items(mode, depth, a, n) == render_items(mode, depth, b, n),
        items_height(a, n) == items_height(b, n),
    decreases a, n,
{
    if n > 0 && n <= a.len() {
        lemma_alike_items(mode, depth, a, b, (n - 1) as nat);
        lemma_alike_kind(mode, depth + 1, a[n - 1].kind, b[n - 1].kind);
    }
}

proof fn lemma_alike_members(
    mode: ValueDisplayMode,
    depth: nat,
    a: Seq<SpecMember>,
    b: Seq<SpecMember>,
    n: nat,
)
    requires
        a.len() == b.len(),
        members_alike(a, b, n),
    ensures
        render_members(mode, depth, a, n) == render_members(mode, depth, b, n),
        members_height(a, n) == members_height(b, n),
    decreases a, n,
{
    if n > 0 && n <= a.len() {
        lemma_alike_members(mode, depth, a, b, (n - 1) as nat);
        lemma_alike_kind(mode, depth + 1, a[n - 1].1.kind, b[n - 1].1.kind);
    }
}

/// Printing reads no span: two value kinds alike but for their spans print
/// the same text in every mode and at every depth, and need the same
/// indentation, so one fits exactly when the other does.
pub proof fn lemma_printing_ignores_spans(
    mode: ValueDisplayMode,
    depth: nat,
    k1: SpecValueKind,
    k2: SpecValueKind,
)
    requires
        alike(k1, k2),
    ensures
        render(mode, depth, k1) == render(mode, depth, k2),
        height(k1) == height(k2),
        fits(mode, depth, k1) == fits(mode, depth, k2),
{
    lemma_alike_kind(mode, depth, k1, k2);
}

impl ValueDisplayMode {
    /// Displays the opening bracket of an array or object.
    fn disp_header(&self, out: &mut String, ch: char, is_empty: bool)
        ensures
            final(out)@ == old(out)@ + header_text(*self, ch, is_empty),
    {
        out.push(ch);
        if matches!(self, ValueDisplayMode::PrettyPrint(_)) && !is_empty {
            out.push('\n');
        }
        assert(final(out)@ =~= old(out)@ + header_text(*self, ch, is_empty));
    }

    /// Displays the indentation of a line at depth `depth`.
    fn disp_indent(&self, out: &mut String, depth: usize)
        requires
            self matches ValueDisplayMode::PrettyPrint(w) ==> w as nat * depth as nat <= usize::MAX,
        ensures
            final(out)@ == old(out)@ + indent_text(*self, depth as nat),
    {
        if let ValueDisplayMode::PrettyPrint(indent_width) = self {
            let pad_width = *indent_width * depth;
            let mut k: usize = 0;
            while k < pad_width
                invariant
                    k <= pad_width,
                    out@ == old(out)@ + spaces(k as nat),
                decreases pad_width - k,
            {
                out.push(' ');
                k = k + 1;
                assert(out@ =~= old(out)@ + spaces(k as nat));
            }
        } else {
            assert(out@ =~= old(out)@ + indent_text(*self, depth as nat));
        }
    }

    /// Displays what follows an item of an array or object.
    fn disp_item_suffix(&self, out: &mut String, is_last_item: bool)
        ensures
            final(out)@ == old(out)@ + item_suffix_text(*self, is_last_item),
    {
        match self {
            ValueDisplayMode::ToString => {
                if !is_last_item {
                    out.push(',');
                    out.push(' ');
                }
            },
            ValueDisplayMode::PrettyPrint(_) => {
                if !is_last_item {
                    out.push(',');
                    out.push('\n');
                } else {
                    out.push('\n');
                }
            },
        }
        assert(final(out)@ =~= old(out)@ + item_suffix_text(*self, is_last_item));
    }

    /// Displays the closing bracket of an array or object.
    fn disp_footer(&self, out: &mut String, depth: usize, ch: char, is_empty: bool)
        requires
            self matches ValueDisplayMode::PrettyPrint(w) ==> w as nat * depth as nat <= usize::MAX,
        ensures
            final(out)@ == old(out)@ + footer_text(*self, depth as nat, ch, is_empty),
    {
        if !is_empty {
            self.disp_indent(out, depth);
        }
        out.push(ch);
        assert(final(out)@ =~= old(out)@ + footer_text(*self, depth as nat, ch, is_empty));
    }

    /// Displays the items of an array at depth `depth`.
    #[verifier::rlimit(40)]
    fn disp_array(&self, out: &mut String, depth: usize, items: &Vec<Box<Value>>)
        requires
            fits(*self, depth as nat, ValueKind::Array(*items)@),
        ensures
            final(out)@ == old(out)@ + render(*self, depth as nat, ValueKind::Array(*items)@),
        decreases ValueKind::Array(*items), 1nat,
    {
        let ghost kind = ValueKind::Array(*items)@;
        let ghost sitems = kind->Array_0;
        let len = items.len();
        self.disp_header(out, '[', len == 0);
        let ghost start = out@;
        let mut i: usize = 0;
        while i < len
            invariant
                len == items@.len(),
                sitems.len() == len,
                i <= len,
                kind == ValueKind::Array(*items)@,
                sitems == kind->Array_0,
                fits(*self, depth as nat, kind),
                out@ == start + render_items(*self, depth as nat, sitems, i as nat),
            decreases len - i,
        {
            proof {
                lemma_items_height(sitems, len as nat, i as int);
                lemma_fits_smaller(
                    *self,
                    depth as nat + 1,
                    height(sitems[i as int].kind),
                    depth as nat,
                    height(kind),
                );
                assert(sitems[i as int] == (*items@[i as int])@);
                assert(decreases_to!(ValueKind::Array(*items) => ValueKind::Array(*items)->Array_0));
                assert(decreases_to!(ValueKind::Array(*items)->Array_0 => (ValueKind::Array(*items)->Array_0)@));
                assert(decreases_to!((ValueKind::Array(*items)->Array_0)@ => (ValueKind::Array(*items)->Array_0)@[i as int]));
                assert(decreases_to!((ValueKind::Array(*items)->Array_0)@[i as int] => (*(ValueKind::Array(*items)->Array_0)@[i as int]).kind));
            }
            self.disp_indent(out, depth + 1);
            self.disp(out, depth + 1, &items[i].kind);
            self.disp_item_suffix(out, i + 1 == len);
            i = i + 1;
            assert(out@ =~= start + render_items(*self, depth as nat, sitems, i as nat));
        }
        proof {
            if len > 0 {
                lemma_fits_smaller(*self, depth as nat, 0, depth as nat, height(kind));
            }
        }
        self.disp_footer(out, depth, ']', len == 0);
        assert(out@ =~= old(out)@ + render(*self, depth as nat, kind));
    }

    /// Displays the members of an object at depth `depth`.
    #[verifier::rlimit(40)]
    fn disp_object(&self, out: &mut String, depth: usize, members: &Vec<((String, CodeSpan), Box<Value>)>)
        requires
            fits(*self, depth as nat, ValueKind::Object(*members)@),
        ensures
            final(out)@ == old(out)@ + render(*self, depth as nat, ValueKind::Object(*members)@),
        decreases ValueKind::Object(*members), 1nat,
    {
        let ghost kind = ValueKind::Object(*members)@;
        let ghost smembers = kind->Object_0;
        let len = members.len();
        self.disp_header(out, '{', len == 0);
        let ghost start = out@;
        let mut i: usize = 0;
        while i < len
            invariant
                len == members@.len(),
                smembers.len() == len,
                i <= len,
                kind == ValueKind::Object(*members)@,
                smembers == kind->Object_0,
                fits(*self, depth as nat, kind),
                out@ == start + render_members(*self, depth as nat, smembers, i as nat),
            decreases len - i,
        {
            proof {
                lemma_members_height(smembers, len as nat, i as int);
                lemma_fits_smaller(
                    *self,
                    depth as nat + 1,
                    height(smembers[i as int].1.kind),
                    depth as nat,
                    height(kind),
                );
                assert(smembers[i as int].1 == (*members@[i as int].1)@);
                assert(smembers[i as int].0.0 == members@[i as int].0.0@);
                assert(decreases_to!(ValueKind::Object(*members) => ValueKind::Object(*members)->Object_0));
                assert(decreases_to!(ValueKind::Object(*members)->Object_0 => (ValueKind::Object(*members)->Object_0)@));
                assert(decreases_to!((ValueKind::Object(*members)->Object_0)@ => (ValueKind::Object(*members)->Object_0)@[i as int]));
                assert(decreases_to!((ValueKind::Object(*members)->Object_0)@[i as int] => (ValueKind::Object(*members)->Object_0)@[i as int].1));
                assert(decreases_to!((ValueKind::Object(*members)->Object_0)@[i as int].1 => (*(ValueKind::Object(*members)->Object_0)@[i as int].1).kind));
            }
            self.disp_indent(out, depth + 1);
            out.push('"');
            push_str(out, members[i].0.0.as_str());
            out.push('"');
            out.push(':');
            out.push(' ');
            self.disp(out, depth + 1, &members[i].1.kind);
            self.disp_item_suffix(out, i + 1 == len);
            i = i + 1;
            assert(out@ =~= start + render_members(*self, depth as nat, smembers, i as nat));
        }
        proof {
            if len > 0 {
                lemma_fits_smaller(*self, depth as nat, 0, depth as nat, height(kind));
            }
        }
        self.disp_footer(out, depth, '}', len == 0);
        assert(out@ =~= old(out)@ + render(*self, depth as nat, kind));
    }

    /// Displays a value of kind `kind` at depth `depth`.
    fn disp(&self, out: &mut String, depth: usize, kind: &ValueKind)
        requires
            fits(*self, depth as nat, kind@),
        ensures
            final(out)@ == old(out)@ + render(*self, depth as nat, kind@),
        decreases *kind, 2nat,
    {
        match kind {
            ValueKind::Array(items) => self.disp_array(out, depth, items),
            ValueKind::Object(members) => self.disp_object(out, depth, members),
            ValueKind::Literal(lit) => lit.write_to(out),
        }
    }
}


/// The height of `kind` (see [`height`]), or `None` when it does not fit in a `usize`.
fn kind_height(kind: &ValueKind) -> (h: Option<usize>)
    ensures
        h matches Some(n) ==> n == height(kind@),
        h is None ==> height(kind@) > usize::MAX,
    decreases *kind, 2nat,
{
    match kind {
        ValueKind::Array(items) => array_height(items),
        ValueKind::Object(members) => object_height(members),
        ValueKind::Literal(_) => Some(0),
    }
}

/// The height of an array with items `items`, or `None` when it does not fit in a `usize`.
fn array_height(items: &Vec<Box<Value>>) -> (h: Option<usize>)
    ensures
        h matches Some(n) ==> n == height(ValueKind::Array(*items)@),
        h is None ==> height(ValueKind::Array(*items)@) > usize::MAX,
    decreases ValueKind::Array(*items), 1nat,
{
    let ghost kind = ValueKind::Array(*items)@;
    let ghost sitems = kind->Array_0;
    let len = items.len();
    if len == 0 {
        return Some(0);
    }
    let mut best: usize = 0;
    let mut i: usize = 0;
    while i < len
        invariant
            len == items@.len(),
            sitems.len() == len,
            i <= len,
            kind == ValueKind::Array(*items)@,
            sitems == kind->Array_0,
            best == items_height(sitems, i as nat),
        decreases len - i,
    {
        proof {
            assert(sitems[i as int] == (*items@[i as int])@);
            assert(decreases_to!(ValueKind::Array(*items) => ValueKind::Array(*items)->Array_0));
            assert(decreases_to!(ValueKind::Array(*items)->Array_0 => (ValueKind::Array(*items)->Array_0)@));
            assert(decreases_to!((ValueKind::Array(*items)->Array_0)@ => (ValueKind::Array(*items)->Array_0)@[i as int]));
            assert(decreases_to!((ValueKind::Array(*items)->Array_0)@[i as int] => (*(ValueKind::Array(*items)->Array_0)@[i as int]).kind));
        }
        match kind_height(&items[i].kind) {
            None => {
                proof {
                    lemma_items_height(sitems, len as nat, i as int);
                }
                return None;
            },
            Some(h) => {
                if h > best {
                    best = h;
                }
            },
        }
        i = i + 1;
    }
    if best == usize::MAX {
        None
    } else {
        Some(best + 1)
    }
}

/// The height of an object with members `members`, or `None` when it does not fit in a `usize`.
fn object_height(members: &Vec<((String, CodeSpan), Box<Value>)>) -> (h: Option<usize>)
    ensures
        h matches Some(n) ==> n == height(ValueKind::Object(*members)@),
        h is None ==> height(ValueKind::Object(*members)@) > usize::MAX,
    decreases ValueKind::Object(*members), 1nat,
{
    let ghost kind = ValueKind::Object(*members)@;
    let ghost smembers = kind->Object_0;
    let len = members.len();
    if len == 0 {
        return Some(0);
    }
    let mut best: usize = 0;
    let mut i: usize = 0;
    while i < len
        invariant
            len == members@.len(),
            smembers.len() == len,
            i <= len,
            kind == ValueKind::Object(*members)@,
            smembers == kind->Object_0,
            best == members_height(smembers, i as nat),
        decreases len - i,
    {
        proof {
            assert(smembers[i as int].1 == (*members@[i as int].1)@);
            assert(decreases_to!(ValueKind::Object(*members) => ValueKind::Object(*members)->Object_0));
            assert(decreases_to!(ValueKind::Object(*members)->Object_0 => (ValueKind::Object(*members)->Object_0)@));
            assert(decreases_to!((ValueKind::Object(*members)->Object_0)@ => (ValueKind::Object(*members)->Object_0)@[i as int]));
            assert(decreases_to!((ValueKind::Object(*members)->Object_0)@[i as int] => (ValueKind::Object(*members)->Object_0)@[i as int].1));
            assert(decreases_to!((ValueKind::Object(*members)->Object_0)@[i as int].1 => (*(ValueKind::Object(*members)->Object_0)@[i as int].1).kind));
        }
        match kind_height(&members[i].1.kind) {
            None => {
                proof {
                    lemma_members_height(smembers, len as nat, i as int);
                }
                return None;
            },
            Some(h) => {
                if h > best {
                    best = h;
                }
            },
        }
        i = i + 1;
    }
    if best == usize::MAX {
        None
    } else {
        Some(best + 1)
    }
}

/// Helper struct for printing a [`Value`] or a [`ValueKind`].
pub struct ValueDisplay<'a> {
    mode: ValueDisplayMode,
    kind: &'a ValueKind,
}

impl<'a> ValueDisplay<'a> {
    /// How the value is printed.
    pub closed spec fn mode(&self) -> ValueDisplayMode {
        self.mode
    }

    /// The value printed.
    pub closed spec fn kind(&self) -> SpecValueKind {
        self.kind@
    }

    /// Creates a new `ValueDisplay`.
    fn new(mode: ValueDisplayMode, kind: &'a ValueKind) -> (d: Self)
        ensures
            d.mode() == mode,
            d.kind() == kind@,
    {
        ValueDisplay { mode, kind }
    }

    /// The printed text, see [`render`].
    pub fn to_string(&self) -> (s: String)
        requires
            fits(self.mode(), 0, self.kind()),
        ensures
            s@ == render(self.mode(), 0, self.kind()),
    {
        let mut s = String::new();
        self.mode.disp(&mut s, 0, self.kind);
        assert(s@ =~= render(self.mode(), 0, self.kind()));
        s
    }

    /// The printed text, or `None` when the value is nested so deep that its
    /// indentation cannot be counted in a `usize`.
    pub fn checked_to_string(&self) -> (s: Option<String>)
        ensures
            s is Some <==> fits(self.mode(), 0, self.kind()),
            s matches Some(t) ==> t@ == render(self.mode(), 0, self.kind()),
    {
        let h = match kind_height(self.kind) {
            Some(h) => h,
            None => {
                return None;
            },
        };
        if let ValueDisplayMode::PrettyPrint(width) = self.mode {
            if width.checked_mul(h).is_none() {
                return None;
            }
        }
        Some(self.to_string())
    }
}

impl ValueKind {
    /// Pretty-prints the value kind, each level indented by `indent_width` spaces.
    pub fn display(&self, indent_width: usize) -> (d: ValueDisplay<'_>)
        ensures
            d.mode() == ValueDisplayMode::PrettyPrint(indent_width),
            d.kind() == self@,
    {
        ValueDisplay::new(ValueDisplayMode::PrettyPrint(indent_width), self)
    }

    /// Prints the value kind on one line.
    pub fn to_string(&self) -> (s: String)
        requires
            fits(ValueDisplayMode::ToString, 0, self@),
        ensures
            s@ == render(ValueDisplayMode::ToString, 0, self@),
    {
        ValueDisplay::new(ValueDisplayMode::ToString, self).to_string()
    }

    /// Prints the value kind on one line, or gives `None` when it is nested
    /// deeper than a `usize` counts.
    pub fn checked_to_string(&self) -> (s: Option<String>)
        ensures
            s is Some <==> fits(ValueDisplayMode::ToString, 0, self@),
            s matches Some(t) ==> t@ == render(ValueDisplayMode::ToString, 0, self@),
    {
        ValueDisplay::new(ValueDisplayMode::ToString, self).checked_to_string()
    }
}

impl Value {
    /// Pretty-prints the value, each level indented by `indent_width` spaces.
    pub fn display(&self, indent_width: usize) -> (d: ValueDisplay<'_>)
        ensures
            d.mode() == ValueDisplayMode::PrettyPrint(indent_width),
            d.kind() == self@.kind,
    {
        ValueDisplay::new(ValueDisplayMode::PrettyPrint(indent_width), &self.kind)
    }

    /// Prints the value on one line.
    pub fn to_string(&self) -> (s: String)
        requires
            fits(ValueDisplayMode::ToString, 0, self@.kind),
        ensures
            s@ == render(ValueDisplayMode::ToString, 0, self@.kind),
    {
        ValueDisplay::new(ValueDisplayMode::ToString, &self.kind).to_string()
    }

    /// Prints the value on one line, or gives `None` when it is nested
    /// deeper than a `usize` counts.
    pub fn checked_to_string(&self) -> (s: Option<String>)
        ensures
            s is Some <==> fits(ValueDisplayMode::ToString, 0, self@.kind),
            s matches Some(t) ==> t@ == render(ValueDisplayMode::ToString, 0, self@.kind),
    {
        ValueDisplay::new(ValueDisplayMode::ToString, &self.kind).checked_to_string()
    }
}

} // verus!
