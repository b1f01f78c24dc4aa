//! The layout guarantees of the depth-bounded encoding.
//!
//! Three families of facts are proved here about [`encoded`]:
//! a budget at least as deep as the tree gives the canonical fully pretty
//! rendering; a budget the tree has already outgrown (in particular a zero
//! budget) gives the canonical inline rendering, which inserts no line
//! breaks; and whatever the budget, stripping all whitespace from the
//! output leaves the same bytes, so only the layout ever changes with the
//! depth budget, never the content. Empty containers render as bare
//! bracket pairs at every budget.

use vstd::prelude::*;

use crate::encode::encoded;
use crate::encode::encoded_elems;
use crate::encode::encoded_entries;
use crate::encode::lemma_depth_of_elems_ge;
use crate::encode::lemma_depth_of_entries_ge;
use crate::formatter::close_bytes;
use crate::formatter::indent_bytes;
use crate::formatter::separator_bytes;
use crate::value::JsonValue;
use crate::value::atoms_newline_free;
use crate::value::depth_of;
use crate::value::depth_of_elems;
use crate::value::depth_of_entries;
use crate::value::elems_newline_free;
use crate::value::entries_newline_free;
use crate::value::newline_free;

verus! {

// ---------------------------------------------------------------------
// The canonical fully pretty rendering: every level gets line breaks.
// ---------------------------------------------------------------------

/// The fully pretty rendering of `v` below `d` open levels: every
/// container level is laid out with line breaks and indentation.
pub open spec fn pretty_encoded(v: JsonValue, d: nat) -> Seq<u8>
    decreases v,
{
    match v {
        JsonValue::Scalar(a) => a@,
        JsonValue::Array(elems) => seq![91u8] + pretty_elems(elems@, (d + 1) as nat, true)
            + close_bytes((true, elems@.len() > 0), d, 93u8),
        JsonValue::Object(entries) => seq![123u8] + pretty_entries(entries@, (d + 1) as nat, true)
            + close_bytes((true, entries@.len() > 0), d, 125u8),
    }
}

/// The fully pretty rendering of array elements open at depth `d`.
pub open spec fn pretty_elems(s: Seq<JsonValue>, d: nat, first: bool) -> Seq<u8>
    decreases s,
{
    if s.len() == 0 {
        Seq::empty()
    } else {
        separator_bytes(true, first, d) + pretty_encoded(s[0], d) + pretty_elems(
            s.subrange(1, s.len() as int),
            d,
            false,
        )
    }
}

/// The fully pretty rendering of object entries open at depth `d`.
pub open spec fn pretty_entries(s: Seq<(Vec<u8>, JsonValue)>, d: nat, first: bool) -> Seq<u8>
    decreases s,
{
    if s.len() == 0 {
        Seq::empty()
    } else {
        separator_bytes(true, first, d) + s[0].0@ + seq![58u8, 32u8] + pretty_encoded(s[0].1, d)
            + pretty_entries(s.subrange(1, s.len() as int), d, false)
    }
}

/// A budget at least as deep as the tree renders every level pretty:
/// below `d` open levels, a tree of depth `depth_of(v)` with
/// `d + depth_of(v) <= md` encodes to its fully pretty rendering.
pub proof fn lemma_deep_budget_pretty(v: JsonValue, md: nat, d: nat)
    requires
        d + depth_of(v) <= md,
    ensures
        encoded(v, md, d) == pretty_encoded(v, d),
    decreases v,
{
    match v {
        JsonValue::Scalar(_) => {},
        JsonValue::Array(elems) => {
            lemma_deep_budget_pretty_elems(elems@, md, (d + 1) as nat, true);
        },
        JsonValue::Object(entries) => {
            lemma_deep_budget_pretty_entries(entries@, md, (d + 1) as nat, true);
        },
    }
}

proof fn lemma_deep_budget_pretty_elems(s: Seq<JsonValue>, md: nat, d: nat, first: bool)
    requires
        d <= md,
        d + depth_of_elems(s) <= md,
    ensures
        encoded_elems(s, md, d, first) == pretty_elems(s, d, first),
    decreases s,
{
    if s.len() > 0 {
        lemma_depth_of_elems_ge(s, 0);
        lemma_deep_budget_pretty(s[0], md, d);
        assert(depth_of_elems(s.subrange(1, s.len() as int)) <= depth_of_elems(s));
        lemma_deep_budget_pretty_elems(s.subrange(1, s.len() as int), md, d, false);
    }
}

proof fn lemma_deep_budget_pretty_entries(s: Seq<(Vec<u8>, JsonValue)>, md: nat, d: nat, first: bool)
    requires
        d <= md,
        d + depth_of_entries(s) <= md,
    ensures
        encoded_entries(s, md, d, first) == pretty_entries(s, d, first),
    decreases s,
{
    if s.len() > 0 {
        lemma_depth_of_entries_ge(s, 0);
        lemma_deep_budget_pretty(s[0].1, md, d);
        assert(depth_of_entries(s.subrange(1, s.len() as int)) <= depth_of_entries(s));
        lemma_deep_budget_pretty_entries(s.subrange(1, s.len() as int), md, d, false);
    }
}

// ---------------------------------------------------------------------
// The canonical inline rendering: no level gets a line break.
// ---------------------------------------------------------------------

/// The inline rendering of `v`: every container renders on one line, with
/// `, ` between siblings and no other inserted whitespace.
pub open spec fn inline_encoded(v: JsonValue) -> Seq<u8>
    decreases v,
{
    match v {
        JsonValue::Scalar(a) => a@,
        JsonValue::Array(elems) => seq![91u8] + inline_elems(elems@, true) + seq![93u8],
        JsonValue::Object(entries) => seq![123u8] + inline_entries(entries@, true) + seq![125u8],
    }
}

/// The inline rendering of array elements.
pub open spec fn inline_elems(s: Seq<JsonValue>, first: bool) -> Seq<u8>
    decreases s,
{
    if s.len() == 0 {
        Seq::empty()
    } else {
        (if first {
            Seq::empty()
        } else {
            seq![44u8, 32u8]
        }) + inline_encoded(s[0]) + inline_elems(s.subrange(1, s.len() as int), false)
    }
}

/// The inline rendering of object entries.
pub open spec fn inline_entries(s: Seq<(Vec<u8>, JsonValue)>, first: bool) -> Seq<u8>
    decreases s,
{
    if s.len() == 0 {
        Seq::empty()
    } else {
        (if first {
            Seq::empty()
        } else {
            seq![44u8, 32u8]
        }) + s[0].0@ + seq![58u8, 32u8] + inline_encoded(s[0].1) + inline_entries(
            s.subrange(1, s.len() as int),
            false,
        )
    }
}

/// A level the budget has already run out on renders inline, and so does
/// everything below it: with `md <= d`, the encoding below `d` open levels
/// is the inline rendering, whatever `d` is.
pub proof fn lemma_beyond_budget_inline(v: JsonValue, md: nat, d: nat)
    requires
        md <= d,
    ensures
        encoded(v, md, d) == inline_encoded(v),
    decreases v,
{
    match v {
        JsonValue::Scalar(_) => {},
        JsonValue::Array(elems) => {
            lemma_beyond_budget_inline_elems(elems@, md, (d + 1) as nat, true);
        },
        JsonValue::Object(entries) => {
            lemma_beyond_budget_inline_entries(entries@, md, (d + 1) as nat, true);
        },
    }
}

proof fn lemma_beyond_budget_inline_elems(s: Seq<JsonValue>, md: nat, d: nat, first: bool)
    requires
        md < d,
    ensures
        encoded_elems(s, md, d, first) == inline_elems(s, first),
    decreases s,
{
    if s.len() > 0 {
        lemma_beyond_budget_inline(s[0], md, d);
        lemma_beyond_budget_inline_elems(s.subrange(1, s.len() as int), md, d, false);
    }
}

proof fn lemma_beyond_budget_inline_entries(s: Seq<(Vec<u8>, JsonValue)>, md: nat, d: nat, first: bool)
    requires
        md < d,
    ensures
        encoded_entries(s, md, d, first) == inline_entries(s, first),
    decreases s,
{
    if s.len() > 0 {
        lemma_beyond_budget_inline(s[0].1, md, d);
        lemma_beyond_budget_inline_entries(s.subrange(1, s.len() as int), md, d, false);
    }
}

proof fn lemma_newline_free_concat(a: Seq<u8>, b: Seq<u8>)
    requires
        newline_free(a),
        newline_free(b),
    ensures
        newline_free(a + b),
{
    assert forall|i: int| 0 <= i < (a + b).len() implies (a + b)[i] != 10u8 by {
        if i < a.len() {
            assert((a + b)[i] == a[i]);
        } else {
            assert((a + b)[i] == b[i - a.len()]);
        }
    }
}

/// The inline rendering of a tree whose atoms carry no line feed carries no
/// line feed at all.
pub proof fn lemma_inline_newline_free(v: JsonValue)
    requires
        atoms_newline_free(v),
    ensures
        newline_free(inline_encoded(v)),
    decreases v,
{
    match v {
        JsonValue::Scalar(_) => {},
        JsonValue::Array(elems) => {
            lemma_inline_newline_free_elems(elems@, true);
            lemma_newline_free_concat(seq![91u8], inline_elems(elems@, true));
            lemma_newline_free_concat(seq![91u8] + inline_elems(elems@, true), seq![93u8]);
        },
        JsonValue::Object(entries) => {
            lemma_inline_newline_free_entries(entries@, true);
            lemma_newline_free_concat(seq![123u8], inline_entries(entries@, true));
            lemma_newline_free_concat(seq![123u8] + inline_entries(entries@, true), seq![125u8]);
        },
    }
}

proof fn lemma_inline_newline_free_elems(s: Seq<JsonValue>, first: bool)
    requires
        elems_newline_free(s),
    ensures
        newline_free(inline_elems(s, first)),
    decreases s,
{
    if s.len() > 0 {
        let sep: Seq<u8> = if first {
            Seq::empty()
        } else {
            seq![44u8, 32u8]
        };
        lemma_inline_newline_free(s[0]);
        lemma_inline_newline_free_elems(s.subrange(1, s.len() as int), false);
        lemma_newline_free_concat(sep, inline_encoded(s[0]));
        lemma_newline_free_concat(
            sep + inline_encoded(s[0]),
            inline_elems(s.subrange(1, s.len() as int), false),
        );
    }
}

proof fn lemma_inline_newline_free_entries(s: Seq<(Vec<u8>, JsonValue)>, first: bool)
    requires
        entries_newline_free(s),
    ensures
        newline_free(inline_entries(s, first)),
    decreases s,
{
    if s.len() > 0 {
        let sep: Seq<u8> = if first {
            Seq::empty()
        } else {
            seq![44u8, 32u8]
        };
        lemma_inline_newline_free(s[0].1);
        lemma_inline_newline_free_entries(s.subrange(1, s.len() as int), false);
        lemma_newline_free_concat(sep, s[0].0@);
        lemma_newline_free_concat(sep + s[0].0@, seq![58u8, 32u8]);
        lemma_newline_free_concat(sep + s[0].0@ + seq![58u8, 32u8], inline_encoded(s[0].1));
        lemma_newline_free_concat(
            sep + s[0].0@ + seq![58u8, 32u8] + inline_encoded(s[0].1),
            inline_entries(s.subrange(1, s.len() as int), false),
        );
    }
}

/// A zero budget renders everything on a single line: the encoding is the
/// inline rendering, and when the tree's atoms carry no line feed the
/// output carries none either.
pub proof fn lemma_zero_budget_single_line(v: JsonValue)
    ensures
        encoded(v, 0, 0) == inline_encoded(v),
        atoms_newline_free(v) ==> newline_free(encoded(v, 0, 0)),
{
    lemma_beyond_budget_inline(v, 0, 0);
    if atoms_newline_free(v) {
        lemma_inline_newline_free(v);
    }
}

// ---------------------------------------------------------------------
// Content is depth-invariant: only whitespace changes with the budget.
// ---------------------------------------------------------------------

/// Whether `b` is a JSON whitespace byte: space, line feed, tab or
/// carriage return.
pub open spec fn is_json_ws(b: u8) -> bool {
    b == 32u8 || b == 10u8 || b == 9u8 || b == 13u8
}

/// `s` with every JSON whitespace byte removed.
pub open spec fn strip_ws(s: Seq<u8>) -> Seq<u8>
    decreases s,
{
    if s.len() == 0 {
        Seq::empty()
    } else if is_json_ws(s[0]) {
        strip_ws(s.subrange(1, s.len() as int))
    } else {
        seq![s[0]] + strip_ws(s.subrange(1, s.len() as int))
    }
}

proof fn lemma_strip_ws_concat(a: Seq<u8>, b: Seq<u8>)
    ensures
        strip_ws(a + b) == strip_ws(a) + strip_ws(b),
    decreases a.len(),
{
    if a.len() == 0 {
        assert(a + b =~= b);
        assert(strip_ws(a) + strip_ws(b) =~= strip_ws(b));
    } else {
        assert((a + b).subrange(1, (a + b).len() as int) =~= a.subrange(1, a.len() as int) + b);
        assert((a + b)[0] == a[0]);
        lemma_strip_ws_concat(a.subrange(1, a.len() as int), b);
        if !is_json_ws(a[0]) {
            assert(seq![a[0]] + (strip_ws(a.subrange(1, a.len() as int)) + strip_ws(b)) =~= (
            seq![a[0]] + strip_ws(a.subrange(1, a.len() as int))) + strip_ws(b));
        }
    }
}

proof fn lemma_strip_ws_one(b: u8)
    ensures
        strip_ws(seq![b]) == if is_json_ws(b) {
            Seq::<u8>::empty()
        } else {
            seq![b]
        },
{
    assert(seq![b].subrange(1, 1) =~= Seq::<u8>::empty());
    assert(strip_ws(Seq::<u8>::empty()) == Seq::<u8>::empty());
    if !is_json_ws(b) {
        assert(seq![b] + Seq::<u8>::empty() =~= seq![b]);
    }
}

proof fn lemma_strip_ws_indent(d: nat)
    ensures
        strip_ws(indent_bytes(d)) == Seq::<u8>::empty(),
    decreases d,
{
    if d == 0 {
    } else {
        lemma_strip_ws_indent((d - 1) as nat);
        assert(seq![32u8, 32u8] =~= seq![32u8] + seq![32u8]);
        lemma_strip_ws_one(32u8);
        lemma_strip_ws_concat(seq![32u8], seq![32u8]);
        lemma_strip_ws_concat(indent_bytes((d - 1) as nat), seq![32u8, 32u8]);
        assert(strip_ws(indent_bytes(d)) =~= Seq::<u8>::empty());
    }
}

/// Whatever the layout, a separator contributes exactly a comma after the
/// first entry and nothing before it, once whitespace is stripped.
proof fn lemma_strip_ws_separator(pretty: bool, first: bool, d: nat)
    ensures
        strip_ws(separator_bytes(pretty, first, d)) == if first {
            Seq::<u8>::empty()
        } else {
            seq![44u8]
        },
{
    lemma_strip_ws_one(10u8);
    lemma_strip_ws_one(44u8);
    lemma_strip_ws_one(32u8);
    lemma_strip_ws_indent(d);
    if pretty {
        if first {
            lemma_strip_ws_concat(seq![10u8], indent_bytes(d));
        } else {
            assert(seq![44u8, 10u8] =~= seq![44u8] + seq![10u8]);
            lemma_strip_ws_concat(seq![44u8], seq![10u8]);
            lemma_strip_ws_concat(seq![44u8, 10u8], indent_bytes(d));
            assert(strip_ws(separator_bytes(pretty, first, d)) =~= seq![44u8]);
        }
    } else {
        if !first {
            assert(seq![44u8, 32u8] =~= seq![44u8] + seq![32u8]);
            lemma_strip_ws_concat(seq![44u8], seq![32u8]);
            assert(strip_ws(separator_bytes(pretty, first, d)) =~= seq![44u8]);
        }
    }
}

/// Whatever the layout, a closing bracket contributes exactly itself once
/// whitespace is stripped.
proof fn lemma_strip_ws_close(level: (bool, bool), d: nat, bracket: u8)
    requires
        !is_json_ws(bracket),
    ensures
        strip_ws(close_bytes(level, d, bracket)) == seq![bracket],
{
    lemma_strip_ws_one(10u8);
    lemma_strip_ws_one(bracket);
    lemma_strip_ws_indent(d);
    if level.0 && level.1 {
        lemma_strip_ws_concat(seq![10u8], indent_bytes(d));
        lemma_strip_ws_concat(seq![10u8] + indent_bytes(d), seq![bracket]);
        assert(strip_ws(close_bytes(level, d, bracket)) =~= seq![bracket]);
    }
}

/// The whitespace-free content of `v`: atoms stripped of whitespace, a
/// bare comma between siblings, a bare colon after each key.
pub open spec fn stripped(v: JsonValue) -> Seq<u8>
    decreases v,
{
    match v {
        JsonValue::Scalar(a) => strip_ws(a@),
        JsonValue::Array(elems) => seq![91u8] + stripped_elems(elems@, true) + seq![93u8],
        JsonValue::Object(entries) => seq![123u8] + stripped_entries(entries@, true) + seq![125u8],
    }
}

/// The whitespace-free content of array elements.
pub open spec fn stripped_elems(s: Seq<JsonValue>, first: bool) -> Seq<u8>
    decreases s,
{
    if s.len() == 0 {
        Seq::empty()
    } else {
        (if first {
            Seq::empty()
        } else {
            seq![44u8]
        }) + stripped(s[0]) + stripped_elems(s.subrange(1, s.len() as int), false)
    }
}

/// The whitespace-free content of object entries.
pub open spec fn stripped_entries(s: Seq<(Vec<u8>, JsonValue)>, first: bool) -> Seq<u8>
    decreases s,
{
    if s.len() == 0 {
        Seq::empty()
    } else {
        (if first {
            Seq::empty()
        } else {
            seq![44u8]
        }) + strip_ws(s[0].0@) + seq![58u8] + stripped(s[0].1) + stripped_entries(
            s.subrange(1, s.len() as int),
            false,
        )
    }
}

/// Stripping all whitespace from the encoding gives the same bytes at
/// every budget and every surrounding depth: the tree's whitespace-free
/// content.
pub proof fn lemma_strip_encoded(v: JsonValue, md: nat, d: nat)
    ensures
        strip_ws(encoded(v, md, d)) == stripped(v),
    decreases v,
{
    match v {
        JsonValue::Scalar(_) => {},
        JsonValue::Array(elems) => {
            lemma_strip_encoded_elems(elems@, md, (d + 1) as nat, true);
            lemma_strip_ws_one(91u8);
            lemma_strip_ws_close((d + 1 <= md, elems@.len() > 0), d, 93u8);
            lemma_strip_ws_concat(seq![91u8], encoded_elems(elems@, md, (d + 1) as nat, true));
            lemma_strip_ws_concat(
                seq![91u8] + encoded_elems(elems@, md, (d + 1) as nat, true),
                close_bytes((d + 1 <= md, elems@.len() > 0), d, 93u8),
            );
        },
        JsonValue::Object(entries) => {
            lemma_strip_encoded_entries(entries@, md, (d + 1) as nat, true);
            lemma_strip_ws_one(123u8);
            lemma_strip_ws_close((d + 1 <= md, entries@.len() > 0), d, 125u8);
            lemma_strip_ws_concat(
                seq![123u8],
                encoded_entries(entries@, md, (d + 1) as nat, true),
            );
            lemma_strip_ws_concat(
                seq![123u8] + encoded_entries(entries@, md, (d + 1) as nat, true),
                close_bytes((d + 1 <= md, entries@.len() > 0), d, 125u8),
            );
        },
    }
}

proof fn lemma_strip_encoded_elems(s: Seq<JsonValue>, md: nat, d: nat, first: bool)
    ensures
        strip_ws(encoded_elems(s, md, d, first)) == stripped_elems(s, first),
    decreases s,
{
    if s.len() > 0 {
        let rest = s.subrange(1, s.len() as int);
        lemma_strip_encoded(s[0], md, d);
        lemma_strip_encoded_elems(rest, md, d, false);
        lemma_strip_ws_separator(d <= md, first, d);
        lemma_strip_ws_concat(separator_bytes(d <= md, first, d), encoded(s[0], md, d));
        lemma_strip_ws_concat(
            separator_bytes(d <= md, first, d) + encoded(s[0], md, d),
            encoded_elems(rest, md, d, false),
        );
    }
}

proof fn lemma_strip_encoded_entries(s: Seq<(Vec<u8>, JsonValue)>, md: nat, d: nat, first: bool)
    ensures
        strip_ws(encoded_entries(s, md, d, first)) == stripped_entries(s, first),
    decreases s,
{
    if s.len() > 0 {
        let rest = s.subrange(1, s.len() as int);
        let sep = separator_bytes(d <= md, first, d);
        lemma_strip_encoded(s[0].1, md, d);
        lemma_strip_encoded_entries(rest, md, d, false);
        lemma_strip_ws_separator(d <= md, first, d);
        lemma_strip_ws_one(58u8);
        lemma_strip_ws_one(32u8);
        assert(seq![58u8, 32u8] =~= seq![58u8] + seq![32u8]);
        lemma_strip_ws_concat(seq![58u8], seq![32u8]);
        lemma_strip_ws_concat(sep, s[0].0@);
        lemma_strip_ws_concat(sep + s[0].0@, seq![58u8, 32u8]);
        lemma_strip_ws_concat(sep + s[0].0@ + seq![58u8, 32u8], encoded(s[0].1, md, d));
        lemma_strip_ws_concat(
            sep + s[0].0@ + seq![58u8, 32u8] + encoded(s[0].1, md, d),
            encoded_entries(rest, md, d, false),
        );
        assert(strip_ws(encoded_entries(s, md, d, first)) =~= stripped_entries(s, first));
    }
}

/// Only the layout changes with the depth budget, never the content:
/// stripping all whitespace from the output at any budget gives the same
/// bytes as stripping it from the zero-budget output.
pub proof fn lemma_content_depth_invariant(v: JsonValue, md: nat)
    ensures
        strip_ws(encoded(v, md, 0)) == strip_ws(encoded(v, 0, 0)),
{
    lemma_strip_encoded(v, md, 0);
    lemma_strip_encoded(v, 0, 0);
}

// ---------------------------------------------------------------------
// Empty containers.
// ---------------------------------------------------------------------

/// An empty array or empty object renders with no internal whitespace at
/// every budget and every surrounding depth.
pub proof fn lemma_empty_container_compact(v: JsonValue, md: nat, d: nat)
    ensures
        (v matches JsonValue::Array(elems) && elems@.len() == 0) ==> encoded(v, md, d) == seq![
            91u8,
            93u8,
        ],
        (v matches JsonValue::Object(entries) && entries@.len() == 0) ==> encoded(v, md, d)
            == seq![123u8, 125u8],
{
    match v {
        JsonValue::Scalar(_) => {},
        JsonValue::Array(elems) => {
            if elems@.len() == 0 {
                assert(encoded(v, md, d) =~= seq![91u8, 93u8]);
            }
        },
        JsonValue::Object(entries) => {
            if entries@.len() == 0 {
                assert(encoded(v, md, d) =~= seq![123u8, 125u8]);
            }
        },
    }
}

} // verus!
