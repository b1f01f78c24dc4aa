//! The tree walk that drives the formatter.
//!
//! [`encode_value`] walks a [`JsonValue`] depth-first and invokes the
//! formatter's structural events in strict nesting order, writing scalar
//! and key atoms itself, exactly as a generic serialization driver would.
//! The spec function [`encoded`] states the bytes this produces, and
//! [`encode`] packages one whole formatting run.

use vstd::prelude::*;

use crate::formatter::DepthLimitedFormatter;
use crate::formatter::close_bytes;
use crate::formatter::mark_has_value;
use crate::formatter::popped_level;
use crate::formatter::popped_stack;
use crate::formatter::separator_bytes;
use crate::formatter::stack_top_pretty;
use crate::value::JsonValue;
use crate::value::depth_of;
use crate::value::depth_of_elems;
use crate::value::depth_of_entries;

verus! {

/// The bytes emitted for `v` when levels nested at most `md` deep are
/// pretty and `d` container levels are already open around `v`.
pub open spec fn encoded(v: JsonValue, md: nat, d: nat) -> Seq<u8>
    decreases v,
{
    match v {
        JsonValue::Scalar(a) => a@,
        JsonValue::Array(elems) => seq![91u8] + encoded_elems(elems@, md, (d + 1) as nat, true)
            + close_bytes((d + 1 <= md, elems@.len() > 0), d, 93u8),
        JsonValue::Object(entries) => seq![123u8] + encoded_entries(
            entries@,
            md,
            (d + 1) as nat,
            true,
        ) + close_bytes((d + 1 <= md, entries@.len() > 0), d, 125u8),
    }
}

/// The bytes for the elements of an array open at depth `d`: before each
/// element a separator (`first` tells whether it is the array's first
/// element overall), then the element itself.
pub open spec fn encoded_elems(s: Seq<JsonValue>, md: nat, d: nat, first: bool) -> Seq<u8>
    decreases s,
{
    if s.len() == 0 {
        Seq::empty()
    } else {
        separator_bytes(d <= md, first, d) + encoded(s[0], md, d) + encoded_elems(
            s.subrange(1, s.len() as int),
            md,
            d,
            false,
        )
    }
}

/// The bytes for the entries of an object open at depth `d`: before each
/// entry a separator, then the key atom, the `: ` delimiter, and the value.
pub open spec fn encoded_entries(
    s: Seq<(Vec<u8>, JsonValue)>,
    md: nat,
    d: nat,
    first: bool,
) -> Seq<u8>
    decreases s,
{
    if s.len() == 0 {
        Seq::empty()
    } else {
        separator_bytes(d <= md, first, d) + s[0].0@ + seq![58u8, 32u8] + encoded(s[0].1, md, d)
            + encoded_entries(s.subrange(1, s.len() as int), md, d, false)
    }
}

/// No element of `s` nests deeper than the whole sequence.
pub(crate) proof fn lemma_depth_of_elems_ge(s: Seq<JsonValue>, i: int)
    requires
        0 <= i < s.len(),
    ensures
        depth_of(s[i]) <= depth_of_elems(s),
    decreases s.len(),
{
    if i > 0 {
        lemma_depth_of_elems_ge(s.subrange(1, s.len() as int), i - 1);
        assert(s.subrange(1, s.len() as int)[i - 1] == s[i]);
    }
}

/// No entry value of `s` nests deeper than the whole sequence.
pub(crate) proof fn lemma_depth_of_entries_ge(s: Seq<(Vec<u8>, JsonValue)>, i: int)
    requires
        0 <= i < s.len(),
    ensures
        depth_of(s[i].1) <= depth_of_entries(s),
    decreases s.len(),
{
    if i > 0 {
        lemma_depth_of_entries_ge(s.subrange(1, s.len() as int), i - 1);
        assert(s.subrange(1, s.len() as int)[i - 1] == s[i]);
    }
}

/// Appends all of `bytes` to `out`.
fn push_bytes(out: &mut Vec<u8>, bytes: &Vec<u8>)
    ensures
        final(out)@ == old(out)@ + bytes@,
{
    let n = bytes.len();
    let mut i: usize = 0;
    while i < n
        invariant
            i <= n,
            n == bytes@.len(),
            out@ == old(out)@ + bytes@.subrange(0, i as int),
        decreases n - i,
    {
        out.push(bytes[i]);
        proof {
            assert(bytes@.subrange(0, i + 1) =~= bytes@.subrange(0, i as int).push(bytes@[
                i as int
            ]));
        }
        i = i + 1;
    }
    proof {
        assert(bytes@.subrange(0, n as int) =~= bytes@);
    }
}

/// Walks `v` depth-first, driving `fmt` through its structural events in
/// strict nesting order and writing every atom itself. The formatter comes
/// back exactly as it went in, and the sink has grown by the depth-bounded
/// rendering of `v` at the formatter's current depth.
#[verifier::rlimit(50)]
pub fn encode_value(fmt: &mut DepthLimitedFormatter, v: &JsonValue, out: &mut Vec<u8>)
    requires
        old(fmt).wf(),
        old(fmt).current_depth + depth_of(*v) <= usize::MAX,
    ensures
        final(fmt).wf(),
        final(fmt).max_depth == old(fmt).max_depth,
        final(fmt).current_depth == old(fmt).current_depth,
        final(fmt).stack@ == old(fmt).stack@,
        final(out)@ == old(out)@ + encoded(
            *v,
            old(fmt).max_depth as nat,
            old(fmt).current_depth as nat,
        ),
    decreases *v,
{
    let ghost md: nat = old(fmt).max_depth as nat;
    let ghost d: nat = old(fmt).current_depth as nat;
    match v {
        JsonValue::Scalar(a) => {
            push_bytes(out, a);
        },
        JsonValue::Array(elems) => {
            let ghost pretty = old(fmt).current_depth + 1 <= old(fmt).max_depth;
            fmt.begin_array(out);
            let n = elems.len();
            proof {
                assert(elems@.subrange(0, n as int) =~= elems@);
            }
            let mut i: usize = 0;
            while i < n
                invariant
                    i <= n,
                    n == elems@.len(),
                    *v == JsonValue::Array(*elems),
                    md == old(fmt).max_depth as nat,
                    d == old(fmt).current_depth as nat,
                    pretty == (d + 1 <= md),
                    fmt.wf(),
                    fmt.max_depth == old(fmt).max_depth,
                    fmt.current_depth == old(fmt).current_depth + 1,
                    fmt.stack@ == old(fmt).stack@.push((pretty, i > 0)),
                    old(fmt).current_depth + 1 + depth_of_elems(elems@) <= usize::MAX,
                    out@ + encoded_elems(
                        elems@.subrange(i as int, n as int),
                        md,
                        (d + 1) as nat,
                        i == 0,
                    ) == old(out)@ + seq![91u8] + encoded_elems(elems@, md, (d + 1) as nat, true),
                decreases n - i,
            {
                let ghost stack_before = fmt.stack@;
                let ghost first = i == 0;
                let ghost out_start = out@;
                fmt.begin_array_value(out, i == 0);
                proof {
                    assert(stack_top_pretty(stack_before) == pretty);
                    assert(mark_has_value(stack_before) =~= old(fmt).stack@.push((pretty, true)));
                    lemma_depth_of_elems_ge(elems@, i as int);
                    assert(decreases_to!(*v => v->Array_0));
                    assert(v->Array_0 == *elems);
                    assert(decreases_to!(*elems => elems@));
                    assert(decreases_to!(elems@ => elems@[i as int]));
                    assert(decreases_to!(*v => elems@[i as int]));
                }
                encode_value(fmt, &elems[i], out);
                proof {
                    let sepb = separator_bytes(d + 1 <= md, first, (d + 1) as nat);
                    let encb = encoded(elems@[i as int], md, (d + 1) as nat);
                    let rest = encoded_elems(
                        elems@.subrange(i + 1, n as int),
                        md,
                        (d + 1) as nat,
                        false,
                    );
                    let suffix = elems@.subrange(i as int, n as int);
                    assert(suffix[0] == elems@[i as int]);
                    assert(suffix.subrange(1, suffix.len() as int) =~= elems@.subrange(
                        i + 1,
                        n as int,
                    ));
                    assert(encoded_elems(suffix, md, (d + 1) as nat, first) == sepb + encb + rest);
                    assert(out@ == out_start + sepb + encb);
                    assert(out@ + rest =~= out_start + encoded_elems(
                        suffix,
                        md,
                        (d + 1) as nat,
                        first,
                    ));
                    assert(out@ + rest == old(out)@ + seq![91u8] + encoded_elems(
                        elems@,
                        md,
                        (d + 1) as nat,
                        true,
                    ));
                }
                i = i + 1;
            }
            proof {
                assert(elems@.subrange(n as int, n as int) =~= Seq::<JsonValue>::empty());
                assert(encoded_elems(Seq::empty(), md, (d + 1) as nat, n == 0) == Seq::<
                    u8,
                >::empty());
                assert(out@ == old(out)@ + seq![91u8] + encoded_elems(
                    elems@,
                    md,
                    (d + 1) as nat,
                    true,
                ));
            }
            let ghost stack_full = fmt.stack@;
            fmt.end_array(out);
            proof {
                assert(popped_level(stack_full) == (pretty, n > 0));
                assert(popped_stack(stack_full) =~= old(fmt).stack@);
                assert(out@ == old(out)@ + encoded(*v, md, d));
            }
        },
        JsonValue::Object(entries) => {
            let ghost pretty = old(fmt).current_depth + 1 <= old(fmt).max_depth;
            fmt.begin_object(out);
            let n = entries.len();
            proof {
                assert(entries@.subrange(0, n as int) =~= entries@);
            }
            let mut i: usize = 0;
            while i < n
                invariant
                    i <= n,
                    n == entries@.len(),
                    *v == JsonValue::Object(*entries),
                    md == old(fmt).max_depth as nat,
                    d == old(fmt).current_depth as nat,
                    pretty == (d + 1 <= md),
                    fmt.wf(),
                    fmt.max_depth == old(fmt).max_depth,
                    fmt.current_depth == old(fmt).current_depth + 1,
                    fmt.stack@ == old(fmt).stack@.push((pretty, i > 0)),
                    old(fmt).current_depth + 1 + depth_of_entries(entries@) <= usize::MAX,
                    out@ + encoded_entries(
                        entries@.subrange(i as int, n as int),
                        md,
                        (d + 1) as nat,
                        i == 0,
                    ) == old(out)@ + seq![123u8] + encoded_entries(
                        entries@,
                        md,
                        (d + 1) as nat,
                        true,
                    ),
                decreases n - i,
            {
                let ghost stack_before = fmt.stack@;
                let ghost first = i == 0;
                let ghost out_start = out@;
                fmt.begin_object_key(out, i == 0);
                proof {
                    assert(stack_top_pretty(stack_before) == pretty);
                    assert(mark_has_value(stack_before) =~= old(fmt).stack@.push((pretty, true)));
                    lemma_depth_of_entries_ge(entries@, i as int);
                    assert(decreases_to!(*v => v->Object_0));
                    assert(v->Object_0 == *entries);
                    assert(decreases_to!(*entries => entries@));
                    assert(decreases_to!(entries@ => entries@[i as int]));
                    assert(decreases_to!(entries@[i as int] => entries@[i as int].1));
                    assert(decreases_to!(*v => entries@[i as int].1));
                }
                let entry = &entries[i];
                push_bytes(out, &entry.0);
                fmt.begin_object_value(out);
                encode_value(fmt, &entry.1, out);
                proof {
                    let sepb = separator_bytes(d + 1 <= md, first, (d + 1) as nat);
                    let keyb = entries@[i as int].0@;
                    let encb = encoded(entries@[i as int].1, md, (d + 1) as nat);
                    let rest = encoded_entries(
                        entries@.subrange(i + 1, n as int),
                        md,
                        (d + 1) as nat,
                        false,
                    );
                    let suffix = entries@.subrange(i as int, n as int);
                    assert(suffix[0] == entries@[i as int]);
                    assert(suffix.subrange(1, suffix.len() as int) =~= entries@.subrange(
                        i + 1,
                        n as int,
                    ));
                    assert(encoded_entries(suffix, md, (d + 1) as nat, first) == sepb + keyb
                        + seq![58u8, 32u8] + encb + rest);
                    assert(out@ == out_start + sepb + keyb + seq![58u8, 32u8] + encb);
                    assert(out@ + rest =~= out_start + encoded_entries(
                        suffix,
                        md,
                        (d + 1) as nat,
                        first,
                    ));
                    assert(out@ + rest == old(out)@ + seq![123u8] + encoded_entries(
                        entries@,
                        md,
                        (d + 1) as nat,
                        true,
                    ));
                }
                i = i + 1;
            }
            proof {
                assert(entries@.subrange(n as int, n as int) =~= Seq::<
                    (Vec<u8>, JsonValue),
                >::empty());
                assert(encoded_entries(Seq::empty(), md, (d + 1) as nat, n == 0) == Seq::<
                    u8,
                >::empty());
                assert(out@ == old(out)@ + seq![123u8] + encoded_entries(
                    entries@,
                    md,
                    (d + 1) as nat,
                    true,
                ));
            }
            let ghost stack_full = fmt.stack@;
            fmt.end_object(out);
            proof {
                assert(popped_level(stack_full) == (pretty, n > 0));
                assert(popped_stack(stack_full) =~= old(fmt).stack@);
                assert(out@ == old(out)@ + encoded(*v, md, d));
            }
        },
    }
}

/// One whole formatting run: a fresh formatter with the given pretty budget
/// walks `v` and the complete rendering comes back.
pub fn encode(v: &JsonValue, max_depth: usize) -> (r: Vec<u8>)
    requires
        depth_of(*v) <= usize::MAX,
    ensures
        r@ == encoded(*v, max_depth as nat, 0),
    {
    let mut fmt = DepthLimitedFormatter::new(max_depth);
    let mut out: Vec<u8> = Vec::new();
    encode_value(&mut fmt, v, &mut out);
    out
}

} // verus!
