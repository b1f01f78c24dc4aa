//! The depth-bounded layout state machine.
//!
//! A `DepthLimitedFormatter` is driven by a tree walk through structural
//! events: `begin_array`/`end_array`, `begin_object`/`end_object`, and the
//! separator events called before each element or key. Levels nested at most
//! `max_depth` deep are laid out with line breaks and indentation; deeper
//! levels are laid out inline. All bytes go into an append-only byte sink,
//! here a `Vec<u8>`.

use vstd::prelude::*;

verus! {

/// The two-space indentation for `depth` open container levels.
pub open spec fn indent_bytes(depth: nat) -> Seq<u8>
    decreases depth,
{
    if depth == 0 {
        Seq::empty()
    } else {
        indent_bytes((depth - 1) as nat) + seq![32u8, 32u8]
    }
}

/// Whether the innermost level of `stack` is within the pretty budget;
/// false when no level is open.
pub open spec fn stack_top_pretty(stack: Seq<(bool, bool)>) -> bool {
    stack.len() > 0 && stack.last().0
}

/// `stack` with the innermost level marked as having received a value.
pub open spec fn mark_has_value(stack: Seq<(bool, bool)>) -> Seq<(bool, bool)> {
    if stack.len() == 0 {
        stack
    } else {
        stack.update(stack.len() - 1, (stack.last().0, true))
    }
}

/// `stack` with the innermost level removed, if any.
pub open spec fn popped_stack(stack: Seq<(bool, bool)>) -> Seq<(bool, bool)> {
    if stack.len() == 0 {
        stack
    } else {
        stack.drop_last()
    }
}

/// The record reported for a leave event: the innermost level, or the
/// defensive `(false, false)` when no level is open.
pub open spec fn popped_level(stack: Seq<(bool, bool)>) -> (bool, bool) {
    if stack.len() == 0 {
        (false, false)
    } else {
        stack.last()
    }
}

/// Bytes written before each element or key of a container: inside a pretty
/// level a line break and indentation (preceded by a comma after the first
/// entry), inside an inline level a comma and a space after the first entry
/// and nothing before it.
pub open spec fn separator_bytes(pretty: bool, first: bool, depth: nat) -> Seq<u8> {
    if pretty {
        if first {
            seq![10u8] + indent_bytes(depth)
        } else {
            seq![44u8, 10u8] + indent_bytes(depth)
        }
    } else {
        if first {
            Seq::empty()
        } else {
            seq![44u8, 32u8]
        }
    }
}

/// Bytes written for a closing bracket: a pretty level that received a value
/// puts the bracket on a fresh line indented for the enclosing depth; any
/// other level closes immediately.
pub open spec fn close_bytes(level: (bool, bool), depth_after: nat, bracket: u8) -> Seq<u8> {
    if level.0 && level.1 {
        seq![10u8] + indent_bytes(depth_after) + seq![bracket]
    } else {
        seq![bracket]
    }
}

/// Layout state for one formatting run: pretty-print containers nested up to
/// `max_depth` levels, render everything deeper inline.
///
/// One instance serializes one tree; a fresh instance must be built for each
/// run. The per-level bookkeeping lives in an explicit stack so that it
/// survives however the driver organizes its walk.
pub struct DepthLimitedFormatter {
    /// Number of nesting levels rendered with line breaks and indentation.
    pub max_depth: usize,
    /// Number of container levels currently open.
    pub current_depth: usize,
    /// Per-level state, innermost level last: `(is_pretty, has_value)`.
    pub stack: Vec<(bool, bool)>,
}

impl DepthLimitedFormatter {
    /// The stack mirrors the depth counter, and each level recorded whether
    /// it was within the pretty budget when it was pushed: level `i`
    /// (0-based) was pushed when the depth reached `i + 1`.
    pub open spec fn wf(&self) -> bool {
        &&& self.stack@.len() == self.current_depth
        &&& forall|i: int|
            0 <= i < self.stack@.len() ==> (#[trigger] self.stack@[i]).0 == (i + 1
                <= self.max_depth)
    }

    /// A fresh formatter: outside any container, empty stack.
    pub fn new(max_depth: usize) -> (r: Self)
        ensures
            r.wf(),
            r.max_depth == max_depth,
            r.current_depth == 0,
            r.stack@ == Seq::<(bool, bool)>::empty(),
    {
        Self { max_depth, current_depth: 0, stack: Vec::new() }
    }

    /// Writes the indentation for the current depth: two spaces per open level.
    pub fn indent(&self, out: &mut Vec<u8>)
        ensures
            final(out)@ == old(out)@ + indent_bytes(self.current_depth as nat),
    {
        let mut i: usize = 0;
        while i < self.current_depth
            invariant
                i <= self.current_depth,
                out@ == old(out)@ + indent_bytes(i as nat),
            decreases self.current_depth - i,
        {
            out.push(32u8);
            out.push(32u8);
            i = i + 1;
        }
    }

    /// Opens a level: the new level is pretty exactly when the depth it sits
    /// at is within `max_depth`, and it has not seen a value yet.
    pub fn push(&mut self)
        requires
            old(self).wf(),
            old(self).current_depth < usize::MAX,
        ensures
            final(self).wf(),
            final(self).max_depth == old(self).max_depth,
            final(self).current_depth == old(self).current_depth + 1,
            final(self).stack@ == old(self).stack@.push(
                (old(self).current_depth + 1 <= old(self).max_depth, false),
            ),
    {
        self.current_depth = self.current_depth + 1;
        let pretty = self.current_depth <= self.max_depth;
        self.stack.push((pretty, false));
    }

    /// Closes a level and reports its `(is_pretty, has_value)` record. A
    /// leave event without a matching enter (an over-eager driver) is
    /// answered defensively: the depth stays clamped at zero, the state is
    /// untouched, and the level is reported as not pretty with no value.
    pub fn pop(&mut self) -> (r: (bool, bool))
        requires
            old(self).wf(),
        ensures
            final(self).wf(),
            final(self).max_depth == old(self).max_depth,
            old(self).stack@.len() > 0 ==> {
                &&& r == old(self).stack@.last()
                &&& final(self).stack@ == old(self).stack@.drop_last()
                &&& final(self).current_depth == old(self).current_depth - 1
            },
            old(self).stack@.len() == 0 ==> r == (false, false) && final(self).stack@ == old(
                self,
            ).stack@ && final(self).current_depth == old(self).current_depth,
    {
        match self.stack.pop() {
            Some(entry) => {
                self.current_depth = self.current_depth - 1;
                entry
            },
            None => (false, false),
        }
    }

    /// Records that the innermost open level has received a value, so its
    /// closing bracket will be preceded by a line break when it is pretty.
    pub fn set_has_value(&mut self)
        requires
            old(self).wf(),
        ensures
            final(self).wf(),
            final(self).max_depth == old(self).max_depth,
            final(self).current_depth == old(self).current_depth,
            old(self).stack@.len() > 0 ==> final(self).stack@ == old(self).stack@.update(
                old(self).stack@.len() - 1,
                (old(self).stack@.last().0, true),
            ),
            old(self).stack@.len() == 0 ==> final(self).stack@ == old(self).stack@,
    {
        let n = self.stack.len();
        if n > 0 {
            let pretty = self.stack[n - 1].0;
            self.stack[n - 1] = (pretty, true);
        }
    }

    /// Whether the innermost open level is within the pretty budget; outside
    /// any container the answer is no.
    pub fn current_is_pretty(&self) -> (r: bool)
        ensures
            r == (self.stack@.len() > 0 && self.stack@.last().0),
    {
        let n = self.stack.len();
        n > 0 && self.stack[n - 1].0
    }

    /// Enter-array event: opens a level and writes `[`.
    pub fn begin_array(&mut self, out: &mut Vec<u8>)
        requires
            old(self).wf(),
            old(self).current_depth < usize::MAX,
        ensures
            final(self).wf(),
            final(self).max_depth == old(self).max_depth,
            final(self).current_depth == old(self).current_depth + 1,
            final(self).stack@ == old(self).stack@.push(
                (old(self).current_depth + 1 <= old(self).max_depth, false),
            ),
            final(out)@ == old(out)@ + seq![91u8],
    {
        self.push();
        out.push(91u8);
    }

    /// Leave-array event: closes the level and writes `]`, on a fresh
    /// indented line when the level was pretty and received a value.
    pub fn end_array(&mut self, out: &mut Vec<u8>)
        requires
            old(self).wf(),
        ensures
            final(self).wf(),
            final(self).max_depth == old(self).max_depth,
            final(self).stack@ == popped_stack(old(self).stack@),
            final(self).current_depth == popped_stack(old(self).stack@).len(),
            final(out)@ == old(out)@ + close_bytes(
                popped_level(old(self).stack@),
                popped_stack(old(self).stack@).len(),
                93u8,
            ),
    {
        let (pretty, had_value) = self.pop();
        if pretty && had_value {
            out.push(10u8);
            self.indent(out);
        }
        out.push(93u8);
    }

    /// Element-separator event, called before each array element with
    /// whether the element is the first: writes the separator for the
    /// innermost level's layout and records that the level has a value.
    pub fn begin_array_value(&mut self, out: &mut Vec<u8>, first: bool)
        requires
            old(self).wf(),
        ensures
            final(self).wf(),
            final(self).max_depth == old(self).max_depth,
            final(self).current_depth == old(self).current_depth,
            final(self).stack@ == mark_has_value(old(self).stack@),
            final(out)@ == old(out)@ + separator_bytes(
                stack_top_pretty(old(self).stack@),
                first,
                old(self).current_depth as nat,
            ),
    {
        if self.current_is_pretty() {
            if !first {
                out.push(44u8);
            }
            out.push(10u8);
            self.indent(out);
        } else if !first {
            out.push(44u8);
            out.push(32u8);
        }
        self.set_has_value();
    }

    /// Enter-map event: opens a level and writes `{`.
    pub fn begin_object(&mut self, out: &mut Vec<u8>)
        requires
            old(self).wf(),
            old(self).current_depth < usize::MAX,
        ensures
            final(self).wf(),
            final(self).max_depth == old(self).max_depth,
            final(self).current_depth == old(self).current_depth + 1,
            final(self).stack@ == old(self).stack@.push(
                (old(self).current_depth + 1 <= old(self).max_depth, false),
            ),
            final(out)@ == old(out)@ + seq![123u8],
    {
        self.push();
        out.push(123u8);
    }

    /// Leave-map event: closes the level and writes `}`, mirroring
    /// `end_array`.
    pub fn end_object(&mut self, out: &mut Vec<u8>)
        requires
            old(self).wf(),
        ensures
            final(self).wf(),
            final(self).max_depth == old(self).max_depth,
            final(self).stack@ == popped_stack(old(self).stack@),
            final(self).current_depth == popped_stack(old(self).stack@).len(),
            final(out)@ == old(out)@ + close_bytes(
                popped_level(old(self).stack@),
                popped_stack(old(self).stack@).len(),
                125u8,
            ),
    {
        let (pretty, had_value) = self.pop();
        if pretty && had_value {
            out.push(10u8);
            self.indent(out);
        }
        out.push(125u8);
    }

    /// Key-separator event, called before each map key: the same rule as
    /// `begin_array_value`, applied to keys.
    pub fn begin_object_key(&mut self, out: &mut Vec<u8>, first: bool)
        requires
            old(self).wf(),
        ensures
            final(self).wf(),
            final(self).max_depth == old(self).max_depth,
            final(self).current_depth == old(self).current_depth,
            final(self).stack@ == mark_has_value(old(self).stack@),
            final(out)@ == old(out)@ + separator_bytes(
                stack_top_pretty(old(self).stack@),
                first,
                old(self).current_depth as nat,
            ),
    {
        if self.current_is_pretty() {
            if !first {
                out.push(44u8);
            }
            out.push(10u8);
            self.indent(out);
        } else if !first {
            out.push(44u8);
            out.push(32u8);
        }
        self.set_has_value();
    }

    /// Key-value delimiter event, called once per map entry after its key:
    /// always writes `: `, whatever the depth or layout.
    pub fn begin_object_value(&mut self, out: &mut Vec<u8>)
        requires
            old(self).wf(),
        ensures
            final(self).wf(),
            final(self).max_depth == old(self).max_depth,
            final(self).current_depth == old(self).current_depth,
            final(self).stack@ == old(self).stack@,
            final(out)@ == old(out)@ + seq![58u8, 32u8],
    {
        out.push(58u8);
        out.push(32u8);
    }
}

} // verus!
