//! Depth-bounded JSON pretty-printing.
//!
//! The heart of the crate is [`formatter::DepthLimitedFormatter`], a streaming
//! layout state machine: the first `max_depth` levels of nesting are rendered
//! with line breaks and two-space indentation, everything deeper is rendered
//! inline. The formatter reacts only to structural events (enter/leave
//! array, enter/leave map, separators) and never inspects value contents.
//!
//! [`value::JsonValue`] is a tree of scalar atoms, arrays and objects, and
//! [`encode`] walks such a tree, driving the formatter in strict nesting
//! order. [`laws`] proves the layout guarantees: a deep enough budget gives
//! the fully pretty rendering, a zero budget gives a single line, and the
//! depth budget never changes the content, only the whitespace.

pub mod encode;
pub mod formatter;
pub mod laws;
pub mod value;
