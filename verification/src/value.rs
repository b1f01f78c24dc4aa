//! The tree-shaped values the encoder walks.
//!
//! A [`JsonValue`] is either a scalar atom (the already-rendered bytes of a
//! JSON scalar, written verbatim), an array of values, or an object of key
//! atom / value entries. The layout machinery never looks inside atoms;
//! the constructors here produce the JSON renderings of the usual scalars,
//! delegating string escaping to `serde_json`.

use vstd::prelude::*;

verus! {

/// A tree-shaped value: a scalar atom, an array, or an object.
pub enum JsonValue {
    /// The rendered bytes of a scalar, emitted verbatim.
    Scalar(Vec<u8>),
    /// An array of values, in order.
    Array(Vec<JsonValue>),
    /// An object: key atom and value for each entry, in order.
    Object(Vec<(Vec<u8>, JsonValue)>),
}

/// No byte of `bytes` is a line feed.
pub open spec fn newline_free(bytes: Seq<u8>) -> bool {
    forall|i: int| 0 <= i < bytes.len() ==> bytes[i] != 10u8
}

/// The nesting depth of a value: scalars sit at depth zero, a container is
/// one deeper than its deepest member.
pub open spec fn depth_of(v: JsonValue) -> nat
    decreases v,
{
    match v {
        JsonValue::Scalar(_) => 0,
        JsonValue::Array(elems) => 1 + depth_of_elems(elems@),
        JsonValue::Object(entries) => 1 + depth_of_entries(entries@),
    }
}

/// The deepest nesting depth among the values of `s`.
pub open spec fn depth_of_elems(s: Seq<JsonValue>) -> nat
    decreases s,
{
    if s.len() == 0 {
        0
    } else if depth_of(s[0]) >= depth_of_elems(s.subrange(1, s.len() as int)) {
        depth_of(s[0])
    } else {
        depth_of_elems(s.subrange(1, s.len() as int))
    }
}

/// The deepest nesting depth among the entry values of `s`.
pub open spec fn depth_of_entries(s: Seq<(Vec<u8>, JsonValue)>) -> nat
    decreases s,
{
    if s.len() == 0 {
        0
    } else if depth_of(s[0].1) >= depth_of_entries(s.subrange(1, s.len() as int)) {
        depth_of(s[0].1)
    } else {
        depth_of_entries(s.subrange(1, s.len() as int))
    }
}

/// Every scalar atom and key atom in the tree is free of line feeds. This
/// holds of every atom the constructors below produce: JSON escapes control
/// characters inside string literals.
pub open spec fn atoms_newline_free(v: JsonValue) -> bool
    decreases v,
{
    match v {
        JsonValue::Scalar(a) => newline_free(a@),
        JsonValue::Array(elems) => elems_newline_free(elems@),
        JsonValue::Object(entries) => entries_newline_free(entries@),
    }
}

/// Every atom under any value of `s` is free of line feeds.
pub open spec fn elems_newline_free(s: Seq<JsonValue>) -> bool
    decreases s,
{
    if s.len() == 0 {
        true
    } else {
        atoms_newline_free(s[0]) && elems_newline_free(s.subrange(1, s.len() as int))
    }
}

/// Every key atom and every atom under any entry value of `s` is free of
/// line feeds.
pub open spec fn entries_newline_free(s: Seq<(Vec<u8>, JsonValue)>) -> bool
    decreases s,
{
    if s.len() == 0 {
        true
    } else {
        newline_free(s[0].0@) && atoms_newline_free(s[0].1) && entries_newline_free(
            s.subrange(1, s.len() as int),
        )
    }
}

/// The atom of the JSON `null` literal.
pub open spec fn null_atom() -> Seq<u8> {
    seq![110u8, 117u8, 108u8, 108u8]
}

/// The atom of a JSON boolean: `true` or `false`.
pub open spec fn bool_atom(b: bool) -> Seq<u8> {
    if b {
        seq![116u8, 114u8, 117u8, 101u8]
    } else {
        seq![102u8, 97u8, 108u8, 115u8, 101u8]
    }
}

/// The decimal digits of `n`, most significant first.
pub open spec fn dec_digits(n: nat) -> Seq<u8>
    decreases n,
{
    if n < 10 {
        seq![(48 + n) as u8]
    } else {
        dec_digits(n / 10) + seq![(48 + n % 10) as u8]
    }
}

/// The atom of a JSON integer: an optional minus sign and decimal digits.
pub open spec fn int_atom(i: int) -> Seq<u8> {
    if i >= 0 {
        dec_digits(i as nat)
    } else {
        seq![45u8] + dec_digits((-i) as nat)
    }
}

/// The quoted, escaped JSON rendering of a string, as `serde_json` writes
/// it.
pub uninterp spec fn json_string_atom(s: Seq<char>) -> Seq<u8>;

/// Relies on `serde_json::to_vec` on a string slice: it writes the quoted,
/// escaped JSON text of the string, escaping every control character (so no
/// raw line feed survives), and for a string it does not fail.
#[verifier::external_body]
fn escaped_string_bytes(s: &str) -> (r: Vec<u8>)
    ensures
        r@ == json_string_atom(s@),
        newline_free(r@),
{
    match serde_json::to_vec(s) {
        Ok(bytes) => bytes,
        // Unreachable: serializing a string into a byte buffer cannot fail.
        Err(_) => Vec::new(),
    }
}

/// Every decimal digit run is free of line feeds.
proof fn lemma_dec_digits_newline_free(n: nat)
    ensures
        newline_free(dec_digits(n)),
    decreases n,
{
    if n >= 10 {
        lemma_dec_digits_newline_free(n / 10);
    }
}

/// Writes the decimal digits of `n` after the bytes already in `out`.
fn push_dec(n: u64, out: &mut Vec<u8>)
    ensures
        final(out)@ == old(out)@ + dec_digits(n as nat),
    decreases n,
{
    if n >= 10 {
        push_dec(n / 10, out);
    }
    out.push(48 + (n % 10) as u8);
}

impl JsonValue {
    /// The JSON `null` scalar.
    pub fn null() -> (r: JsonValue)
        ensures
            (r matches JsonValue::Scalar(a) && a@ == null_atom()),
            atoms_newline_free(r),
            depth_of(r) == 0,
    {
        let mut a: Vec<u8> = Vec::new();
        a.push(110u8);
        a.push(117u8);
        a.push(108u8);
        a.push(108u8);
        proof {
            assert(a@ =~= null_atom());
        }
        JsonValue::Scalar(a)
    }

    /// A JSON boolean scalar.
    pub fn boolean(b: bool) -> (r: JsonValue)
        ensures
            (r matches JsonValue::Scalar(a) && a@ == bool_atom(b)),
            atoms_newline_free(r),
            depth_of(r) == 0,
    {
        let mut a: Vec<u8> = Vec::new();
        if b {
            a.push(116u8);
            a.push(114u8);
            a.push(117u8);
            a.push(101u8);
        } else {
            a.push(102u8);
            a.push(97u8);
            a.push(108u8);
            a.push(115u8);
            a.push(101u8);
        }
        proof {
            assert(a@ =~= bool_atom(b));
        }
        JsonValue::Scalar(a)
    }

    /// A JSON integer scalar, rendered in decimal.
    pub fn integer(i: i64) -> (r: JsonValue)
        ensures
            (r matches JsonValue::Scalar(a) && a@ == int_atom(i as int)),
            atoms_newline_free(r),
            depth_of(r) == 0,
    {
        let mut a: Vec<u8> = Vec::new();
        if i < 0 {
            a.push(45u8);
            // The magnitude of `i`, computed without overflowing at i64::MIN.
            let m: u64 = ((-(i + 1)) as u64) + 1;
            assert(m as int == -(i as int));
            push_dec(m, &mut a);
            proof {
                lemma_dec_digits_newline_free(m as nat);
                assert(a@ =~= int_atom(i as int));
            }
        } else {
            push_dec(i as u64, &mut a);
            proof {
                lemma_dec_digits_newline_free(i as nat);
            }
        }
        JsonValue::Scalar(a)
    }

    /// A JSON string scalar, quoted and escaped.
    pub fn string(s: &str) -> (r: JsonValue)
        ensures
            (r matches JsonValue::Scalar(a) && a@ == json_string_atom(s@)),
            atoms_newline_free(r),
            depth_of(r) == 0,
    {
        JsonValue::Scalar(key_atom(s))
    }
}

/// The quoted, escaped rendering of a string, for use as an object key atom.
pub fn key_atom(s: &str) -> (r: Vec<u8>)
    ensures
        r@ == json_string_atom(s@),
        newline_free(r@),
{
    escaped_string_bytes(s)
}

} // verus!
