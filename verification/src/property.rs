//! The property data model and its text encoding.
//!
//! A property is a tagged scalar or a homogeneous array.  Floating-point
//! scalars and arrays carry their decimal text, rendered by the caller under
//! whatever precision policy it chooses; the emitter writes that text
//! verbatim, so the encoding below is exact for every variant.

use vstd::prelude::*;
use vstd::string::StringExecFns;
use crate::text::{
    base64_encode,
    base64_text,
    dec_int,
    dec_nat,
    escape_text,
    ind_text,
    join,
    lemma_join_snoc,
    push_escaped,
    push_i64_dec,
    push_ind,
    push_u64_dec,
};

verus! {

/// A single typed value attached to a node.
#[derive(Debug, Clone)]
pub enum Property {
    /// Boolean scalar, rendered `Y` for true and `T` for false.
    Bool(bool),
    /// 16-bit signed scalar.
    I16(i16),
    /// 32-bit signed scalar.
    I32(i32),
    /// 64-bit signed scalar.
    I64(i64),
    /// Single-precision float scalar, as caller-rendered decimal text.
    F32(String),
    /// Double-precision float scalar, as caller-rendered decimal text.
    F64(String),
    /// Array of booleans.
    VecBool(Vec<bool>),
    /// Array of 32-bit signed integers.
    VecI32(Vec<i32>),
    /// Array of 64-bit signed integers.
    VecI64(Vec<i64>),
    /// Array of single-precision floats, as caller-rendered decimal text.
    VecF32(Vec<String>),
    /// Array of double-precision floats, as caller-rendered decimal text.
    VecF64(Vec<String>),
    /// UTF-8 text scalar, rendered quoted and escaped.
    Text(String),
    /// Opaque binary blob, rendered quoted in base64.
    Binary(Vec<u8>),
}

/// The token for a boolean: `Y` for true, `T` for false.
pub open spec fn bool_token(b: bool) -> Seq<char> {
    if b {
        seq!['Y']
    } else {
        seq!['T']
    }
}

/// An array property: `*<count> {` then, one level deeper, `a: ` and the
/// comma-separated items, then `}` at the depth of the closing node.
pub open spec fn array_text(items: Seq<Seq<char>>, prop_depth: nat) -> Seq<char> {
    seq!['*'] + dec_nat(items.len()) + " {\n"@ + ind_text(prop_depth) + "a: "@ + join(
        items,
        seq![','],
    ) + seq!['\n'] + ind_text((prop_depth - 1) as nat) + seq!['}']
}

/// The exact text encoding of one property at nesting depth `prop_depth`.
pub open spec fn prop_text(p: Property, prop_depth: nat) -> Seq<char> {
    match p {
        Property::Bool(b) => bool_token(b),
        Property::I16(v) => dec_int(v as int),
        Property::I32(v) => dec_int(v as int),
        Property::I64(v) => dec_int(v as int),
        Property::F32(s) => s@,
        Property::F64(s) => s@,
        Property::VecBool(v) => array_text(v@.map_values(|b: bool| bool_token(b)), prop_depth),
        Property::VecI32(v) => array_text(v@.map_values(|x: i32| dec_int(x as int)), prop_depth),
        Property::VecI64(v) => array_text(v@.map_values(|x: i64| dec_int(x as int)), prop_depth),
        Property::VecF32(v) => array_text(v@.map_values(|s: String| s@), prop_depth),
        Property::VecF64(v) => array_text(v@.map_values(|s: String| s@), prop_depth),
        Property::Text(s) => seq!['"'] + escape_text(s@) + seq!['"'],
        Property::Binary(b) => seq!['"'] + base64_text(b@) + seq!['"'],
    }
}

/// The exact text encoding of a property list: items in call order,
/// separated by `, `.
pub open spec fn props_text(props: Seq<Property>, prop_depth: nat) -> Seq<char> {
    join(props.map_values(|p: Property| prop_text(p, prop_depth)), ", "@)
}

/// One joining step: the text after item `i` extends the text before it by
/// the separator (absent before the first item) and that item.
proof fn lemma_join_step(items: Seq<Seq<char>>, sep: Seq<char>, i: int)
    requires
        0 <= i < items.len(),
    ensures
        join(items.take(i + 1), sep) == if i == 0 {
            items[0]
        } else {
            join(items.take(i), sep) + sep + items[i]
        },
{
    if i == 0 {
        assert(items.take(1) =~= seq![items[0]]);
        assert(join(items.take(1), sep) == items[0]);
    } else {
        assert(items.take(i + 1).len() >= 2);
        lemma_join_snoc(items.take(i + 1), sep);
        assert(items.take(i + 1).drop_last() =~= items.take(i));
        assert(items.take(i + 1).last() == items[i]);
    }
}

/// Appends `Y` or `T`.
fn push_bool_token(sink: &mut String, b: bool)
    ensures
        final(sink)@ == old(sink)@ + bool_token(b),
{
    if b {
        sink.append("Y");
    } else {
        sink.append("T");
    }
    proof {
        reveal_strlit("Y");
        reveal_strlit("T");
        assert(sink@ =~= old(sink)@ + bool_token(b));
    }
}

/// Appends the comma-joined boolean tokens of `v`.
fn push_joined_bools(sink: &mut String, v: &Vec<bool>)
    ensures
        final(sink)@ == old(sink)@ + join(v@.map_values(|b: bool| bool_token(b)), seq![',']),
{
    let ghost items = v@.map_values(|b: bool| bool_token(b));
    proof {
        assert(old(sink)@ + join(items.take(0), seq![',']) =~= old(sink)@);
    }
    let mut i: usize = 0;
    while i < v.len()
        invariant
            i <= v@.len(),
            items == v@.map_values(|b: bool| bool_token(b)),
            sink@ == old(sink)@ + join(items.take(i as int), seq![',']),
        decreases v@.len() - i,
    {
        if i > 0 {
            sink.append(",");
        }
        push_bool_token(sink, v[i]);
        proof {
            reveal_strlit(",");
            lemma_join_step(items, seq![','], i as int);
            assert(items[i as int] == bool_token(v@[i as int]));
            assert(sink@ =~= old(sink)@ + join(items.take((i + 1) as int), seq![',']));
        }
        i = i + 1;
    }
    proof {
        assert(items.take(v@.len() as int) =~= items);
    }
}

/// Appends the comma-joined decimal renderings of `v`.
fn push_joined_i32s(sink: &mut String, v: &Vec<i32>)
    ensures
        final(sink)@ == old(sink)@ + join(v@.map_values(|x: i32| dec_int(x as int)), seq![',']),
{
    let ghost items = v@.map_values(|x: i32| dec_int(x as int));
    proof {
        assert(old(sink)@ + join(items.take(0), seq![',']) =~= old(sink)@);
    }
    let mut i: usize = 0;
    while i < v.len()
        invariant
            i <= v@.len(),
            items == v@.map_values(|x: i32| dec_int(x as int)),
            sink@ == old(sink)@ + join(items.take(i as int), seq![',']),
        decreases v@.len() - i,
    {
        if i > 0 {
            sink.append(",");
        }
        push_i64_dec(sink, v[i] as i64);
        proof {
            reveal_strlit(",");
            lemma_join_step(items, seq![','], i as int);
            assert(items[i as int] == dec_int(v@[i as int] as int));
            assert(sink@ =~= old(sink)@ + join(items.take((i + 1) as int), seq![',']));
        }
        i = i + 1;
    }
    proof {
        assert(items.take(v@.len() as int) =~= items);
    }
}

/// Appends the comma-joined decimal renderings of `v`.
fn push_joined_i64s(sink: &mut String, v: &Vec<i64>)
    ensures
        final(sink)@ == old(sink)@ + join(v@.map_values(|x: i64| dec_int(x as int)), seq![',']),
{
    let ghost items = v@.map_values(|x: i64| dec_int(x as int));
    proof {
        assert(old(sink)@ + join(items.take(0), seq![',']) =~= old(sink)@);
    }
    let mut i: usize = 0;
    while i < v.len()
        invariant
            i <= v@.len(),
            items == v@.map_values(|x: i64| dec_int(x as int)),
            sink@ == old(sink)@ + join(items.take(i as int), seq![',']),
        decreases v@.len() - i,
    {
        if i > 0 {
            sink.append(",");
        }
        push_i64_dec(sink, v[i]);
        proof {
            reveal_strlit(",");
            lemma_join_step(items, seq![','], i as int);
            assert(items[i as int] == dec_int(v@[i as int] as int));
            assert(sink@ =~= old(sink)@ + join(items.take((i + 1) as int), seq![',']));
        }
        i = i + 1;
    }
    proof {
        assert(items.take(v@.len() as int) =~= items);
    }
}

/// Appends the comma-joined caller-rendered items of `v`.
fn push_joined_strings(sink: &mut String, v: &Vec<String>)
    ensures
        final(sink)@ == old(sink)@ + join(v@.map_values(|s: String| s@), seq![',']),
{
    let ghost items = v@.map_values(|s: String| s@);
    proof {
        assert(old(sink)@ + join(items.take(0), seq![',']) =~= old(sink)@);
    }
    let mut i: usize = 0;
    while i < v.len()
        invariant
            i <= v@.len(),
            items == v@.map_values(|s: String| s@),
            sink@ == old(sink)@ + join(items.take(i as int), seq![',']),
        decreases v@.len() - i,
    {
        if i > 0 {
            sink.append(",");
        }
        sink.append(v[i].as_str());
        proof {
            reveal_strlit(",");
            lemma_join_step(items, seq![','], i as int);
            assert(items[i as int] == v@[i as int]@);
            assert(sink@ =~= old(sink)@ + join(items.take((i + 1) as int), seq![',']));
        }
        i = i + 1;
    }
    proof {
        assert(items.take(v@.len() as int) =~= items);
    }
}

/// Appends the opening of an array property, through `a: `.
fn push_array_open(sink: &mut String, count: usize, prop_depth: usize)
    requires
        prop_depth >= 1,
    ensures
        final(sink)@ == old(sink)@ + seq!['*'] + dec_nat(count as nat) + " {\n"@ + ind_text(
            prop_depth as nat,
        ) + "a: "@,
{
    sink.append("*");
    push_u64_dec(sink, count as u64);
    sink.append(" {\n");
    push_ind(sink, prop_depth);
    sink.append("a: ");
    proof {
        reveal_strlit("*");
        assert("*"@ =~= seq!['*']);
        assert(sink@ =~= old(sink)@ + seq!['*'] + dec_nat(count as nat) + " {\n"@ + ind_text(
            prop_depth as nat,
        ) + "a: "@);
    }
}

/// Appends the closing of an array property: line break, indent, `}`.
fn push_array_close(sink: &mut String, prop_depth: usize)
    requires
        prop_depth >= 1,
    ensures
        final(sink)@ == old(sink)@ + seq!['\n'] + ind_text((prop_depth - 1) as nat) + seq!['}'],
{
    sink.append("\n");
    push_ind(sink, prop_depth - 1);
    sink.append("}");
    proof {
        reveal_strlit("\n");
        reveal_strlit("}");
        assert("\n"@ =~= seq!['\n']);
        assert("}"@ =~= seq!['}']);
        assert(sink@ =~= old(sink)@ + seq!['\n'] + ind_text((prop_depth - 1) as nat) + seq!['}']);
    }
}

/// Appends the text encoding of one property.
///
/// `prop_depth` is the nesting depth of the property's own line; arrays
/// indent their item line one level deeper.
#[verifier::rlimit(60)]
pub(crate) fn push_property(sink: &mut String, p: &Property, prop_depth: usize)
    requires
        prop_depth >= 1,
    ensures
        final(sink)@ == old(sink)@ + prop_text(*p, prop_depth as nat),
{
    match p {
        Property::Bool(b) => {
            push_bool_token(sink, *b);
        },
        Property::I16(v) => {
            push_i64_dec(sink, *v as i64);
        },
        Property::I32(v) => {
            push_i64_dec(sink, *v as i64);
        },
        Property::I64(v) => {
            push_i64_dec(sink, *v);
        },
        Property::F32(s) => {
            sink.append(s.as_str());
        },
        Property::F64(s) => {
            sink.append(s.as_str());
        },
        Property::VecBool(v) => {
            push_array_open(sink, v.len(), prop_depth);
            push_joined_bools(sink, v);
            push_array_close(sink, prop_depth);
            proof {
                assert(sink@ =~= old(sink)@ + prop_text(*p, prop_depth as nat));
            }
        },
        Property::VecI32(v) => {
            push_array_open(sink, v.len(), prop_depth);
            push_joined_i32s(sink, v);
            push_array_close(sink, prop_depth);
            proof {
                assert(sink@ =~= old(sink)@ + prop_text(*p, prop_depth as nat));
            }
        },
        Property::VecI64(v) => {
            push_array_open(sink, v.len(), prop_depth);
            push_joined_i64s(sink, v);
            push_array_close(sink, prop_depth);
            proof {
                assert(sink@ =~= old(sink)@ + prop_text(*p, prop_depth as nat));
            }
        },
        Property::VecF32(v) => {
            push_array_open(sink, v.len(), prop_depth);
            push_joined_strings(sink, v);
            push_array_close(sink, prop_depth);
            proof {
                assert(sink@ =~= old(sink)@ + prop_text(*p, prop_depth as nat));
            }
        },
        Property::VecF64(v) => {
            push_array_open(sink, v.len(), prop_depth);
            push_joined_strings(sink, v);
            push_array_close(sink, prop_depth);
            proof {
                assert(sink@ =~= old(sink)@ + prop_text(*p, prop_depth as nat));
            }
        },
        Property::Text(s) => {
            sink.append("\"");
            push_escaped(sink, s.as_str());
            sink.append("\"");
            proof {
                reveal_strlit("\"");
                assert("\""@ =~= seq!['"']);
                assert(sink@ =~= old(sink)@ + prop_text(*p, prop_depth as nat));
            }
        },
        Property::Binary(b) => {
            sink.append("\"");
            let encoded: String = base64_encode(b.as_slice());
            sink.append(encoded.as_str());
            sink.append("\"");
            proof {
                reveal_strlit("\"");
                assert("\""@ =~= seq!['"']);
                assert(sink@ =~= old(sink)@ + prop_text(*p, prop_depth as nat));
            }
        },
    }
}

/// Appends the text encoding of a whole property list, `, `-separated.
pub(crate) fn push_properties(sink: &mut String, props: &[Property], prop_depth: usize)
    requires
        prop_depth >= 1,
    ensures
        final(sink)@ == old(sink)@ + props_text(props@, prop_depth as nat),
{
    let ghost items = props@.map_values(|p: Property| prop_text(p, prop_depth as nat));
    proof {
        assert(old(sink)@ + join(items.take(0), ", "@) =~= old(sink)@);
    }
    let mut i: usize = 0;
    while i < props.len()
        invariant
            prop_depth >= 1,
            i <= props@.len(),
            items == props@.map_values(|p: Property| prop_text(p, prop_depth as nat)),
            sink@ == old(sink)@ + join(items.take(i as int), ", "@),
        decreases props@.len() - i,
    {
        if i > 0 {
            sink.append(", ");
        }
        push_property(sink, &props[i], prop_depth);
        proof {
            lemma_join_step(items, ", "@, i as int);
            assert(items[i as int] == prop_text(props@[i as int], prop_depth as nat));
            assert(sink@ =~= old(sink)@ + join(items.take((i + 1) as int), ", "@));
        }
        i = i + 1;
    }
    proof {
        assert(items.take(props@.len() as int) =~= items);
    }
}

} // verus!
