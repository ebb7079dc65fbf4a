//! Text of types with array dimensions.
use crate::text::{decimal, push_char, push_signed, push_str};
use vstd::prelude::*;

verus! {

/// A data type followed by its dimensions, as in `integer[5][4]`.
pub open spec fn type_text(data_type: Seq<char>, dimensions: Seq<i64>) -> Seq<char>
    decreases dimensions.len(),
{
    if dimensions.len() == 0 {
        data_type
    } else {
        type_text(data_type, dimensions.drop_last()) + seq!['['] + decimal(dimensions.last() as int) + seq![']']
    }
}

/// A data type followed by its dimensions, an unspecified dimension written `[]`, as
/// in `integer[][4]`.
pub open spec fn parameter_type_text(data_type: Seq<char>, dimensions: Seq<Option<i64>>) -> Seq<char>
    decreases dimensions.len(),
{
    if dimensions.len() == 0 {
        data_type
    } else {
        parameter_type_text(data_type, dimensions.drop_last()) + match dimensions.last() {
            Some(d) => seq!['['] + decimal(d as int) + seq![']'],
            None => seq!['[', ']'],
        }
    }
}

/// The type signature of `data_type` with `dimensions`, as in `integer[5][4]`.
pub fn type_string(data_type: &str, dimensions: &[i64]) -> (r: String)
    ensures
        r@ == type_text(data_type@, dimensions@),
{
    let mut result = String::new();
    push_str(&mut result, data_type);
    let mut i: usize = 0;
    assert(result@ =~= type_text(data_type@, dimensions@.take(0)));
    while i < dimensions.len()
        invariant
            i <= dimensions.len(),
            result@ == type_text(data_type@, dimensions@.take(i as int)),
        decreases dimensions.len() - i,
    {
        let ghost before = result@;
        push_char(&mut result, '[');
        push_signed(&mut result, dimensions[i]);
        push_char(&mut result, ']');
        assert(dimensions@.take(i + 1).drop_last() =~= dimensions@.take(i as int));
        assert(result@ =~= before + seq!['['] + decimal(dimensions@[i as int] as int) + seq![']']);
        i += 1;
    }
    assert(dimensions@.take(i as int) =~= dimensions@);
    result
}

/// The type signature of a parameter of `data_type` with `dimensions`, where a
/// dimension may be left unspecified, as in `integer[][4]`.
pub fn parameter_type_string(data_type: &str, dimensions: &[Option<i64>]) -> (r: String)
    ensures
        r@ == parameter_type_text(data_type@, dimensions@),
{
    let mut result = String::new();
    push_str(&mut result, data_type);
    let mut i: usize = 0;
    assert(result@ =~= parameter_type_text(data_type@, dimensions@.take(0)));
    while i < dimensions.len()
        invariant
            i <= dimensions.len(),
            result@ == parameter_type_text(data_type@, dimensions@.take(i as int)),
        decreases dimensions.len() - i,
    {
        let ghost before = result@;
        match dimensions[i] {
            Some(d) => {
                push_char(&mut result, '[');
                push_signed(&mut result, d);
                push_char(&mut result, ']');
                assert(result@ =~= before + (seq!['['] + decimal(d as int) + seq![']']));
            },
            None => {
                push_char(&mut result, '[');
                push_char(&mut result, ']');
                assert(result@ =~= before + seq!['[', ']']);
            },
        }
        assert(dimensions@.take(i + 1).drop_last() =~= dimensions@.take(i as int));
        i += 1;
    }
    assert(dimensions@.take(i as int) =~= dimensions@);
    result
}

} // verus!
