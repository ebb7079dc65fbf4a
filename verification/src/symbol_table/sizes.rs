//! Memory sizes of data types.
use crate::text::{float_text, integer_text, is_float_text, is_integer_text, is_string_text, string_text};
use vstd::prelude::*;

verus! {

/// The size of an address, which is what arrays and strings take when passed around.
pub const ADDR_SIZE: usize = 4;

/// Whether `data_type` is one of the primitive types, whose size is known.
pub open spec fn is_primitive(data_type: Seq<char>) -> bool {
    data_type == integer_text() || data_type == float_text() || data_type == string_text()
}

/// The size of one value of the primitive type `data_type`.
pub open spec fn base_size(data_type: Seq<char>) -> nat {
    if data_type == string_text() {
        ADDR_SIZE as nat
    } else {
        4
    }
}

/// The size of an array of `base` sized values with `dimensions`, each dimension taken
/// as a `usize`.
pub open spec fn size_product(base: nat, dimensions: Seq<i64>) -> nat
    decreases dimensions.len(),
{
    if dimensions.len() == 0 {
        base
    } else {
        size_product(base, dimensions.drop_last()) * ((dimensions.last() as usize) as nat)
    }
}

/// Every partial product of the size fits in a `usize`.
pub open spec fn size_fits(base: nat, dimensions: Seq<i64>) -> bool
    decreases dimensions.len(),
{
    &&& size_product(base, dimensions) <= usize::MAX
    &&& (dimensions.len() > 0 ==> size_fits(base, dimensions.drop_last()))
}

/// The size of a parameter of `data_type`: its value's size, or an address for an array.
pub fn size_of_optional(data_type: &str, dimensions: &Vec<Option<i64>>) -> (r: usize)
    requires
        dimensions.len() == 0 ==> is_primitive(data_type@),
    ensures
        r == if dimensions.len() == 0 {
            base_size(data_type@)
        } else {
            ADDR_SIZE as nat
        },
{
    if dimensions.len() == 0 {
        return base_size_of(data_type);
    } else {
        return ADDR_SIZE;
    }
}

/// The size of a value of `data_type` with `dimensions`.
pub fn size_of(data_type: &str, dimensions: &Vec<i64>) -> (r: usize)
    requires
        is_primitive(data_type@),
        size_fits(base_size(data_type@), dimensions@),
    ensures
        r == size_product(base_size(data_type@), dimensions@),
{
    let ghost base = base_size(data_type@);
    let mut size = base_size_of(data_type);
    let mut i: usize = 0;
    assert(dimensions@.take(0) =~= Seq::<i64>::empty());
    while i < dimensions.len()
        invariant
            i <= dimensions.len(),
            base == base_size(data_type@),
            size_fits(base, dimensions@),
            size == size_product(base, dimensions@.take(i as int)),
        decreases dimensions.len() - i,
    {
        assert(dimensions@.take(i + 1).drop_last() =~= dimensions@.take(i as int));
        proof {
            lemma_size_fits_prefix(base, dimensions@, i + 1);
        }
        size = size * (dimensions[i] as usize);
        i += 1;
    }
    assert(dimensions@.take(i as int) =~= dimensions@);
    size
}

/// The partial products of a fitting size fit.
proof fn lemma_size_fits_prefix(base: nat, dimensions: Seq<i64>, k: int)
    requires
        size_fits(base, dimensions),
        0 <= k <= dimensions.len(),
    ensures
        size_fits(base, dimensions.take(k)),
    decreases dimensions.len(),
{
    if k < dimensions.len() {
        assert(dimensions.drop_last().take(k) =~= dimensions.take(k));
        lemma_size_fits_prefix(base, dimensions.drop_last(), k);
    } else {
        assert(dimensions.take(k) =~= dimensions);
    }
}

/// The size of one value of the primitive type `data_type`.
fn base_size_of(data_type: &str) -> (r: usize)
    requires
        is_primitive(data_type@),
    ensures
        r == base_size(data_type@),
{
    if is_integer_text(data_type) {
        4
    } else if is_float_text(data_type) {
        4
    } else {
        assert(data_type@ == string_text());
        ADDR_SIZE
    }
}

} // verus!
