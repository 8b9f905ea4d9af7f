//! Where values lie that are placed in memory one after the other.

use vstd::prelude::*;

use crate::round::law_round_up;
use crate::round::next_multiple_of;
use crate::round::round_up;

verus! {

/// The size and the alignment of a type.
#[derive(Clone, Copy, Debug, PartialEq, Eq, Structural)]
pub struct Field {
    /// How many bytes a value has.
    pub size: u64,
    /// What the address of a value is a multiple of.
    pub align: u64,
}

/// Where a field begins: at the first multiple of its alignment after the
/// fields before it.
pub open spec fn offset(fields: Seq<Field>, index: int) -> int {
    if index == 0 {
        0
    } else {
        round_up(end(fields, index), fields[index].align as int)
    }
}

/// Where the first `count` fields end.
pub open spec fn end(fields: Seq<Field>, count: int) -> int
    decreases count,
{
    if count <= 0 {
        0
    } else if count == 1 {
        fields[0].size as int
    } else {
        round_up(end(fields, count - 1), fields[count - 1].align as int) + fields[count - 1].size
    }
}

/// The largest alignment of the first `count` fields.
pub open spec fn alignment(fields: Seq<Field>, count: int) -> int
    decreases count,
{
    if count <= 0 {
        1
    } else if alignment(fields, count - 1) < fields[count - 1].align {
        fields[count - 1].align as int
    } else {
        alignment(fields, count - 1)
    }
}

/// How many bytes the fields need, such that copies of them can follow each
/// other.
pub open spec fn total(fields: Seq<Field>) -> int {
    round_up(end(fields, fields.len() as int), alignment(fields, fields.len() as int))
}

/// Whether fields can be laid out: alignments are not zero, and the size is
/// neither zero nor more than an object can have.
pub open spec fn fits(fields: Seq<Field>) -> bool {
    &&& fields.len() > 0
    &&& forall|i: int| 0 <= i < fields.len() ==> (#[trigger] fields[i]).align > 0
    &&& end(fields, fields.len() as int) > 0
    &&& end(fields, fields.len() as int) + alignment(fields, fields.len() as int) - 1 <= i64::MAX
}

proof fn lemma_end_grows(fields: Seq<Field>, from: int, to: int)
    requires
        forall|i: int| 0 <= i < fields.len() ==> (#[trigger] fields[i]).align > 0,
        0 <= from <= to <= fields.len(),
    ensures
        0 <= end(fields, from) <= end(fields, to),
        1 <= alignment(fields, from) <= alignment(fields, to),
    decreases to,
{
    if from < to {
        lemma_end_grows(fields, from, to - 1);
        assert(fields[to - 1].align > 0);
        law_round_up(end(fields, to - 1), fields[to - 1].align as int);
    } else if to > 0 {
        lemma_end_grows(fields, to - 1, to - 1);
        assert(fields[to - 1].align > 0);
        law_round_up(end(fields, to - 1), fields[to - 1].align as int);
    }
}

/// Fields are aligned and do not overlap, and all of them lie within the
/// total, which is a multiple of the largest alignment.
pub proof fn law_fields_do_not_overlap(fields: Seq<Field>, first: int, second: int)
    requires
        fits(fields),
        0 <= first < second < fields.len(),
    ensures
        offset(fields, first) % fields[first].align as int == 0,
        offset(fields, second) % fields[second].align as int == 0,
        offset(fields, first) + fields[first].size <= offset(fields, second),
        offset(fields, second) + fields[second].size <= total(fields),
        total(fields) % alignment(fields, fields.len() as int) == 0,
        fields[first].align <= alignment(fields, fields.len() as int),
        fields[second].align <= alignment(fields, fields.len() as int),
{
    let count = fields.len() as int;
    assert(fields[first].align > 0 && fields[second].align > 0);
    lemma_end_grows(fields, first, first);
    lemma_end_grows(fields, first + 1, second);
    lemma_end_grows(fields, first + 1, count);
    lemma_end_grows(fields, second + 1, count);
    law_round_up(end(fields, first), fields[first].align as int);
    law_round_up(end(fields, second), fields[second].align as int);
    law_round_up(end(fields, count), alignment(fields, count));
}

/// No field lies further on than it has to: the first begins at zero, and each
/// other begins at a multiple of its alignment, less than that alignment after
/// the field before it. The total is a multiple of the largest alignment, less
/// than that alignment after the last field.
pub proof fn law_fields_are_close(fields: Seq<Field>, index: int)
    requires
        fits(fields),
        0 <= index < fields.len(),
    ensures
        offset(fields, 0) == 0,
        index > 0 ==> {
            let before = offset(fields, index - 1) + fields[index - 1].size;
            &&& before <= offset(fields, index) < before + fields[index].align
            &&& offset(fields, index) % fields[index].align as int == 0
        },
        ({
            let last = fields.len() - 1;
            let before = offset(fields, last) + fields[last].size;
            exists|widest: int|
                0 <= widest < fields.len() && {
                    let align = (#[trigger] fields[widest]).align;
                    &&& fields[index].align <= align
                    &&& before <= total(fields) < before + align
                    &&& total(fields) % align as int == 0
                }
        }),
{
    let count = fields.len() as int;
    assert(fields[index].align > 0);
    lemma_end_is(fields, count - 1);
    if index > 0 {
        lemma_end_is(fields, index - 1);
        lemma_end_grows(fields, index, index);
        law_round_up(end(fields, index), fields[index].align as int);
    }
    lemma_end_grows(fields, index + 1, count);
    reveal_with_fuel(alignment, 2);
    let widest = lemma_widest(fields, count);
    law_round_up(end(fields, count), alignment(fields, count));
    assert(fields[widest].align == alignment(fields, count));
}

proof fn lemma_end_is(fields: Seq<Field>, index: int)
    requires
        0 <= index < fields.len(),
    ensures
        end(fields, index + 1) == offset(fields, index) + fields[index].size,
{
}

proof fn lemma_widest(fields: Seq<Field>, count: int) -> (widest: int)
    requires
        0 < count <= fields.len(),
        forall|i: int| 0 <= i < fields.len() ==> (#[trigger] fields[i]).align > 0,
    ensures
        0 <= widest < count,
        fields[widest].align == alignment(fields, count),
        forall|i: int| 0 <= i < count ==> (#[trigger] fields[i]).align <= alignment(fields, count),
    decreases count,
{
    assert(fields[count - 1].align > 0);
    if count == 1 {
        reveal_with_fuel(alignment, 2);
        0
    } else {
        let before = lemma_widest(fields, count - 1);
        if alignment(fields, count - 1) < fields[count - 1].align {
            count - 1
        } else {
            before
        }
    }
}

/// Fields can be laid out exactly if there are some, all have an alignment, they
/// have bytes at all, and the last of them leaves room to round the whole up to
/// the alignment of each within what an object can have.
pub proof fn law_what_fits(fields: Seq<Field>)
    ensures
        fits(fields) <==> {
            let last = fields.len() - 1;
            let end = offset(fields, last) + fields[last].size;
            &&& fields.len() > 0
            &&& end > 0
            &&& forall|i: int|
                0 <= i < fields.len() ==> 0 < (#[trigger] fields[i]).align && end + fields[i].align
                    - 1 <= 0x7fff_ffff_ffff_ffff
        },
{
    if fields.len() > 0 {
        let count = fields.len() as int;
        lemma_end_is(fields, count - 1);
        if forall|i: int| 0 <= i < fields.len() ==> (#[trigger] fields[i]).align > 0 {
            let widest = lemma_widest(fields, count);
            assert(fields[widest].align == alignment(fields, count));
        }
    }
}

/// Whether fields can be laid out.
pub fn can_lay_out(fields: &Vec<Field>) -> (fit: bool)
    ensures
        fit == fits(fields@),
{
    if fields.len() == 0 {
        return false;
    }
    let mut k: usize = 0;
    while k < fields.len()
        invariant
            k <= fields@.len(),
            forall|i: int| 0 <= i < k ==> (#[trigger] fields@[i]).align > 0,
        decreases fields@.len() - k,
    {
        if fields[k].align == 0 {
            return false;
        }
        k = k + 1;
    }
    let bound: u64 = 0x7fff_ffff_ffff_ffff;
    let mut size: u64 = 0;
    let mut align: u64 = 1;
    let mut i: usize = 0;
    while i < fields.len()
        invariant
            0 < fields@.len(),
            i <= fields@.len(),
            forall|j: int| 0 <= j < fields@.len() ==> (#[trigger] fields@[j]).align > 0,
            bound == i64::MAX,
            size <= bound,
            align <= bound,
            size == end(fields@, i as int),
            align == alignment(fields@, i as int),
        decreases fields@.len() - i,
    {
        let field: Field = fields[i];
        proof {
            lemma_end_grows(fields@, i as int, i as int);
            lemma_end_grows(fields@, i + 1, fields@.len() as int);
            assert(fields@[i as int].align > 0);
            law_round_up(size as int, field.align as int);
        }
        if field.align > bound || field.size > bound {
            return false;
        }
        let offset: u64 = if i == 0 {
            0
        } else {
            next_multiple_of(size, field.align)
        };
        if offset > bound - field.size {
            return false;
        }
        size = offset + field.size;
        if align < field.align {
            align = field.align;
        }
        i = i + 1;
    }
    size > 0 && size <= bound - (align - 1)
}

/// Lays fields out one after the other. Returns the size that they need, and
/// where each begins.
pub fn layout(fields: &Vec<Field>) -> (result: (u64, Vec<u64>))
    requires
        fits(fields@),
    ensures
        result.0 == total(fields@),
        result.0 > 0,
        result.1@.len() == fields@.len(),
        forall|i: int|
            0 <= i < fields@.len() ==> #[trigger] result.1@[i] == offset(fields@, i),
{
    let mut offsets: Vec<u64> = Vec::new();
    offsets.push(0);
    let mut size: u64 = fields[0].size;
    let mut align: u64 = fields[0].align;
    let mut i: usize = 1;
    proof {
        assert(fields@[0].align > 0);
        lemma_end_grows(fields@, 1, fields@.len() as int);
        reveal_with_fuel(alignment, 2);
    }
    while i < fields.len()
        invariant
            fits(fields@),
            1 <= i <= fields@.len(),
            size == end(fields@, i as int),
            align == alignment(fields@, i as int),
            offsets@.len() == i,
            forall|j: int| 0 <= j < i ==> #[trigger] offsets@[j] == offset(fields@, j),
        decreases fields@.len() - i,
    {
        let field: Field = fields[i];
        proof {
            assert(fields@[i as int].align > 0);
            lemma_end_grows(fields@, i as int, i as int);
            lemma_end_grows(fields@, i + 1, fields@.len() as int);
            law_round_up(size as int, field.align as int);
        }
        let offset: u64 = next_multiple_of(size, field.align);
        offsets.push(offset);
        size = offset + field.size;
        if align < field.align {
            align = field.align;
        }
        i = i + 1;
    }
    proof {
        lemma_end_grows(fields@, i as int, i as int);
        law_round_up(size as int, align as int);
    }
    (next_multiple_of(size, align), offsets)
}

} // verus!
