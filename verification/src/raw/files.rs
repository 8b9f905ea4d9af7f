//! Files behind the regions of a backing store.

use vstd::prelude::*;

use crate::raw::id::joined;
use crate::raw::id::Id;
use crate::raw::region::Sequential;
use crate::raw::setup::law_regions_are_as_planned;
use crate::raw::setup::lemma_suffixes;
use crate::raw::setup::Plan;
use crate::raw::setup::Setup;
use crate::raw::setup::SetupStep;
use crate::raw::setup::REGIONS;
use crate::raw::AnyRegion;
use crate::raw::Raw;
use crate::text::digits;
use crate::text::is_digit;
use crate::text::is_number;
use crate::text::is_number_from;
use crate::text::law_numbers_are_digits;
use crate::text::starts_with;

verus! {

/// The files that a region can have behind it. Which of them exist is known to
/// the backend alone.
#[derive(Clone, Copy, Debug)]
pub enum Files {
    /// One file with this name.
    One(Id),
    /// Files with this name, a dash and the number of an extent.
    Extents(Id),
    /// Files with this name, a dash and an offset in base sixteen after `0x`.
    Offsets(Id),
}

impl Files {
    /// Whether a file is one of them.
    pub open spec fn has(&self, name: Seq<char>) -> bool {
        match self {
            Files::One(id) => name == id@,
            Files::Extents(id) => exists|index: nat|
                name == joined(id@, #[trigger] digits(index, 10)),
            Files::Offsets(id) => exists|offset: nat|
                name == joined(id@, seq!['0', 'x'] + #[trigger] digits(offset, 16)),
        }
    }

    /// Whether a file is one of them.
    pub fn contains(&self, name: &str) -> (contained: bool)
        ensures
            contained <==> self.has(name@),
    {
        match self {
            Files::One(id) => {
                let text: &str = id.as_str();
                proof {
                    if text@.is_prefix_of(name@) && name@.len() == text@.len() {
                        assert(name@ =~= text@);
                    }
                    assert(text@ == name@ ==> text@.is_prefix_of(name@));
                }
                starts_with(name, text) && name.unicode_len() == text.unicode_len()
            },
            Files::Extents(id) => {
                let text: &str = id.as_str();
                proof {
                    lemma_suffix(name@, text@, seq![], 10);
                    assert forall|index: nat| joined(text@, seq![] + digits(index, 10)) == joined(
                        text@,
                        #[trigger] digits(index, 10),
                    ) by {
                        assert(seq![] + digits(index, 10) =~= digits(index, 10));
                    }
                }
                let len: usize = text.unicode_len();
                starts_with(name, text) && len < name.unicode_len() && name.get_char(len) == '-'
                    && is_number_from(name, len + 1, 10)
            },
            Files::Offsets(id) => {
                let text: &str = id.as_str();
                proof {
                    lemma_suffix(name@, text@, seq!['0', 'x'], 16);
                }
                let len: usize = text.unicode_len();
                starts_with(name, text) && name.unicode_len() - len > 2 && name.get_char(len)
                    == '-' && name.get_char(len + 1) == '0' && name.get_char(len + 2) == 'x'
                    && is_number_from(name, len + 3, 16)
            },
        }
    }
}

proof fn lemma_suffix(name: Seq<char>, text: Seq<char>, prefix: Seq<char>, base: nat)
    requires
        2 <= base <= 16,
    ensures
        (exists|number: nat| name == joined(text, prefix + #[trigger] digits(number, base))) <==> {
            let start = text.len() + 1 + prefix.len();
            &&& text.is_prefix_of(name)
            &&& start <= name.len()
            &&& name[text.len() as int] == '-'
            &&& forall|i: int|
                0 <= i < prefix.len() ==> #[trigger] prefix[i] == name[text.len() + 1 + i]
            &&& is_number(name.skip(start as int), base)
        },
{
    let start = text.len() + 1 + prefix.len();
    if exists|number: nat| name == joined(text, prefix + #[trigger] digits(number, base)) {
        let number = choose|number: nat|
            name == joined(text, prefix + #[trigger] digits(number, base));
        assert(text =~= name.subrange(0, text.len() as int));
        assert(name.skip(start as int) =~= digits(number, base));
    }
    if text.is_prefix_of(name) && start <= name.len() && name[text.len() as int] == '-' && (
    forall|i: int| 0 <= i < prefix.len() ==> #[trigger] prefix[i] == name[text.len() + 1 + i])
        && is_number(name.skip(start as int), base) {
        let rest = name.skip(start as int);
        let number = choose|number: nat| #[trigger] digits(number, base) == rest;
        let whole = joined(text, prefix + rest);
        assert(whole.len() == name.len());
        assert forall|i: int| 0 <= i < name.len() implies whole[i] == name[i] by {
            if i < text.len() {
                assert(text[i] == name.subrange(0, text.len() as int)[i]);
            } else if i > text.len() && i < start {
                assert(prefix[i - text.len() - 1] == name[i]);
            }
        }
        assert(name =~= whole);
        assert(name == joined(text, prefix + digits(number, base)));
    }
}

impl Raw {
    /// The files that are removed with the store: none, or those of all regions
    /// that have files.
    pub open spec fn removals_spec(&self) -> Seq<Files> {
        if self.free {
            seq![
                Files::One(self.owned.id),
                Files::Extents(self.local_small.id),
                Files::Extents(self.local_large.id),
                Files::Extents(self.remote_small.id),
                Files::Extents(self.remote_large.id),
                Files::Extents(self.data_small.id),
                Files::Extents(self.data_large.id),
                Files::Offsets(self.data_huge.id),
            ]
        } else {
            seq![]
        }
    }

    /// The files that are removed with the store, once all of it is unmapped:
    /// none, unless the store frees what it used. The memory that the device
    /// operates on has no file of its own.
    pub fn removals(&self) -> (files: Vec<Files>)
        ensures
            files@ == self.removals_spec(),
    {
        let mut files: Vec<Files> = Vec::new();
        if self.free {
            files.push(Files::One(self.owned.id));
            files.push(Files::Extents(self.local_small.id));
            files.push(Files::Extents(self.local_large.id));
            files.push(Files::Extents(self.remote_small.id));
            files.push(Files::Extents(self.remote_large.id));
            files.push(Files::Extents(self.data_small.id));
            files.push(Files::Extents(self.data_large.id));
            files.push(Files::Offsets(self.data_huge.id));
        }
        files
    }

    /// Whether a file is removed with the store.
    pub open spec fn frees(&self, name: Seq<char>) -> bool {
        exists|i: int|
            0 <= i < self.removals_spec().len() && (#[trigger] self.removals_spec()[i]).has(name)
    }

    /// Picks those files that are removed with the store, in their order.
    pub fn free_files(&self, names: Vec<String>) -> (freed: Vec<String>)
        ensures
            freed@.map_values(|name: String| name@) == names@.map_values(
                |name: String| name@,
            ).filter(|name: Seq<char>| self.frees(name)),
    {
        let removals: Vec<Files> = self.removals();
        let ghost all = names@.map_values(|name: String| name@);
        let ghost wanted = |name: Seq<char>| self.frees(name);
        let mut freed: Vec<String> = Vec::new();
        let mut i: usize = 0;
        assert(freed@.map_values(|name: String| name@) =~= all.take(0).filter(wanted)) by {
            reveal(Seq::filter);
        }
        while i < names.len()
            invariant
                i <= names@.len(),
                removals@ == self.removals_spec(),
                all == names@.map_values(|name: String| name@),
                wanted == (|name: Seq<char>| self.frees(name)),
                freed@.map_values(|name: String| name@) == all.take(i as int).filter(wanted),
            decreases names@.len() - i,
        {
            let name: &str = names[i].as_str();
            let mut found: bool = false;
            let mut j: usize = 0;
            while j < removals.len()
                invariant
                    j <= removals@.len(),
                    removals@ == self.removals_spec(),
                    found <==> exists|k: int|
                        0 <= k < j && (#[trigger] self.removals_spec()[k]).has(name@),
                decreases removals@.len() - j,
            {
                if removals[j].contains(name) {
                    found = true;
                }
                j = j + 1;
            }
            let ghost before = freed@;
            if found {
                freed.push(String::from_str(name));
            }
            proof {
                assert(found == self.frees(name@));
                reveal(Seq::filter);
                assert(all.take(i + 1).drop_last() =~= all.take(i as int));
                assert(all.take(i + 1).last() == name@);
                if found {
                    assert(freed@.map_values(|name: String| name@) =~= before.map_values(
                        |name: String| name@,
                    ).push(name@));
                }
            }
            i = i + 1;
        }
        assert(all.take(i as int) =~= all);
        freed
    }
}

/// Which files belong to a region can be told from their names alone. A file of
/// an extent has the name of the region, a dash, and decimal digits without a zero
/// in front of others; one of an offset has `0x` before its digits.
pub proof fn law_files_by_name(id: Id, name: Seq<char>)
    ensures
        Files::One(id).has(name) <==> name == id@,
        Files::Extents(id).has(name) <==> {
            let rest = name.skip(id@.len() as int + 1);
            &&& id@.is_prefix_of(name)
            &&& name.len() > id@.len() + 1
            &&& name[id@.len() as int] == '-'
            &&& forall|i: int| 0 <= i < rest.len() ==> '0' <= #[trigger] rest[i] <= '9'
            &&& rest.len() > 1 ==> rest[0] != '0'
        },
        Files::Offsets(id).has(name) <==> {
            let start = id@.len() as int + 3;
            let rest = name.skip(start);
            &&& id@.is_prefix_of(name)
            &&& name.len() > start
            &&& name[start - 3] == '-'
            &&& name[start - 2] == '0'
            &&& name[start - 1] == 'x'
            &&& forall|i: int|
                0 <= i < rest.len() ==> '0' <= #[trigger] rest[i] <= '9' || 'a' <= rest[i] <= 'f'
            &&& rest.len() > 1 ==> rest[0] != '0'
        },
{
    lemma_suffix(name, id@, seq![], 10);
    lemma_suffix(name, id@, seq!['0', 'x'], 16);
    let prefix = seq!['0', 'x'];
    assert(prefix[0] == '0' && prefix[1] == 'x');
    assert forall|index: nat| joined(id@, seq![] + digits(index, 10)) == joined(
        id@,
        #[trigger] digits(index, 10),
    ) by {
        assert(seq![] + digits(index, 10) =~= digits(index, 10));
    }
    let start = id@.len() as int;
    if start + 1 <= name.len() {
        law_numbers_are_digits(name.skip(start + 1), 10);
    }
    if start + 3 <= name.len() {
        law_numbers_are_digits(name.skip(start + 3), 16);
    }
}

/// A store removes no file that is not behind one of its own regions, and none at
/// all unless it frees what it used.
pub proof fn law_only_files_of_regions_are_freed(raw: Raw, name: Seq<char>)
    requires
        raw.frees(name),
    ensures
        raw.free,
        ({
            ||| name == raw.owned.id@
            ||| exists|index: nat| name == joined(raw.local_small.id@, #[trigger] digits(index, 10))
            ||| exists|index: nat| name == joined(raw.local_large.id@, #[trigger] digits(index, 10))
            ||| exists|index: nat|
                name == joined(raw.remote_small.id@, #[trigger] digits(index, 10))
            ||| exists|index: nat|
                name == joined(raw.remote_large.id@, #[trigger] digits(index, 10))
            ||| exists|index: nat| name == joined(raw.data_small.id@, #[trigger] digits(index, 10))
            ||| exists|index: nat| name == joined(raw.data_large.id@, #[trigger] digits(index, 10))
            ||| exists|offset: nat|
                name == joined(raw.data_huge.id@, seq!['0', 'x'] + #[trigger] digits(offset, 16))
        }),
{
    let files = raw.removals_spec();
    let k = choose|k: int| 0 <= k < files.len() && (#[trigger] files[k]).has(name);
    assert(files[k].has(name));
}

/// If a store frees what it used, then every file behind any extent of its
/// regions, or behind any offset of its huge objects, is removed.
pub proof fn law_files_of_regions_are_freed(raw: Raw, region: Sequential, index: nat, offset: u64)
    requires
        raw.free,
        raw.regions_spec().contains(AnyRegion::Sequential(region)),
    ensures
        raw.frees(raw.owned.id@),
        raw.frees(region.extent_name(index as int)),
        raw.frees(raw.data_huge.file_name(offset)),
{
    let files = raw.removals_spec();
    assert(files[0].has(raw.owned.id@));
    assert(files[7].has(raw.data_huge.file_name(offset)));
    let name = region.extent_name(index as int);
    let i = choose|i: int|
        0 <= i < raw.regions_spec().len() && raw.regions_spec()[i]
            == AnyRegion::Sequential(region);
    assert(name == joined(region.id@, digits(index, 10)));
    assert(files[i - 1].has(name));
}

impl Plan {
    /// Whether a file can be one of the heap: the one that threads own, one
    /// behind an extent, or one behind a huge object.
    pub open spec fn has_file(&self, name: Seq<char>) -> bool {
        ||| name == joined(self.id@, "owned"@)
        ||| exists|i: int, index: nat|
            0 <= i < REGIONS && name == joined(
                #[trigger] self.name(i),
                #[trigger] digits(index, 10),
            )
        ||| exists|offset: nat|
            name == joined(
                self.name(REGIONS as int),
                seq!['0', 'x'] + #[trigger] digits(offset, 16),
            )
    }
}

/// A store that frees what it used removes the files of its heap and no others.
/// A store that does not removes none.
pub proof fn law_heap_is_freed(setup: Setup, raw: Raw, name: Seq<char>)
    requires
        setup.wf(),
        setup.step_spec() matches SetupStep::Finished { result } && result is Ok,
        raw.made_by(setup),
    ensures
        raw.frees(name) <==> setup.plan().free && setup.plan().has_file(name),
{
    let plan = setup.plan();
    let progress = setup.progress();
    law_regions_are_as_planned(setup);
    assert(progress.regions[0].name == plan.name(0));
    assert(progress.regions[1].name == plan.name(1));
    assert(progress.regions[2].name == plan.name(2));
    assert(progress.regions[3].name == plan.name(3));
    assert(progress.regions[4].name == plan.name(4));
    assert(progress.regions[5].name == plan.name(5));
    let files = raw.removals_spec();
    if raw.frees(name) {
        let k = choose|k: int| 0 <= k < files.len() && (#[trigger] files[k]).has(name);
        assert(plan.has_file(name)) by {
            if 1 <= k <= 6 {
                let i: int = if k == 1 {
                    0
                } else if k == 2 {
                    2
                } else if k == 3 {
                    1
                } else if k == 4 {
                    3
                } else {
                    k - 1
                };
                let index = choose|index: nat|
                    name == joined(plan.name(i), #[trigger] digits(index, 10));
                assert(name == joined(plan.name(i), digits(index, 10)));
            }
        }
    }
    if plan.free && plan.has_file(name) {
        if name == joined(plan.id@, "owned"@) {
            assert(files[0].has(name));
        } else if exists|offset: nat|
            name == joined(
                plan.name(REGIONS as int),
                seq!['0', 'x'] + #[trigger] digits(offset, 16),
            ) {
            assert(files[7].has(name));
        } else {
            let (i, index) = choose|i: int, index: nat|
                0 <= i < REGIONS && name == joined(
                    #[trigger] plan.name(i),
                    #[trigger] digits(index, 10),
                );
            let k: int = if i == 0 {
                1
            } else if i == 1 {
                3
            } else if i == 2 {
                2
            } else if i == 3 {
                4
            } else {
                i + 1
            };
            assert(files[k].has(name));
        }
    }
}

/// Heaps with different names have no file in common, even if the name of one
/// begins with that of the other.
pub proof fn law_heaps_have_different_files(first: Plan, second: Plan, name: Seq<char>)
    requires
        first.has_file(name),
        second.has_file(name),
    ensures
        first.id@ == second.id@,
{
    let (one, one_suffix) = lemma_parts(first, name);
    let (other, other_suffix) = lemma_parts(second, name);
    lemma_last_dash(one, other, one_suffix, other_suffix);
    let owned = "owned"@;
    if one_suffix != owned {
        let i = choose|i: int| 0 <= i <= REGIONS && one == #[trigger] first.name(i);
        let j = choose|j: int| 0 <= j <= REGIONS && other == #[trigger] second.name(j);
        lemma_region_suffix(i);
        lemma_region_suffix(j);
        lemma_last_dash(
            first.id@,
            second.id@,
            Plan::suffix_spec(i),
            Plan::suffix_spec(j),
        );
    }
}

spec fn has_no_dash(text: Seq<char>) -> bool {
    forall|i: int| 0 <= i < text.len() ==> #[trigger] text[i] != '-'
}

proof fn lemma_region_suffix(index: int)
    requires
        0 <= index <= REGIONS,
    ensures
        has_no_dash(Plan::suffix_spec(index)),
{
    lemma_suffixes();
}

proof fn lemma_parts(plan: Plan, name: Seq<char>) -> (parts: (Seq<char>, Seq<char>))
    requires
        plan.has_file(name),
    ensures
        name == joined(parts.0, parts.1),
        has_no_dash(parts.1),
        parts.1 == "owned"@ ==> parts.0 == plan.id@,
        parts.1 != "owned"@ ==> exists|i: int| 0 <= i <= REGIONS && parts.0 == #[trigger] plan.name(i),
{
    let owned = "owned"@;
    reveal_strlit("owned");
    if name == joined(plan.id@, owned) {
        (plan.id@, owned)
    } else if exists|offset: nat|
        name == joined(plan.name(REGIONS as int), seq!['0', 'x'] + #[trigger] digits(offset, 16)) {
        let offset = choose|offset: nat|
            name == joined(
                plan.name(REGIONS as int),
                seq!['0', 'x'] + #[trigger] digits(offset, 16),
            );
        law_numbers_are_digits(digits(offset, 16), 16);
        let suffix = seq!['0', 'x'] + digits(offset, 16);
        assert(suffix[0] == '0' && owned[0] == 'o');
        assert forall|i: int| 0 <= i < suffix.len() implies #[trigger] suffix[i] != '-' by {
            if i >= 2 {
                assert(suffix[i] == digits(offset, 16)[i - 2]);
            }
        }
        (plan.name(REGIONS as int), suffix)
    } else {
        let (i, index) = choose|i: int, index: nat|
            0 <= i < REGIONS && name == joined(
                #[trigger] plan.name(i),
                #[trigger] digits(index, 10),
            );
        let suffix = digits(index, 10);
        law_numbers_are_digits(suffix, 10);
        assert(owned[0] == 'o');
        if suffix == owned {
            assert(is_digit(suffix[0], 10));
        }
        (plan.name(i), suffix)
    }
}

proof fn lemma_last_dash(
    one: Seq<char>,
    other: Seq<char>,
    one_suffix: Seq<char>,
    other_suffix: Seq<char>,
)
    requires
        joined(one, one_suffix) == joined(other, other_suffix),
        has_no_dash(one_suffix),
        has_no_dash(other_suffix),
    ensures
        one == other,
        one_suffix == other_suffix,
{
    let whole = joined(one, one_suffix);
    let same = joined(other, other_suffix);
    assert(whole.len() == one.len() + 1 + one_suffix.len());
    assert(same.len() == other.len() + 1 + other_suffix.len());
    assert(whole[one.len() as int] == '-');
    assert(same[other.len() as int] == '-');
    if one.len() < other.len() {
        assert(whole[other.len() as int] == one_suffix[other.len() - one.len() - 1]);
    }
    if other.len() < one.len() {
        assert(same[one.len() as int] == other_suffix[one.len() - other.len() - 1]);
    }
    assert(one =~= whole.take(one.len() as int));
    assert(other =~= same.take(other.len() as int));
    assert(one_suffix =~= whole.skip(one.len() as int + 1));
    assert(other_suffix =~= same.skip(other.len() as int + 1));
}

} // verus!
