//! Classification of a raw file status bitset into status categories.
//!
//! A file's status is a set of simultaneous conditions, each one bit. The
//! classifier decomposes it into every category whose bit is set.
use vstd::prelude::*;

verus! {

/// Bits of a raw file status, as the repository reader reports them.
pub const STATUS_INDEX_NEW: u32 = 0x1;
pub const STATUS_INDEX_MODIFIED: u32 = 0x2;
pub const STATUS_INDEX_DELETED: u32 = 0x4;
pub const STATUS_INDEX_RENAMED: u32 = 0x8;
pub const STATUS_INDEX_TYPECHANGE: u32 = 0x10;
pub const STATUS_WT_NEW: u32 = 0x80;
pub const STATUS_WT_MODIFIED: u32 = 0x100;
pub const STATUS_WT_DELETED: u32 = 0x200;
pub const STATUS_WT_TYPECHANGE: u32 = 0x400;
pub const STATUS_WT_RENAMED: u32 = 0x800;
pub const STATUS_WT_UNREADABLE: u32 = 0x1000;
pub const STATUS_IGNORED: u32 = 0x4000;
pub const STATUS_CONFLICTED: u32 = 0x8000;

/// Every bit that some category stands for.
pub const KNOWN_STATUS_BITS: u32 = 0xcf9f;

/// Number of status categories.
pub const CATEGORY_COUNT: usize = 14;

/// A discrete status category of a file.
#[derive(Clone, Copy, Debug, PartialEq, Eq, Structural)]
pub enum StatusCategory {
    Current,
    IndexNew,
    IndexModified,
    IndexDeleted,
    IndexRenamed,
    IndexTypeChanged,
    WorktreeNew,
    WorktreeModified,
    WorktreeDeleted,
    WorktreeTypeChanged,
    WorktreeRenamed,
    Ignored,
    Conflicted,
    Unclassified,
}

/// The bit that a category stands for; 0 for the two categories that stand
/// for no single bit.
pub open spec fn category_bit(c: StatusCategory) -> u32 {
    match c {
        StatusCategory::Current => 0,
        StatusCategory::IndexNew => STATUS_INDEX_NEW,
        StatusCategory::IndexModified => STATUS_INDEX_MODIFIED,
        StatusCategory::IndexDeleted => STATUS_INDEX_DELETED,
        StatusCategory::IndexRenamed => STATUS_INDEX_RENAMED,
        StatusCategory::IndexTypeChanged => STATUS_INDEX_TYPECHANGE,
        StatusCategory::WorktreeNew => STATUS_WT_NEW,
        StatusCategory::WorktreeModified => STATUS_WT_MODIFIED,
        StatusCategory::WorktreeDeleted => STATUS_WT_DELETED,
        StatusCategory::WorktreeTypeChanged => STATUS_WT_TYPECHANGE,
        StatusCategory::WorktreeRenamed => STATUS_WT_RENAMED,
        StatusCategory::Ignored => STATUS_IGNORED,
        StatusCategory::Conflicted => STATUS_CONFLICTED,
        StatusCategory::Unclassified => 0,
    }
}

/// Whether a file with raw status `bits` belongs to category `c`: the empty
/// bitset is `Current`, a bitset with no known bit is `Unclassified`, and
/// otherwise each set bit gives its own category.
pub open spec fn in_category(bits: u32, c: StatusCategory) -> bool {
    match c {
        StatusCategory::Current => bits == 0,
        StatusCategory::Unclassified => bits != 0 && bits & KNOWN_STATUS_BITS == 0,
        _ => bits & category_bit(c) != 0,
    }
}

/// Display name of a category.
pub open spec fn category_name(c: StatusCategory) -> Seq<char> {
    match c {
        StatusCategory::Current => "Current"@,
        StatusCategory::IndexNew => "IndexNew"@,
        StatusCategory::IndexModified => "IndexModified"@,
        StatusCategory::IndexDeleted => "IndexDeleted"@,
        StatusCategory::IndexRenamed => "IndexRenamed"@,
        StatusCategory::IndexTypeChanged => "IndexTypeChanged"@,
        StatusCategory::WorktreeNew => "WorktreeNew"@,
        StatusCategory::WorktreeModified => "WorktreeModified"@,
        StatusCategory::WorktreeDeleted => "WorktreeDeleted"@,
        StatusCategory::WorktreeTypeChanged => "WorktreeTypeChanged"@,
        StatusCategory::WorktreeRenamed => "WorktreeRenamed"@,
        StatusCategory::Ignored => "Ignored"@,
        StatusCategory::Conflicted => "Conflicted"@,
        StatusCategory::Unclassified => "Unclassified"@,
    }
}

/// Position of a category in the fixed order of the enum.
pub open spec fn category_index(c: StatusCategory) -> nat {
    match c {
        StatusCategory::Current => 0,
        StatusCategory::IndexNew => 1,
        StatusCategory::IndexModified => 2,
        StatusCategory::IndexDeleted => 3,
        StatusCategory::IndexRenamed => 4,
        StatusCategory::IndexTypeChanged => 5,
        StatusCategory::WorktreeNew => 6,
        StatusCategory::WorktreeModified => 7,
        StatusCategory::WorktreeDeleted => 8,
        StatusCategory::WorktreeTypeChanged => 9,
        StatusCategory::WorktreeRenamed => 10,
        StatusCategory::Ignored => 11,
        StatusCategory::Conflicted => 12,
        StatusCategory::Unclassified => 13,
    }
}

/// The category at position `i` of the fixed order.
pub open spec fn category_at(i: nat) -> StatusCategory {
    if i == 0 {
        StatusCategory::Current
    } else if i == 1 {
        StatusCategory::IndexNew
    } else if i == 2 {
        StatusCategory::IndexModified
    } else if i == 3 {
        StatusCategory::IndexDeleted
    } else if i == 4 {
        StatusCategory::IndexRenamed
    } else if i == 5 {
        StatusCategory::IndexTypeChanged
    } else if i == 6 {
        StatusCategory::WorktreeNew
    } else if i == 7 {
        StatusCategory::WorktreeModified
    } else if i == 8 {
        StatusCategory::WorktreeDeleted
    } else if i == 9 {
        StatusCategory::WorktreeTypeChanged
    } else if i == 10 {
        StatusCategory::WorktreeRenamed
    } else if i == 11 {
        StatusCategory::Ignored
    } else if i == 12 {
        StatusCategory::Conflicted
    } else {
        StatusCategory::Unclassified
    }
}

/// The fixed order is a bijection between categories and `0..CATEGORY_COUNT`.
pub proof fn lemma_category_order(c: StatusCategory)
    ensures
        category_index(c) < CATEGORY_COUNT,
        category_at(category_index(c)) == c,
{
}

/// The category at a position in range has that position.
pub proof fn lemma_category_at(i: nat)
    requires
        i < CATEGORY_COUNT,
    ensures
        category_index(category_at(i)) == i,
{
}

/// Every bitset belongs to at least one category.
pub proof fn lemma_classification_total(bits: u32)
    ensures
        exists|c: StatusCategory| in_category(bits, c),
{
    if bits == 0 {
        assert(in_category(bits, StatusCategory::Current));
    } else if bits & KNOWN_STATUS_BITS == 0 {
        assert(in_category(bits, StatusCategory::Unclassified));
    } else {
        assert(bits & 0xcf9f != 0 ==> (bits & 0x1 != 0 || bits & 0x2 != 0 || bits & 0x4 != 0
            || bits & 0x8 != 0 || bits & 0x10 != 0 || bits & 0x80 != 0 || bits & 0x100 != 0
            || bits & 0x200 != 0 || bits & 0x400 != 0 || bits & 0x800 != 0 || bits & 0x4000 != 0
            || bits & 0x8000 != 0)) by (bit_vector);
        assert(in_category(bits, StatusCategory::IndexNew) || in_category(
            bits,
            StatusCategory::IndexModified,
        ) || in_category(bits, StatusCategory::IndexDeleted) || in_category(
            bits,
            StatusCategory::IndexRenamed,
        ) || in_category(bits, StatusCategory::IndexTypeChanged) || in_category(
            bits,
            StatusCategory::WorktreeNew,
        ) || in_category(bits, StatusCategory::WorktreeModified) || in_category(
            bits,
            StatusCategory::WorktreeDeleted,
        ) || in_category(bits, StatusCategory::WorktreeTypeChanged) || in_category(
            bits,
            StatusCategory::WorktreeRenamed,
        ) || in_category(bits, StatusCategory::Ignored) || in_category(
            bits,
            StatusCategory::Conflicted,
        ));
    }
}

/// The category at position `i` of the fixed order.
pub fn category_at_index(i: usize) -> (c: StatusCategory)
    requires
        i < CATEGORY_COUNT,
    ensures
        c == category_at(i as nat),
        category_index(c) == i,
{
    if i == 0 {
        StatusCategory::Current
    } else if i == 1 {
        StatusCategory::IndexNew
    } else if i == 2 {
        StatusCategory::IndexModified
    } else if i == 3 {
        StatusCategory::IndexDeleted
    } else if i == 4 {
        StatusCategory::IndexRenamed
    } else if i == 5 {
        StatusCategory::IndexTypeChanged
    } else if i == 6 {
        StatusCategory::WorktreeNew
    } else if i == 7 {
        StatusCategory::WorktreeModified
    } else if i == 8 {
        StatusCategory::WorktreeDeleted
    } else if i == 9 {
        StatusCategory::WorktreeTypeChanged
    } else if i == 10 {
        StatusCategory::WorktreeRenamed
    } else if i == 11 {
        StatusCategory::Ignored
    } else if i == 12 {
        StatusCategory::Conflicted
    } else {
        StatusCategory::Unclassified
    }
}

impl StatusCategory {
    /// Display name of this category.
    pub fn name(&self) -> (r: &'static str)
        ensures
            r@ == category_name(*self),
    {
        match self {
            StatusCategory::Current => "Current",
            StatusCategory::IndexNew => "IndexNew",
            StatusCategory::IndexModified => "IndexModified",
            StatusCategory::IndexDeleted => "IndexDeleted",
            StatusCategory::IndexRenamed => "IndexRenamed",
            StatusCategory::IndexTypeChanged => "IndexTypeChanged",
            StatusCategory::WorktreeNew => "WorktreeNew",
            StatusCategory::WorktreeModified => "WorktreeModified",
            StatusCategory::WorktreeDeleted => "WorktreeDeleted",
            StatusCategory::WorktreeTypeChanged => "WorktreeTypeChanged",
            StatusCategory::WorktreeRenamed => "WorktreeRenamed",
            StatusCategory::Ignored => "Ignored",
            StatusCategory::Conflicted => "Conflicted",
            StatusCategory::Unclassified => "Unclassified",
        }
    }

    /// Position of this category in the fixed order.
    pub fn index(&self) -> (r: usize)
        ensures
            r == category_index(*self),
            r < CATEGORY_COUNT,
    {
        match self {
            StatusCategory::Current => 0,
            StatusCategory::IndexNew => 1,
            StatusCategory::IndexModified => 2,
            StatusCategory::IndexDeleted => 3,
            StatusCategory::IndexRenamed => 4,
            StatusCategory::IndexTypeChanged => 5,
            StatusCategory::WorktreeNew => 6,
            StatusCategory::WorktreeModified => 7,
            StatusCategory::WorktreeDeleted => 8,
            StatusCategory::WorktreeTypeChanged => 9,
            StatusCategory::WorktreeRenamed => 10,
            StatusCategory::Ignored => 11,
            StatusCategory::Conflicted => 12,
            StatusCategory::Unclassified => 13,
        }
    }

    /// Whether a file with raw status `bits` belongs to this category.
    pub fn matches(&self, bits: u32) -> (r: bool)
        ensures
            r == in_category(bits, *self),
    {
        match self {
            StatusCategory::Current => bits == 0,
            StatusCategory::IndexNew => bits & STATUS_INDEX_NEW != 0,
            StatusCategory::IndexModified => bits & STATUS_INDEX_MODIFIED != 0,
            StatusCategory::IndexDeleted => bits & STATUS_INDEX_DELETED != 0,
            StatusCategory::IndexRenamed => bits & STATUS_INDEX_RENAMED != 0,
            StatusCategory::IndexTypeChanged => bits & STATUS_INDEX_TYPECHANGE != 0,
            StatusCategory::WorktreeNew => bits & STATUS_WT_NEW != 0,
            StatusCategory::WorktreeModified => bits & STATUS_WT_MODIFIED != 0,
            StatusCategory::WorktreeDeleted => bits & STATUS_WT_DELETED != 0,
            StatusCategory::WorktreeTypeChanged => bits & STATUS_WT_TYPECHANGE != 0,
            StatusCategory::WorktreeRenamed => bits & STATUS_WT_RENAMED != 0,
            StatusCategory::Ignored => bits & STATUS_IGNORED != 0,
            StatusCategory::Conflicted => bits & STATUS_CONFLICTED != 0,
            StatusCategory::Unclassified => bits != 0 && bits & KNOWN_STATUS_BITS == 0,
        }
    }
}

/// Every category that a file with raw status `bits` belongs to, each once,
/// in the fixed order of the enum. Never empty.
pub fn classify(bits: u32) -> (r: Vec<StatusCategory>)
    ensures
        forall|c: StatusCategory| r@.contains(c) <==> in_category(bits, c),
        r@.no_duplicates(),
        r@.len() > 0,
        forall|a: int, b: int|
            0 <= a < b < r@.len() ==> category_index(r@[a]) < category_index(r@[b]),
{
    let mut r: Vec<StatusCategory> = Vec::new();
    let mut i: usize = 0;
    while i < CATEGORY_COUNT
        invariant
            i <= CATEGORY_COUNT,
            forall|c: StatusCategory| #[trigger]
                r@.contains(c) <==> (category_index(c) < i && in_category(bits, c)),
            forall|k: int| 0 <= k < r@.len() ==> category_index(#[trigger] r@[k]) < i,
            r@.no_duplicates(),
            forall|a: int, b: int|
                0 <= a < b < r@.len() ==> category_index(r@[a]) < category_index(r@[b]),
        decreases CATEGORY_COUNT - i,
    {
        let c = category_at_index(i);
        if c.matches(bits) {
            let ghost before = r@;
            proof {
                lemma_category_order(c);
                assert(!before.contains(c));
            }
            r.push(c);
            proof {
                assert(r@ == before.push(c));
                assert forall|d: StatusCategory| #[trigger]
                    r@.contains(d) <==> (category_index(d) < i + 1 && in_category(bits, d)) by {
                    lemma_category_order(d);
                    if r@.contains(d) && d != c {
                        let k = choose|k: int| 0 <= k < r@.len() && r@[k] == d;
                        assert(before[k] == d);
                        assert(before.contains(d));
                    }
                    if category_index(d) == i {
                        assert(d == c);
                    }
                    if category_index(d) < i && in_category(bits, d) {
                        assert(before.contains(d));
                        let k = choose|k: int| 0 <= k < before.len() && before[k] == d;
                        assert(r@[k] == d);
                    }
                    if d == c {
                        assert(r@[r@.len() - 1] == d);
                    }
                }
            }
        } else {
            proof {
                assert forall|d: StatusCategory| #[trigger]
                    r@.contains(d) <==> (category_index(d) < i + 1 && in_category(bits, d)) by {
                    if category_index(d) == i {
                        lemma_category_order(d);
                        lemma_category_order(c);
                    }
                }
            }
        }
        i = i + 1;
    }
    proof {
        lemma_classification_total(bits);
        let c = choose|c: StatusCategory| in_category(bits, c);
        lemma_category_order(c);
        assert(r@.contains(c));
    }
    r
}

} // verus!
