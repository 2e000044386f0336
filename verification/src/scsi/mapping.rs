//! The sysfs mapping from a block device to its SCSI generic locators.
//!
//! Reading the directory is left to the caller; this module decides which
//! names are acceptable and how the accepted locators are ordered.
use vstd::prelude::*;

use crate::storage::string_views;
use crate::text::{
    bytes_equal,
    bytes_less,
    bytes_lt,
    lemma_bytes_lt_irreflexive,
    lemma_bytes_lt_total,
    lemma_bytes_lt_transitive,
};

verus! {

#[derive(Debug, Clone, Copy, PartialEq, Eq, Structural)]
pub enum MappingAvailability {
    Complete,
    NoScsiGenericInterface,
    DeviceGone,
    Unreadable,
}

#[derive(Debug, Clone, PartialEq, Eq)]
pub struct ScsiGenericMapping {
    /// Ephemeral kernel locators such as `sg0`; never persistent identities.
    pub entries: Vec<String>,
    pub rejected_entries: usize,
    pub availability: MappingAvailability,
}

#[derive(Debug, Clone, Copy, PartialEq, Eq, Structural)]
pub enum MappingError {
    InvalidBlockName,
}

/// The UTF-8 bytes of a text.
pub open spec fn text_bytes(s: Seq<char>) -> Seq<u8> {
    vstd::utf8::encode_utf8(s)
}

pub open spec fn block_name_byte(b: u8) -> bool {
    (0x30 <= b <= 0x39) || (0x41 <= b <= 0x5a) || (0x61 <= b <= 0x7a) || b == 0x5f || b == 0x2d
        || b == 0x2e || b == 0x21
}

/// A block device name that names one entry below the block class
/// directory: ASCII letters, digits and `_-.!`, and not `.` or `..`.
pub open spec fn valid_block_name_bytes(s: Seq<u8>) -> bool {
    &&& s.len() > 0
    &&& s != seq![0x2eu8]
    &&& s != seq![0x2eu8, 0x2eu8]
    &&& forall|i: int| 0 <= i < s.len() ==> block_name_byte(#[trigger] s[i])
}

/// An SCSI generic locator: `sg` followed by at least one ASCII digit.
pub open spec fn valid_sg_name_bytes(s: Seq<u8>) -> bool {
    &&& s.len() > 2
    &&& s[0] == 0x73u8
    &&& s[1] == 0x67u8
    &&& forall|i: int| 2 <= i < s.len() ==> 0x30 <= #[trigger] s[i] <= 0x39
}

pub fn valid_block_name(name: &str) -> (r: bool)
    ensures
        r == valid_block_name_bytes(text_bytes(name@)),
{
    let bytes = name.as_bytes();
    let n = bytes.len();
    if n == 0 {
        return false;
    }
    if n == 1 && bytes[0] == 0x2e {
        assert(bytes@ =~= seq![0x2eu8]);
        return false;
    }
    if n == 2 && bytes[0] == 0x2e && bytes[1] == 0x2e {
        assert(bytes@ =~= seq![0x2eu8, 0x2eu8]);
        return false;
    }
    let mut i: usize = 0;
    while i < n
        invariant
            n == bytes@.len(),
            bytes@ == text_bytes(name@),
            i <= n,
            forall|k: int| 0 <= k < i ==> block_name_byte(#[trigger] bytes@[k]),
        decreases n - i,
    {
        let b = bytes[i];
        if !((0x30 <= b && b <= 0x39) || (0x41 <= b && b <= 0x5a) || (0x61 <= b && b <= 0x7a) || b
            == 0x5f || b == 0x2d || b == 0x2e || b == 0x21) {
            assert(!block_name_byte(bytes@[i as int]));
            return false;
        }
        i = i + 1;
    }
    proof {
        if n == 1 {
            assert(bytes@ != seq![0x2eu8, 0x2eu8]);
            if bytes@ == seq![0x2eu8] {
                assert(bytes@[0] == 0x2e);
            }
        } else if n == 2 {
            assert(bytes@ != seq![0x2eu8]);
            if bytes@ == seq![0x2eu8, 0x2eu8] {
                assert(bytes@[0] == 0x2e && bytes@[1] == 0x2e);
            }
        } else {
            assert(bytes@.len() != seq![0x2eu8].len());
            assert(bytes@.len() != seq![0x2eu8, 0x2eu8].len());
        }
    }
    true
}

pub fn valid_sg_name(name: &str) -> (r: bool)
    ensures
        r == valid_sg_name_bytes(text_bytes(name@)),
{
    let bytes = name.as_bytes();
    let n = bytes.len();
    if n <= 2 || bytes[0] != 0x73 || bytes[1] != 0x67 {
        return false;
    }
    let mut i: usize = 2;
    while i < n
        invariant
            n == bytes@.len(),
            bytes@ == text_bytes(name@),
            2 <= i <= n,
            forall|k: int| 2 <= k < i ==> 0x30 <= #[trigger] bytes@[k] <= 0x39,
        decreases n - i,
    {
        if !(0x30 <= bytes[i] && bytes[i] <= 0x39) {
            assert(!(0x30 <= bytes@[i as int] <= 0x39));
            return false;
        }
        i = i + 1;
    }
    true
}

/// A mapping that found no locator, for the given reason.
pub fn unmapped(availability: MappingAvailability) -> (m: ScsiGenericMapping)
    ensures
        m.entries@.len() == 0,
        m.rejected_entries == 0,
        m.availability == availability,
{
    ScsiGenericMapping { entries: Vec::new(), rejected_entries: 0, availability }
}

/// A directory entry is accepted when it could be read, its name is text,
/// and the name is an SCSI generic locator.
pub open spec fn entry_accepted(entry: Option<String>) -> bool {
    entry matches Some(name) && valid_sg_name_bytes(text_bytes(name@))
}

pub open spec fn rejected_count(entries: Seq<Option<String>>) -> nat
    decreases entries.len(),
{
    if entries.len() == 0 {
        0
    } else {
        rejected_count(entries.drop_last()) + if entry_accepted(entries.last()) {
            0nat
        } else {
            1nat
        }
    }
}

/// Strictly increasing by bytes, hence free of duplicates.
pub open spec fn strictly_sorted(v: Seq<String>) -> bool {
    forall|i: int, j: int|
        0 <= i < j < v.len() ==> bytes_lt(#[trigger] text_bytes(v[i]@), #[trigger] text_bytes(v[j]@))
}

/// The accepted names among the first `n` entries.
pub open spec fn accepted_among(entries: Seq<Option<String>>, n: int, name: Seq<char>) -> bool {
    exists|k: int|
        0 <= k < n && entry_accepted(#[trigger] entries[k]) && entries[k]->0@ == name
}

fn text_bytes_of(s: &String) -> (b: &[u8])
    ensures
        b@ == text_bytes(s@),
{
    s.as_str().as_bytes()
}

/// The complete mapping of a readable `scsi_generic` directory, given one
/// entry per directory item (`None` for an item that could not be read or
/// whose name is not text): the accepted locators sorted by bytes without
/// duplicates, and the number of rejected items.
pub fn scsi_generic_mapping_from_entries(entries: &[Option<String>]) -> (m: ScsiGenericMapping)
    ensures
        m.availability == MappingAvailability::Complete,
        m.rejected_entries == rejected_count(entries@),
        strictly_sorted(m.entries@),
        forall|name: Seq<char>|
            string_views(m.entries@).contains(name) <==> accepted_among(
                entries@,
                entries@.len() as int,
                name,
            ),
{
    let mut names: Vec<String> = Vec::new();
    let mut rejected: usize = 0;
    let mut k: usize = 0;
    while k < entries.len()
        invariant
            k <= entries@.len(),
            rejected == rejected_count(entries@.take(k as int)),
            rejected <= k,
            strictly_sorted(names@),
            forall|name: Seq<char>|
                string_views(names@).contains(name) <==> accepted_among(entries@, k as int, name),
        decreases entries@.len() - k,
    {
        assert(entries@.take(k + 1).drop_last() =~= entries@.take(k as int));
        let ghost before = names@;
        match &entries[k] {
            None => {
                rejected = rejected + 1;
            },
            Some(name) => {
                if !valid_sg_name(name.as_str()) {
                    rejected = rejected + 1;
                } else {
                    insert_sorted(&mut names, name);
                }
            },
        }
        proof {
            assert forall|name: Seq<char>|
                string_views(names@).contains(name) <==> accepted_among(
                    entries@,
                    k + 1,
                    name,
                ) by {
                if accepted_among(entries@, k + 1, name) {
                    let j = choose|j: int|
                        0 <= j < k + 1 && entry_accepted(#[trigger] entries@[j]) && entries@[j]->0@
                            == name;
                    if j < k {
                        assert(accepted_among(entries@, k as int, name));
                    }
                }
                if string_views(names@).contains(name) && !string_views(before).contains(name) {
                    assert(entry_accepted(entries@[k as int]) && entries@[k as int]->0@ == name);
                }
                if accepted_among(entries@, k as int, name) {
                    let j = choose|j: int|
                        0 <= j < k && entry_accepted(#[trigger] entries@[j]) && entries@[j]->0@
                            == name;
                    assert(0 <= j < k + 1);
                }
            }
        }
        k = k + 1;
    }
    assert(entries@.take(entries@.len() as int) =~= entries@);
    ScsiGenericMapping {
        entries: names,
        rejected_entries: rejected,
        availability: MappingAvailability::Complete,
    }
}

/// Inserts `name` into a strictly sorted vector unless it is already there.
pub(crate) fn insert_sorted(names: &mut Vec<String>, name: &String)
    requires
        strictly_sorted(old(names)@),
    ensures
        strictly_sorted(final(names)@),
        forall|s: Seq<char>|
            string_views(final(names)@).contains(s) <==> (string_views(old(names)@).contains(s)
                || s == name@),
{
    let key = text_bytes_of(name);
    let mut p: usize = 0;
    while p < names.len() && bytes_less(text_bytes_of(&names[p]), key)
        invariant
            p <= names@.len(),
            key@ == text_bytes(name@),
            forall|i: int| 0 <= i < p ==> bytes_lt(#[trigger] text_bytes(names@[i]@), key@),
        decreases names@.len() - p,
    {
        p = p + 1;
    }
    let ghost old_names = names@;
    if p < names.len() && bytes_equal(text_bytes_of(&names[p]), key) {
        proof {
            vstd::utf8::encode_utf8_decode_utf8(names@[p as int]@);
            vstd::utf8::encode_utf8_decode_utf8(name@);
            assert(string_views(names@)[p as int] == name@);
        }
        return;
    }
    proof {
        if p < names@.len() {
            lemma_bytes_lt_total(text_bytes(names@[p as int]@), key@);
        }
        assert forall|i: int| p <= i < names@.len() implies bytes_lt(
            key@,
            #[trigger] text_bytes(names@[i]@),
        ) by {
            if i > p {
                lemma_bytes_lt_transitive(
                    key@,
                    text_bytes(names@[p as int]@),
                    text_bytes(names@[i]@),
                );
            }
        }
    }
    names.insert(p, name.clone());
    proof {
        let inserted = names@;
        assert forall|i: int, j: int| 0 <= i < j < inserted.len() implies bytes_lt(
            #[trigger] text_bytes(inserted[i]@),
            #[trigger] text_bytes(inserted[j]@),
        ) by {
            if i < p && j > p {
                lemma_bytes_lt_transitive(
                    text_bytes(inserted[i]@),
                    key@,
                    text_bytes(inserted[j]@),
                );
            }
        }
        assert forall|s: Seq<char>|
            string_views(inserted).contains(s) <==> (string_views(old_names).contains(s) || s
                == name@) by {
            if string_views(inserted).contains(s) {
                let i = choose|i: int| 0 <= i < inserted.len() && string_views(inserted)[i] == s;
                if i < p {
                    assert(string_views(old_names)[i] == s);
                } else if i > p {
                    assert(string_views(old_names)[i - 1] == s);
                }
            }
            if string_views(old_names).contains(s) {
                let i = choose|i: int| 0 <= i < old_names.len() && string_views(old_names)[i] == s;
                if i < p {
                    assert(string_views(inserted)[i] == s);
                } else {
                    assert(string_views(inserted)[i + 1] == s);
                }
            }
            if s == name@ {
                assert(string_views(inserted)[p as int] == s);
            }
        }
    }
}

} // verus!
