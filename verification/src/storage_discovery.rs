//! Discovery of the flat block class: which entries become inventory
//! nodes. Reading sysfs is left to the caller, which hands over what it
//! read for each entry.
use vstd::prelude::*;
use vstd::string::*;
use vstd::utf8::*;

use crate::collectors::md_sysfs::{trim_all, trim_text};
use crate::order::{sort_by_key, sorted_by_key, stable_sort, ByteKeyed};
use crate::storage::{classify, kind_of_name, Generation, Materialization, StorageInventory, StorageNode};
use crate::text::{range_bytes, ranges_bytes, ranges_within, split_lines, text_lines};

verus! {

/// `DEVTYPE=partition`.
pub open spec fn partition_line() -> Seq<u8> {
    seq![
        0x44u8, 0x45, 0x56, 0x54, 0x59, 0x50, 0x45, 0x3d, 0x70, 0x61, 0x72, 0x74, 0x69, 0x74, 0x69,
        0x6f, 0x6e,
    ]
}

/// Whether a `uevent` file names a partition: one of its lines is exactly
/// `DEVTYPE=partition`.
pub fn is_partition_uevent(text: &str) -> (r: bool)
    ensures
        r == text_lines(text.spec_bytes()).contains(partition_line()),
{
    let bytes = text.as_bytes();
    let lines = split_lines(bytes);
    let target: [u8; 17] = [
        0x44, 0x45, 0x56, 0x54, 0x59, 0x50, 0x45, 0x3d, 0x70, 0x61, 0x72, 0x74, 0x69, 0x74, 0x69,
        0x6f, 0x6e,
    ];
    assert(target@ =~= partition_line());
    let ghost ls = text_lines(bytes@);
    let mut k: usize = 0;
    while k < lines.len()
        invariant
            ls == text_lines(bytes@),
            bytes@ == text.spec_bytes(),
            ranges_bytes(bytes@, lines@) == ls,
            ranges_within(bytes@, lines@),
            target@ == partition_line(),
            k <= lines@.len(),
            forall|j: int| 0 <= j < k ==> ls[j] != partition_line(),
        decreases lines@.len() - k,
    {
        let (start, end) = lines[k];
        if end - start == 17 {
            let mut i: usize = 0;
            while i < 17 && bytes[start + i] == target[i]
                invariant
                    end - start == 17,
                    start <= end <= bytes@.len(),
                    i <= 17,
                    forall|m: int| 0 <= m < i ==> bytes@[start + m] == target@[m],
                decreases 17 - i,
            {
                i = i + 1;
            }
            assert(ls[k as int] == range_bytes(bytes@, lines@[k as int]));
            if i == 17 {
                assert(ls[k as int] =~= partition_line());
                assert(ls.contains(partition_line()));
                return true;
            }
            assert(ls[k as int][i as int] != partition_line()[i as int]);
        } else {
            assert(ls[k as int] == range_bytes(bytes@, lines@[k as int]));
            assert(ls[k as int].len() != partition_line().len());
        }
        k = k + 1;
    }
    false
}

/// A sysfs `removable` value: `0` or `1` around white space.
pub open spec fn removable_of(text: Seq<char>) -> Option<bool> {
    if trim_all(text) == seq!['0'] {
        Some(false)
    } else if trim_all(text) == seq!['1'] {
        Some(true)
    } else {
        None
    }
}

pub fn removable_value(text: &str) -> (r: Option<bool>)
    ensures
        r == removable_of(text@),
{
    let t = trim_text(text);
    let s = t.as_str();
    if s.unicode_len() == 1 {
        let c = s.get_char(0);
        if c == '0' {
            assert(t@ =~= seq!['0']);
            return Some(false);
        } else if c == '1' {
            assert(t@ =~= seq!['1']);
            return Some(true);
        }
        assert(t@ != seq!['0'] && t@ != seq!['1']) by {
            assert(t@[0] == c);
        }
    } else {
        assert(t@.len() != seq!['0'].len());
    }
    None
}

/// What was read of one block-class entry.
#[derive(Debug, Clone, PartialEq, Eq)]
pub struct DiscoveredEntry {
    pub name: String,
    pub partition: bool,
    pub removable: Option<bool>,
}

impl ByteKeyed for StorageNode {
    open spec fn key_of(&self) -> Seq<u8> {
        encode_utf8(self.name@)
    }

    fn key(&self) -> (k: &[u8]) {
        self.name.as_str().as_bytes()
    }
}

/// The node of a whole device named `name`.
pub open spec fn node_of(name: Seq<char>, removable: Option<bool>, n: StorageNode) -> bool {
    &&& n.id@ == seq!['b', 'l', 'o', 'c', 'k', ':'] + name
    &&& n.name@ == name
    &&& n.kind == kind_of_name(name)
    &&& n.materialization == Materialization::BlockDevice
    &&& n.removable == removable
    &&& n.identities@.len() == 0
    &&& n.generation.diskseq is None
    &&& n.generation.dev_t is None
}

/// The entries kept among the first `k`: readable and not partitions.
pub open spec fn kept_entries(entries: Seq<Option<DiscoveredEntry>>, k: int) -> Seq<DiscoveredEntry>
    decreases k,
{
    if k <= 0 {
        seq![]
    } else {
        match entries[k - 1] {
            Some(e) => if e.partition {
                kept_entries(entries, k - 1)
            } else {
                kept_entries(entries, k - 1).push(e)
            },
            None => kept_entries(entries, k - 1),
        }
    }
}

/// The inventory of a readable block class: one node per readable entry
/// that is not a partition, sorted by name; partial when some entry could
/// not be read.
pub fn discovered_inventory(entries: &[Option<DiscoveredEntry>]) -> (r: StorageInventory)
    ensures
        r.partial == exists|i: int| 0 <= i < entries@.len() && #[trigger] entries@[i] is None,
        r.edges@.len() == 0,
        sorted_by_key(r.nodes@),
        exists|unsorted: Seq<StorageNode>|
            unsorted.len() == kept_entries(entries@, entries@.len() as int).len() && (forall|i: int|
                0 <= i < unsorted.len() ==> node_of(
                    #[trigger] kept_entries(entries@, entries@.len() as int)[i].name@,
                    kept_entries(entries@, entries@.len() as int)[i].removable,
                    unsorted[i],
                )) && r.nodes@ == stable_sort(unsorted),
{
    let mut nodes: Vec<StorageNode> = Vec::new();
    let mut partial = false;
    let mut k: usize = 0;
    while k < entries.len()
        invariant
            k <= entries@.len(),
            partial == exists|i: int| 0 <= i < k && #[trigger] entries@[i] is None,
            nodes@.len() == kept_entries(entries@, k as int).len(),
            forall|i: int|
                0 <= i < nodes@.len() ==> node_of(
                    #[trigger] kept_entries(entries@, k as int)[i].name@,
                    kept_entries(entries@, k as int)[i].removable,
                    nodes@[i],
                ),
        decreases entries@.len() - k,
    {
        let ghost before = kept_entries(entries@, k as int);
        match &entries[k] {
            None => {
                assert(kept_entries(entries@, k as int + 1) == before);
                partial = true;
            },
            Some(entry) => {
                if !entry.partition {
                    proof {
                        reveal_strlit("block:");
                    }
                    let node = StorageNode {
                        id: String::from_str("block:").concat(entry.name.as_str()),
                        name: entry.name.clone(),
                        kind: classify(entry.name.as_str()),
                        materialization: Materialization::BlockDevice,
                        removable: entry.removable,
                        identities: Vec::new(),
                        generation: Generation { diskseq: None, dev_t: None },
                    };
                    assert(node.id@ =~= seq!['b', 'l', 'o', 'c', 'k', ':'] + entry.name@);
                    nodes.push(node);
                    assert(kept_entries(entries@, k as int + 1) == before.push(*entry));
                    assert(node_of(before.push(*entry)[before.len() as int].name@, entry.removable, node));
                } else {
                    assert(kept_entries(entries@, k as int + 1) == before);
                }
            },
        }
        k = k + 1;
    }
    let ghost unsorted = nodes@;
    let sorted = sort_by_key(nodes);
    StorageInventory { nodes: sorted, edges: Vec::new(), partial }
}

/// The inventory when the block class cannot be read at all.
pub fn unreadable_inventory() -> (r: StorageInventory)
    ensures
        r.partial,
        r.nodes@.len() == 0,
        r.edges@.len() == 0,
{
    StorageInventory { nodes: Vec::new(), edges: Vec::new(), partial: true }
}

} // verus!
