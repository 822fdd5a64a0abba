//! A plain tree for the parts of decoded YAML/JSON documents that the logic reads.
use vstd::prelude::*;
use crate::text::eq_str;

verus! {

/// A decoded document value. Tags are already removed from values; a key that is
/// not a plain string is `Other`.
#[derive(Debug)]
pub enum DataNode {
    Text(String),
    /// A non-negative integer that fits in `u64`.
    UInt(u64),
    Bool(bool),
    Sequence(Vec<DataNode>),
    Mapping(Vec<(DataNode, DataNode)>),
    /// Null, another number, or any other scalar.
    Other,
}

pub open spec fn key_is(k: DataNode, key: Seq<char>) -> bool {
    k matches DataNode::Text(s) && s@ == key
}

/// Index of the first entry at or after `from` whose key is the string `key`, or -1.
pub open spec fn key_index(entries: Seq<(DataNode, DataNode)>, key: Seq<char>, from: int) -> int
    decreases entries.len() - from,
{
    if from < 0 || from >= entries.len() {
        -1
    } else if key_is(entries[from].0, key) {
        from
    } else {
        key_index(entries, key, from + 1)
    }
}

/// The value stored under a string key of a mapping; `None` for other nodes.
pub open spec fn field(n: DataNode, key: Seq<char>) -> Option<DataNode> {
    match n {
        DataNode::Mapping(entries) => {
            let i = key_index(entries@, key, 0);
            if i >= 0 {
                Some(entries@[i].1)
            } else {
                None
            }
        },
        _ => None,
    }
}

/// JSON-style indexing: a missing key or a non-mapping gives `Other` (null).
pub open spec fn index(n: DataNode, key: Seq<char>) -> DataNode {
    match field(n, key) {
        Some(v) => v,
        None => DataNode::Other,
    }
}

pub open spec fn has_key(n: DataNode, key: Seq<char>) -> bool {
    field(n, key) is Some
}

proof fn lemma_key_index(entries: Seq<(DataNode, DataNode)>, key: Seq<char>, from: int, r: int)
    requires
        0 <= from <= r <= entries.len(),
        forall|k: int| from <= k < r ==> !key_is(#[trigger] entries[k].0, key),
        r == entries.len() || key_is(entries[r].0, key),
    ensures
        key_index(entries, key, from) == (if r == entries.len() { -1 } else { r }),
    decreases r - from,
{
    if from < r {
        lemma_key_index(entries, key, from + 1, r);
    }
}

fn key_matches(k: &DataNode, key: &str) -> (r: bool)
    ensures
        r == key_is(*k, key@),
{
    match k {
        DataNode::Text(s) => eq_str(s.as_str(), key),
        _ => false,
    }
}

/// Looks up a string key of a mapping.
pub fn get_field<'a>(n: &'a DataNode, key: &str) -> (r: Option<&'a DataNode>)
    ensures
        match field(*n, key@) {
            Some(v) => r is Some && *r->0 == v,
            None => r is None,
        },
{
    match n {
        DataNode::Mapping(entries) => {
            let mut i: usize = 0;
            while i < entries.len()
                invariant
                    i <= entries.len(),
                    *n == DataNode::Mapping(*entries),
                    forall|k: int| 0 <= k < i ==> !key_is(#[trigger] entries@[k].0, key@),
                decreases entries.len() - i,
            {
                if key_matches(&entries[i].0, key) {
                    proof {
                        lemma_key_index(entries@, key@, 0, i as int);
                    }
                    let v = &entries[i].1;

                    return Some(v);
                }
                i = i + 1;
            }
            proof {
                lemma_key_index(entries@, key@, 0, i as int);
            }
            None
        },
        _ => None,
    }
}

pub fn contains_key(n: &DataNode, key: &str) -> (r: bool)
    ensures
        r == has_key(*n, key@),
{
    get_field(n, key).is_some()
}

} // verus!
