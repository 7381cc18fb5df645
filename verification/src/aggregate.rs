//! Adding up the sizes of the files in a directory tree.
//!
//! The caller lists the tree into a `Node`; the sum is computed here. An
//! entry that the caller could not read stays in the tree as `Unreadable` and
//! counts for nothing, so that one bad entry does not cost the whole sum and
//! no byte is claimed that was not seen.

use vstd::prelude::*;

verus! {

/// An entry of a directory tree as the caller found it.
#[derive(Debug)]
pub enum Node {
    /// Anything that is not descended into, with its size in bytes.
    File { size: u64 },
    /// A directory with its entries.
    Dir { entries: Vec<Node> },
    /// An entry whose kind or size, or a directory whose listing, could not
    /// be read.
    Unreadable,
}

impl Node {
    /// The bytes held by this entry: a file's size, the weight of all the
    /// entries of a directory, nothing for what could not be read.
    pub open spec fn weight(self) -> nat
        decreases self,
    {
        match self {
            Node::File { size } => size as nat,
            Node::Dir { entries } => weight_of(entries@),
            Node::Unreadable => 0,
        }
    }
}

/// The bytes held by a sequence of entries.
pub open spec fn weight_of(entries: Seq<Node>) -> nat
    decreases entries,
{
    if entries.len() == 0 {
        0
    } else {
        weight_of(entries.drop_last()) + entries.last().weight()
    }
}

/// The size of the directory at a path that holds `root`: the weight of its
/// entries. A path that holds no directory, nothing at all or a file, has
/// size zero.
pub open spec fn directory_weight(root: Option<&Node>) -> nat {
    match root {
        Some(Node::Dir { entries }) => weight_of(entries@),
        _ => 0,
    }
}

/// The weight of the first entries is no more than the weight of all.
pub proof fn lemma_weight_of_prefix(entries: Seq<Node>, n: int)
    requires
        0 <= n <= entries.len(),
    ensures
        weight_of(entries.take(n)) <= weight_of(entries),
    decreases entries.len() - n,
{
    if n == entries.len() {
        assert(entries.take(n) =~= entries);
    } else {
        lemma_weight_of_prefix(entries.drop_last(), n);
        assert(entries.drop_last().take(n) =~= entries.take(n));
    }
}

impl Node {
    /// Computes the weight of this entry, or `None` where it does not fit in
    /// 64 bits.
    pub fn total(&self) -> (sum: Option<u64>)
        ensures
            match sum {
                Some(n) => n == self.weight(),
                None => self.weight() > u64::MAX,
            },
        decreases self,
    {
        match self {
            Node::File { size } => Some(*size),
            Node::Dir { entries } => total_of(entries),
            Node::Unreadable => Some(0),
        }
    }
}

/// Computes the weight of a list of entries, or `None` where it does not fit
/// in 64 bits.
pub fn total_of(entries: &Vec<Node>) -> (sum: Option<u64>)
    ensures
        match sum {
            Some(n) => n == weight_of(entries@),
            None => weight_of(entries@) > u64::MAX,
        },
    decreases entries,
{
    let mut sum: u64 = 0;
    let mut i: usize = 0;
    while i < entries.len()
        invariant
            i <= entries.len(),
            sum == weight_of(entries@.take(i as int)),
        decreases entries.len() - i,
    {
        proof {
            assert(entries@.take(i + 1).drop_last() =~= entries@.take(i as int));
            lemma_weight_of_prefix(entries@, i + 1);
        }
        let part: u64 = match entries[i].total() {
            Some(n) => n,
            None => {
                return None;
            },
        };
        sum = match sum.checked_add(part) {
            Some(n) => n,
            None => {
                return None;
            },
        };
        i = i + 1;
    }
    proof {
        assert(entries@.take(i as int) =~= entries@);
    }
    Some(sum)
}

/// Computes the size of the directory at a path that holds `root`, or `None`
/// where the size does not fit in 64 bits.
pub fn directory_size(root: Option<&Node>) -> (size: Option<u64>)
    ensures
        match size {
            Some(n) => n == directory_weight(root),
            None => directory_weight(root) > u64::MAX,
        },
{
    match root {
        Some(Node::Dir { entries }) => total_of(entries),
        _ => Some(0),
    }
}

} // verus!
