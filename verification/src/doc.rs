//! The parsed document tree that the topology parser consumes.
//!
//! The core is independent of any concrete configuration syntax: it reads an
//! opaque tree of scalar, sequence and mapping nodes. The tokenizer that
//! produces the tree from text is an external collaborator (see `yaml`).

use vstd::prelude::*;

verus! {

/// One node of a parsed document tree.
///
/// A mapping is an ordered list of key/value pairs; keys that matter to the
/// topology format are always string scalars. `Other` stands for any node
/// kind the topology format has no use for (non-string scalars, aliases),
/// so that a lookup against it fails the same way it does in the source
/// document.
#[derive(Debug)]
pub enum DocNode {
    /// An explicit null value.
    Null,
    /// A string scalar.
    Scalar(String),
    /// A sequence of nodes.
    Sequence(Vec<DocNode>),
    /// A mapping, as an ordered list of key/value pairs.
    Mapping(Vec<(DocNode, DocNode)>),
    /// A node of a kind the topology format does not use.
    Other,
}

/// The value under the first entry of `entries` whose key is the string
/// scalar `key`, if any.
pub open spec fn spec_lookup(entries: Seq<(DocNode, DocNode)>, key: Seq<char>) -> Option<DocNode>
    decreases entries.len(),
{
    if entries.len() == 0 {
        None
    } else {
        match entries[0].0 {
            DocNode::Scalar(k) => if k@ == key {
                Some(entries[0].1)
            } else {
                spec_lookup(entries.drop_first(), key)
            },
            _ => spec_lookup(entries.drop_first(), key),
        }
    }
}

/// Looks a string key up in a mapping's entry list.
pub fn lookup<'a>(entries: &'a Vec<(DocNode, DocNode)>, key: &String) -> (r: Option<
    &'a DocNode,
>)
    ensures
        match r {
            Some(v) => spec_lookup(entries@, key@) == Some(*v),
            None => spec_lookup(entries@, key@) is None,
        },
{
    let n = entries.len();
    let mut i: usize = 0;
    proof {
        assert(entries@.skip(0) =~= entries@);
    }
    while i < n
        invariant
            n == entries@.len(),
            i <= n,
            spec_lookup(entries@, key@) == spec_lookup(entries@.skip(i as int), key@),
        decreases n - i,
    {
        proof {
            assert(entries@.skip(i as int)[0] == entries@[i as int]);
            assert(entries@.skip(i as int).drop_first() =~= entries@.skip(i + 1));
        }
        match &entries[i].0 {
            DocNode::Scalar(k) => {
                if *k == *key {
                    return Some(&entries[i].1);
                }
            },
            _ => {},
        }
        proof {
            assert(spec_lookup(entries@.skip(i as int), key@) == spec_lookup(
                entries@.skip(i + 1),
                key@,
            ));
        }
        i += 1;
    }
    proof {
        assert(entries@.skip(n as int) =~= Seq::<(DocNode, DocNode)>::empty());
    }
    None
}

} // verus!
