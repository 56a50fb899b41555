//! The document tree handed to the parsers.
//!
//! A loaded schema document is a tree of plain values: mappings with
//! ordered entries, sequences, and scalars.  The loader that produces it
//! from raw bytes is outside the library; every parser here consumes this
//! type only.

use vstd::prelude::*;

verus! {

/// One node of a loaded document: a scalar, a sequence, or a mapping
/// whose entries keep their source order.  Keys are nodes themselves
/// because mapping keys may be strings or integers.
#[derive(Debug, PartialEq)]
pub enum DocValue {
    Str(String),
    Int(i64),
    Bool(bool),
    /// Mapping entries in source order.
    Hash(Vec<(DocValue, DocValue)>),
    Array(Vec<DocValue>),
    /// Any scalar kind the parsers never read (null, floating point, ...).
    Other,
}

/// The entry list of a mapping node.
pub type DocMap = Vec<(DocValue, DocValue)>;

/// First value bound to the string key `key`, if any.
pub open spec fn spec_map_get(entries: Seq<(DocValue, DocValue)>, key: Seq<char>) -> Option<DocValue>
    decreases entries.len(),
{
    if entries.len() == 0 {
        None
    } else {
        match entries[0].0 {
            DocValue::Str(k) => if k@ == key {
                Some(entries[0].1)
            } else {
                spec_map_get(entries.drop_first(), key)
            },
            _ => spec_map_get(entries.drop_first(), key),
        }
    }
}

pub open spec fn spec_map_has(entries: Seq<(DocValue, DocValue)>, key: Seq<char>) -> bool {
    spec_map_get(entries, key) is Some
}

/// Whether two strings hold the same characters.
pub fn str_eq(a: &str, b: &str) -> (r: bool)
    ensures
        r == (a@ == b@),
{
    let an = a.unicode_len();
    let bn = b.unicode_len();
    if an != bn {
        proof {
            assert(a@ != b@) by {
                assert(a@.len() != b@.len());
            }
        }
        return false;
    }
    let mut i: usize = 0;
    while i < an
        invariant
            i <= an,
            an == a@.len(),
            an == b@.len(),
            forall|j: int| 0 <= j < i ==> a@[j] == b@[j],
        decreases an - i,
    {
        if a.get_char(i) != b.get_char(i) {
            return false;
        }
        i += 1;
    }
    proof {
        assert(a@ =~= b@);
    }
    true
}

/// First value bound to the string key `key`, searching entries in order.
pub fn map_get<'a>(entries: &'a DocMap, key: &str) -> (r: Option<&'a DocValue>)
    ensures
        match r {
            Some(v) => spec_map_get(entries@, key@) == Some(*v),
            None => spec_map_get(entries@, key@) is None,
        },
{
    let n = entries.len();
    let mut i: usize = 0;
    proof {
        assert(entries@.subrange(0, n as int) =~= entries@);
    }
    while i < n
        invariant
            i <= n,
            n == entries@.len(),
            spec_map_get(entries@, key@) == spec_map_get(entries@.subrange(i as int, n as int), key@),
        decreases n - i,
    {
        let ghost pre = entries@.subrange(i as int, n as int);
        proof {
            assert(pre[0] == entries@[i as int]);
            assert(pre.drop_first() =~= entries@.subrange(i as int + 1, n as int));
        }
        match &entries[i].0 {
            DocValue::Str(k) => {
                if str_eq(k.as_str(), key) {
                    return Some(&entries[i].1);
                }
            },
            _ => {},
        }
        i += 1;
    }
    proof {
        assert(entries@.subrange(n as int, n as int).len() == 0);
    }
    None
}

/// Whether the mapping binds the string key `key`.
pub fn map_has(entries: &DocMap, key: &str) -> (r: bool)
    ensures
        r == spec_map_has(entries@, key@),
{
    map_get(entries, key).is_some()
}

} // verus!
