//! The import resolver's decision half: given a node, which files its
//! `_import` directive names, resolved against the document's base
//! directory.  Loading the named files is the caller's work; the loaded
//! fragments come back to the parsers as plain values.

use vstd::prelude::*;

use crate::doc::{DocMap, DocValue, spec_map_get};
use crate::schema::{ImportError, SpecImportError, view_import_err};

verus! {

/// `base/path` for one import entry.
pub open spec fn spec_join_path(parent: Seq<char>, p: Seq<char>) -> Seq<char> {
    parent + "/"@ + p
}

/// The resolved paths of a sequence-valued `_import`: entries in order,
/// a non-string entry one per-entry failure.
pub open spec fn spec_detect_items(items: Seq<DocValue>, parent: Seq<char>) -> Seq<Result<Seq<char>, SpecImportError>>
    decreases items.len(),
{
    if items.len() == 0 {
        Seq::empty()
    } else {
        spec_detect_items(items.drop_last(), parent).push(
            match items.last() {
                DocValue::Str(p) => Ok(spec_join_path(parent, p@)),
                _ => Err(SpecImportError::InvalidImportValue),
            },
        )
    }
}

/// What the `_import` key of a node directs: nothing, one resolved path,
/// several in order, or a single invalid-value failure.
pub open spec fn spec_detect(entries: Seq<(DocValue, DocValue)>, parent: Seq<char>) -> Seq<
    Result<Seq<char>, SpecImportError>,
> {
    match spec_map_get(entries, "_import"@) {
        None => Seq::empty(),
        Some(DocValue::Str(p)) => Seq::empty().push(Ok(spec_join_path(parent, p@))),
        Some(DocValue::Array(items)) => spec_detect_items(items@, parent),
        Some(_) => Seq::empty().push(Err(SpecImportError::InvalidImportValue)),
    }
}

pub open spec fn view_paths(ps: Seq<Result<String, ImportError>>) -> Seq<Result<Seq<char>, SpecImportError>>
    decreases ps.len(),
{
    if ps.len() == 0 {
        Seq::empty()
    } else {
        view_paths(ps.drop_last()).push(
            match ps.last() {
                Ok(p) => Ok(p@),
                Err(e) => Err(view_import_err(e)),
            },
        )
    }
}

fn join_path(parent: &str, p: &str) -> (r: String)
    ensures
        r@ == spec_join_path(parent@, p@),
{
    parent.to_owned().concat("/").concat(p)
}

/// The resolved import paths of a node, in order (see [`spec_detect`]).
#[verifier::loop_isolation(false)]
pub fn detect(source: &DocMap, parent_path: &str) -> (r: Vec<Result<String, ImportError>>)
    ensures
        view_paths(r@) == spec_detect(source@, parent_path@),
{
    let mut found: Vec<Result<String, ImportError>> = Vec::new();
    proof {
        assert(view_paths(found@) =~= Seq::<Result<Seq<char>, SpecImportError>>::empty());
    }
    match crate::doc::map_get(source, "_import") {
        None => found,
        Some(DocValue::Str(p)) => {
            found.push(Ok(join_path(parent_path, p.as_str())));
            proof {
                assert(found@.drop_last() =~= Seq::<Result<String, ImportError>>::empty());
            }
            found
        },
        Some(DocValue::Array(items)) => {
            let n = items.len();
            let mut i: usize = 0;
            proof {
                assert(items@.subrange(0, 0) =~= Seq::<DocValue>::empty());
            }
            while i < n
                invariant
                    i <= n,
                    n == items@.len(),
                    view_paths(found@) == spec_detect_items(items@.subrange(0, i as int), parent_path@),
                decreases n - i,
            {
                let ghost pre = items@.subrange(0, i as int);
                let ghost post = items@.subrange(0, i as int + 1);
                proof {
                    assert(post.drop_last() =~= pre);
                    assert(post.last() == items@[i as int]);
                }
                let ghost foundv = found@;
                match &items[i] {
                    DocValue::Str(p) => {
                        found.push(Ok(join_path(parent_path, p.as_str())));
                    },
                    _ => {
                        found.push(Err(ImportError::InvalidImportValue));
                    },
                }
                proof {
                    assert(found@.drop_last() =~= foundv);
                }
                i += 1;
            }
            proof {
                assert(items@.subrange(0, n as int) =~= items@);
            }
            found
        },
        Some(_) => {
            found.push(Err(ImportError::InvalidImportValue));
            proof {
                assert(found@.drop_last() =~= Seq::<Result<String, ImportError>>::empty());
            }
            found
        },
    }
}

} // verus!
