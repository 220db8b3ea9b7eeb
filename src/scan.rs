//! The decisions a directory scan makes on each entry: which children of the
//! root are walked, and how one file is folded into the table.

use vstd::prelude::*;
use crate::ext_key::{ext_key_of, extension_key};
use crate::table::{AggregationTable, fold_spec};

verus! {

/// A child of the root is walked when it is a directory whose name does not
/// start with `.`; a name that is not valid text counts as not hidden.
pub open spec fn keep_subdir_spec(is_dir: bool, name: Option<&str>) -> bool {
    is_dir && !(name matches Some(n) && n@.len() > 0 && n@[0] == '.')
}

/// Whether a child of the root is one of the subdirectories to walk.
pub fn keep_subdir(is_dir: bool, name: Option<&str>) -> (r: bool)
    ensures
        r == keep_subdir_spec(is_dir, name),
{
    if !is_dir {
        return false;
    }
    match name {
        Some(n) => {
            if n.unicode_len() == 0 {
                true
            } else {
                n.get_char(0) != '.'
            }
        },
        None => true,
    }
}

/// Folds one regular file into the table under the extension key of its
/// name. A file whose name is not valid text is not counted. Returns `false`,
/// with the table unchanged, only where the entry of the key would leave
/// `u64`.
pub fn aggregate_by_ext(table: &mut AggregationTable, file_name: Option<&str>, size: u64) -> (r:
    bool)
    requires
        old(table).wf(),
    ensures
        final(table).wf(),
        match file_name {
            None => r && final(table)@ == old(table)@,
            Some(n) => {
                &&& r == old(table).can_fold_spec(ext_key_of(n@), size as nat)
                &&& r ==> final(table)@ == fold_spec(old(table)@, ext_key_of(n@), size as nat)
                &&& !r ==> final(table)@ == old(table)@
            },
        },
{
    match file_name {
        None => true,
        Some(n) => {
            let key = extension_key(n);
            if table.can_fold(&key, size) {
                table.fold(key, size);
                true
            } else {
                false
            }
        },
    }
}

} // verus!
