//! The extension filter that directory discovery applies.
//!
//! Discovery walks a directory tree and keeps the files whose extension is
//! on a small fixed allow-list of plain-text log extensions.  The walk
//! itself is I/O and lives outside the crate; it consults this filter for
//! every file it encounters.

use vstd::prelude::*;

use crate::record::{base_name, last_index_of, lemma_last_index_in_range};

verus! {

/// The file name has an extension (a `.` that is not its first character)
/// and that extension is `txt` or `log`.
pub open spec fn has_log_extension(name: Seq<char>) -> bool {
    match last_index_of(name, '.') {
        None => false,
        Some(k) => k > 0 && (name.subrange(k + 1, name.len() as int) == seq!['t', 'x', 't']
            || name.subrange(k + 1, name.len() as int) == seq!['l', 'o', 'g']),
    }
}

/// Whether discovery keeps the file at `path`: its base name carries one of
/// the allowed log extensions.
pub open spec fn is_log_path(path: Seq<char>) -> bool {
    has_log_extension(base_name(path))
}

/// Exec form of the discovery filter.
pub fn is_log_file(path: &str) -> (r: bool)
    ensures
        r == is_log_path(path@),
{
    let name = crate::record::file_base_name(path);
    let s = name.as_str();
    let n = s.unicode_len();
    match crate::record::find_last(s, '.') {
        None => false,
        Some(k) => {
            proof {
                lemma_last_index_in_range(s@, '.');
            }
            if k == 0 {
                return false;
            }
            if n - (k + 1) == 3 {
                let c0 = s.get_char(k + 1);
                let c1 = s.get_char(k + 2);
                let c2 = s.get_char(k + 3);
                let is_txt = c0 == 't' && c1 == 'x' && c2 == 't';
                let is_log = c0 == 'l' && c1 == 'o' && c2 == 'g';
                proof {
                    let ext = s@.subrange(k + 1, s@.len() as int);
                    assert(ext.len() == 3);
                    assert(ext[0] == s@[k + 1] && ext[1] == s@[k + 2] && ext[2] == s@[k + 3]);
                    if is_txt {
                        assert(ext =~= seq!['t', 'x', 't']);
                    } else {
                        assert(ext != seq!['t', 'x', 't']);
                    }
                    if is_log {
                        assert(ext =~= seq!['l', 'o', 'g']);
                    } else {
                        assert(ext != seq!['l', 'o', 'g']);
                    }
                }
                is_txt || is_log
            } else {
                proof {
                    let ext = s@.subrange(k + 1, s@.len() as int);
                    assert(ext.len() != 3);
                }
                false
            }
        },
    }
}

} // verus!
