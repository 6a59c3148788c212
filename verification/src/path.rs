//! File names and extensions of `/`-separated paths.

use crate::text::{chars_of, collect, last_index_of, lemma_last_index_of, opt_view, rfind};
use vstd::prelude::*;

verus! {

/// The final segment of `path`: what follows its last `/`, or all of it
/// where it holds none.
pub open spec fn file_name(path: Seq<char>) -> Seq<char> {
    path.skip(last_index_of(path, '/') + 1)
}

/// The extension of a file name: what follows its last `.`. A name without
/// a `.`, a name whose only `.` is its first character, and the name `..`
/// have none. A name that ends in `.` has the empty extension.
pub open spec fn extension(name: Seq<char>) -> Option<Seq<char>> {
    let k = last_index_of(name, '.');
    if k <= 0 || name == seq!['.', '.'] {
        None
    } else {
        Some(name.skip(k + 1))
    }
}

/// The extension of the file that `path` names.
pub open spec fn path_extension(path: Seq<char>) -> Option<Seq<char>> {
    extension(file_name(path))
}

/// Where in `chars` the file name starts.
pub fn name_start(chars: &Vec<char>) -> (r: usize)
    ensures
        r <= chars.len(),
        chars@.skip(r as int) == file_name(chars@),
{
    assert(chars@.subrange(0, chars.len() as int) =~= chars@);
    match rfind(chars, 0, chars.len(), '/') {
        Some(k) => k + 1,
        None => 0,
    }
}

/// Where in `chars` the extension of the name `chars[from..]` starts, if the
/// name has one.
pub fn extension_start(chars: &Vec<char>, from: usize) -> (r: Option<usize>)
    requires
        from <= chars.len(),
    ensures
        match r {
            Some(e) => from < e <= chars.len() && extension(chars@.skip(from as int)) == Some(
                chars@.skip(e as int),
            ),
            None => extension(chars@.skip(from as int)) is None,
        },
{
    let n = chars.len();
    let ghost name = chars@.skip(from as int);
    assert(chars@.subrange(from as int, n as int) =~= name);
    match rfind(chars, from, n, '.') {
        Some(k) => {
            if k == from || (n - from == 2 && chars[from] == '.') {
                proof {
                    if k != from {
                        lemma_last_index_of(name, '.');
                        assert(name[1] == '.');
                        assert(name =~= seq!['.', '.']);
                    }
                }
                None
            } else {
                proof {
                    if name.len() == 2 {
                        assert(name[0] != '.');
                        assert(seq!['.', '.'][0] == '.');
                    }
                    assert(name.skip(k - from + 1) =~= chars@.skip(k + 1));
                }
                Some(k + 1)
            }
        },
        None => None,
    }
}

/// The file name of `path`.
pub fn file_name_of(path: &str) -> (r: String)
    ensures
        r@ == file_name(path@),
{
    let chars = chars_of(path);
    let start = name_start(&chars);
    assert(chars@.subrange(start as int, chars.len() as int) =~= chars@.skip(start as int));
    collect(&chars, start, chars.len())
}

/// The extension of the file that `path` names, if it has one.
pub fn extension_of(path: &str) -> (r: Option<String>)
    ensures
        opt_view(r) == path_extension(path@),
{
    let chars = chars_of(path);
    let start = name_start(&chars);
    match extension_start(&chars, start) {
        Some(e) => {
            assert(chars@.subrange(e as int, chars.len() as int) =~= chars@.skip(e as int));
            Some(collect(&chars, e, chars.len()))
        },
        None => None,
    }
}

} // verus!
