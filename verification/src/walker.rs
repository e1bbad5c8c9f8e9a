//! What the directory walk decides: which file names are interesting, by an
//! extension allow-list, and the configuration the walk runs under. The
//! descent through the file system itself is the caller's business.

use vstd::prelude::*;

verus! {

/// The walk's configuration: the root directories to descend from, and the
/// file extensions that make a file a note file.
#[derive(Debug)]
pub struct Config {
    pub roots: Vec<String>,
    pub extensions: Vec<String>,
}

/// The built-in configuration: the two note directories and the four
/// accepted extensions.
pub fn default_config() -> (c: Config)
    ensures
        c.roots.deep_view() == seq!["/home/rski/Documents"@, "/home/rski/vimwiki"@],
        c.extensions.deep_view() == seq!["org"@, "vimwiki"@, "txt"@, "wiki"@],
{
    let roots = vec!["/home/rski/Documents".to_owned(), "/home/rski/vimwiki".to_owned()];
    let extensions = vec![
        "org".to_owned(),
        "vimwiki".to_owned(),
        "txt".to_owned(),
        "wiki".to_owned(),
    ];
    proof {
        assert(roots.deep_view() =~= seq!["/home/rski/Documents"@, "/home/rski/vimwiki"@]);
        assert(extensions.deep_view() =~= seq!["org"@, "vimwiki"@, "txt"@, "wiki"@]);
    }
    Config { roots, extensions }
}

/// The position of the last period in a file name, `-1` when it has none.
pub open spec fn last_dot(name: Seq<char>) -> int
    decreases name.len(),
{
    if name.len() == 0 {
        -1
    } else if name.last() == '.' {
        name.len() - 1
    } else {
        last_dot(name.drop_last())
    }
}

/// A file name's extension: what follows the last period, provided that the
/// period is neither absent nor the leading character of the name.
pub open spec fn extension_of(name: Seq<char>) -> Option<Seq<char>> {
    if last_dot(name) <= 0 {
        None
    } else {
        Some(name.skip(last_dot(name) + 1))
    }
}

proof fn lemma_last_dot_is(name: Seq<char>, i: int)
    requires
        -1 <= i < name.len(),
        i >= 0 ==> name[i] == '.',
        forall|j: int| i < j < name.len() ==> name[j] != '.',
    ensures
        last_dot(name) == i,
    decreases name.len(),
{
    if name.len() == 0 {
    } else if name.last() == '.' {
        assert(i == name.len() - 1);
    } else {
        assert(i < name.len() - 1);
        assert forall|j: int| i < j < name.drop_last().len() implies name.drop_last()[j]
            != '.' by {
            assert(name.drop_last()[j] == name[j]);
        }
        if i >= 0 {
            assert(name.drop_last()[i] == name[i]);
        }
        lemma_last_dot_is(name.drop_last(), i);
    }
}

/// A file name's extension, verified against [`extension_of`].
pub fn file_extension(name: &str) -> (r: Option<String>)
    ensures
        r.deep_view() == extension_of(name@),
{
    let n = name.unicode_len();
    let mut i: usize = n;
    while i > 0 && name.get_char(i - 1) != '.'
        invariant
            i <= n,
            n == name@.len(),
            forall|j: int| i <= j < n ==> name@[j] != '.',
        decreases i,
    {
        i = i - 1;
    }
    proof {
        lemma_last_dot_is(name@, i as int - 1);
    }
    if i <= 1 {
        None
    } else {
        proof {
            assert(name@.skip(i as int) =~= name@.subrange(i as int, n as int));
        }
        Some(name.substring_char(i, n).to_owned())
    }
}

/// Whether the allow-list takes this file name: its extension is present and
/// matches one of the accepted extensions exactly, case-sensitively.
pub fn interesting_file(name: &str, extensions: &Vec<String>) -> (b: bool)
    ensures
        b == match extension_of(name@) {
            None => false,
            Some(e) => extensions.deep_view().contains(e),
        },
{
    match file_extension(name) {
        None => false,
        Some(ext) => {
            let mut i: usize = 0;
            while i < extensions.len()
                invariant
                    i <= extensions@.len(),
                    extensions.deep_view().len() == extensions@.len(),
                    ext.deep_view() == ext@,
                    extension_of(name@) == Some(ext@),
                    forall|j: int| 0 <= j < i ==> extensions.deep_view()[j] != ext@,
                decreases extensions@.len() - i,
            {
                if ext == extensions[i] {
                    proof {
                        assert(extensions.deep_view()[i as int] == extensions@[i as int]@);
                    }
                    return true;
                }
                proof {
                    assert(extensions.deep_view()[i as int] == extensions@[i as int]@);
                }
                i = i + 1;
            }
            false
        },
    }
}

} // verus!
