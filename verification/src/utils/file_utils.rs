//! Paths read as text: file name, extension, stem, and the way from one path
//! to another.
//!
//! A path is a sequence of components separated by `/`. Separators at the
//! end of a path, and components `.` at its end, do not count: `a/b`,
//! `a/b/`, `a/b/.` and `a/b//` all end in the component `b`. The file name
//! of a path is its last component, unless that is `..` or `.` or empty.

use crate::index::symbols::text_of;
use crate::text::{str_eq, to_chars};
use vstd::prelude::*;
use vstd::string::{StrSliceExecFns, StringExecFns};

verus! {

/// The index of the last `c` in `s`, or -1 where `s` holds none.
pub open spec fn last_index_of(s: Seq<char>, c: char) -> int
    decreases s.len(),
{
    if s.len() == 0 {
        -1
    } else if s.last() == c {
        s.len() - 1
    } else {
        last_index_of(s.drop_last(), c)
    }
}

/// Where the last component of a text starts: after its last `/`.
pub open spec fn file_name_start(path: Seq<char>) -> int {
    last_index_of(path, '/') + 1
}

/// What follows the last `/` of a text.
pub open spec fn last_component(path: Seq<char>) -> Seq<char> {
    path.skip(file_name_start(path))
}

/// The length of a path without the separators and the components `.` at
/// its end. A path that is `.` alone keeps it.
pub open spec fn trimmed_len(path: Seq<char>) -> int
    decreases path.len(),
{
    if path.len() == 0 {
        0
    } else if path.last() == '/' {
        trimmed_len(path.drop_last())
    } else if path.len() >= 2 && path.last() == '.' && path[path.len() - 2] == '/' {
        trimmed_len(path.take(path.len() - 2))
    } else {
        path.len() as int
    }
}

/// A path without the separators and the components `.` at its end.
pub open spec fn trimmed(path: Seq<char>) -> Seq<char> {
    path.take(trimmed_len(path))
}

/// The last component of a path, separators and components `.` at its end
/// left aside.
pub open spec fn file_name_of(path: Seq<char>) -> Seq<char> {
    last_component(trimmed(path))
}

/// What is trimmed off a path is taken from its end.
pub proof fn lemma_trimmed_len(path: Seq<char>)
    ensures
        0 <= trimmed_len(path) <= path.len(),
    decreases path.len(),
{
    if path.len() > 0 {
        if path.last() == '/' {
            lemma_trimmed_len(path.drop_last());
        } else if path.len() >= 2 && path.last() == '.' && path[path.len() - 2] == '/' {
            lemma_trimmed_len(path.take(path.len() - 2));
        }
    }
}

/// Where the dot that starts the extension stands in the file name `name`,
/// or `None` where the name has no extension: it has no dot, or its only
/// dot is its first character, or it is `..`.
pub open spec fn extension_dot(name: Seq<char>) -> Option<int> {
    let dot = last_index_of(name, '.');
    if dot <= 0 || name == seq!['.', '.'] {
        None
    } else {
        Some(dot)
    }
}

/// A separator at the end of a path changes neither its file name nor its
/// extension nor its stem.
pub proof fn lemma_trailing_separator(path: Seq<char>)
    ensures
        trimmed(path.push('/')) == trimmed(path),
        file_name_of(path.push('/')) == file_name_of(path),
        extension_of(path.push('/')) == extension_of(path),
        stem_of(path.push('/')) == stem_of(path),
{
    lemma_trimmed_len(path);
    assert(path.push('/').drop_last() =~= path);
    assert(path.push('/').take(trimmed_len(path)) =~= path.take(trimmed_len(path)));
}

/// A component `.` at the end of a path that holds more than it changes
/// neither the file name nor the extension nor the stem of the path.
pub proof fn lemma_trailing_dot(path: Seq<char>)
    ensures
        trimmed(path.push('/').push('.')) == trimmed(path),
        file_name_of(path.push('/').push('.')) == file_name_of(path),
        extension_of(path.push('/').push('.')) == extension_of(path),
        stem_of(path.push('/').push('.')) == stem_of(path),
{
    lemma_trimmed_len(path);
    let longer = path.push('/').push('.');
    assert(longer.take(longer.len() - 2) =~= path);
    assert(longer.take(trimmed_len(path)) =~= path.take(trimmed_len(path)));
}

/// The extension of a path, without its dot: what follows the last dot of
/// the file name.
pub open spec fn extension_of(path: Seq<char>) -> Option<Seq<char>> {
    let name = file_name_of(path);
    match extension_dot(name) {
        Some(dot) => Some(name.skip(dot + 1)),
        None => None,
    }
}

/// The stem of a path: the file name without its extension and the dot
/// before it. A path whose last component is empty, `.` or `..` has none.
pub open spec fn stem_of(path: Seq<char>) -> Option<Seq<char>> {
    let name = file_name_of(path);
    if name.len() == 0 || name == seq!['.'] || name == seq!['.', '.'] {
        None
    } else {
        match extension_dot(name) {
            Some(dot) => Some(name.take(dot)),
            None => Some(name),
        }
    }
}

/// The index of the last `c` at or after index `from` in `v`.
pub fn find_last(v: &Vec<char>, from: usize, c: char) -> (r: Option<usize>)
    requires
        from <= v@.len(),
    ensures
        match r {
            Some(k) => from <= k < v@.len() && last_index_of(v@.skip(from as int), c) == k - from,
            None => last_index_of(v@.skip(from as int), c) == -1,
        },
{
    let ghost s = v@.skip(from as int);
    let mut found: Option<usize> = None;
    let mut i: usize = from;
    assert(s.take(0) =~= Seq::<char>::empty());
    while i < v.len()
        invariant
            from <= i <= v@.len(),
            s == v@.skip(from as int),
            match found {
                Some(k) => from <= k < i && last_index_of(s.take(i - from), c) == k - from,
                None => last_index_of(s.take(i - from), c) == -1,
            },
        decreases v.len() - i,
    {
        assert(s.take(i + 1 - from).drop_last() =~= s.take(i - from));
        assert(s.take(i + 1 - from).last() == v@[i as int]);
        if v[i] == c {
            found = Some(i);
        }
        i += 1;
    }
    assert(s.take(s.len() as int) =~= s);
    found
}

/// Where the last component starts in the characters `v`, and where the dot
/// of its extension stands, if it has one.
pub fn split_name(v: &Vec<char>) -> (r: (usize, Option<usize>))
    ensures
        r.0 == file_name_start(v@),
        r.0 <= v@.len(),
        match r.1 {
            Some(dot) => r.0 < dot < v@.len() && extension_dot(last_component(v@)) == Some(
                dot - r.0,
            ),
            None => extension_dot(last_component(v@)) is None,
        },
{
    let total = v.len();
    let start: usize = match find_last(v, 0, '/') {
        Some(k) => k + 1,
        None => 0,
    };
    assert(v@.skip(0) =~= v@);
    let ghost name = v@.skip(start as int);
    let dot = match find_last(v, start, '.') {
        Some(k) => k,
        None => {
            return (start, None);
        },
    };
    if dot == start {
        return (start, None);
    }
    if total - start == 2 && v[start] == '.' && v[start + 1] == '.' {
        assert(name =~= seq!['.', '.']);
        return (start, None);
    }
    assert(name != seq!['.', '.']) by {
        if name == seq!['.', '.'] {
            assert(name.len() == 2);
            assert(name[0] == '.' && name[1] == '.');
        }
    }
    (start, Some(dot))
}

/// The length of the characters `v` of a path without the separators and
/// the components `.` at its end.
pub fn trim_end(v: &Vec<char>) -> (n: usize)
    ensures
        n == trimmed_len(v@),
        n <= v@.len(),
{
    let mut n: usize = v.len();
    assert(v@.take(n as int) =~= v@);
    loop
        invariant
            n <= v@.len(),
            trimmed_len(v@) == trimmed_len(v@.take(n as int)),
        decreases n,
    {
        let ghost now = v@.take(n as int);
        if n == 0 {
            return 0;
        } else if v[n - 1] == '/' {
            assert(now.drop_last() =~= v@.take(n - 1));
            n -= 1;
        } else if n >= 2 && v[n - 1] == '.' && v[n - 2] == '/' {
            assert(now.take(now.len() - 2) =~= v@.take(n - 2));
            n -= 2;
        } else {
            return n;
        }
    }
}

/// The characters of a path without the separators and the components `.`
/// at its end.
pub fn trimmed_chars(path: &str) -> (r: Vec<char>)
    ensures
        r@ == trimmed(path@),
        r@ == path@.take(r@.len() as int),
        r@.len() <= path@.len(),
{
    let v = to_chars(path);
    let n = trim_end(&v);
    let mut out: Vec<char> = Vec::new();
    let mut i: usize = 0;
    while i < n
        invariant
            i <= n <= v@.len(),
            out@ == v@.take(i as int),
        decreases n - i,
    {
        out.push(v[i]);
        assert(out@ =~= v@.take(i + 1));
        i += 1;
    }
    out
}

/// The extension of the file at `path`, without its dot.
pub fn get_extension(path: &str) -> (r: Option<String>)
    ensures
        text_of(r) == extension_of(path@),
{
    let v = trimmed_chars(path);
    let (start, dot) = split_name(&v);
    match dot {
        Some(d) => {
            let n = v.len();
            let e = path.substring_char(d + 1, n).to_owned();
            assert(path@.subrange(d + 1, n as int) =~= v@.subrange(d + 1, n as int));
            assert(v@.subrange(d + 1, n as int) =~= file_name_of(path@).skip(d - start + 1));
            Some(e)
        },
        None => None,
    }
}

/// The path has an extension and `extensions` holds it, written with its
/// dot.
pub open spec fn extension_among(path: Seq<char>, extensions: Seq<String>) -> bool {
    match extension_of(path) {
        Some(e) => exists|k: int|
            0 <= k < extensions.len() && (#[trigger] extensions[k])@ == seq!['.'] + e,
        None => false,
    }
}

/// Whether the file at `path` has one of the extensions `extensions`, each
/// written with its dot.
#[verifier::loop_isolation(false)]
pub fn has_extension(path: &str, extensions: &Vec<String>) -> (b: bool)
    ensures
        b == extension_among(path@, extensions@),
{
    match get_extension(path) {
        Some(e) => {
            let mut dotted = ".".to_owned();
            dotted.append(e.as_str());
            proof {
                reveal_strlit(".");
                assert(dotted@ =~= seq!['.'] + e@);
            }
            let mut k: usize = 0;
            while k < extensions.len()
                invariant
                    k <= extensions.len(),
                    forall|j: int| 0 <= j < k ==> (#[trigger] extensions@[j])@ != dotted@,
                decreases extensions.len() - k,
            {
                if str_eq(extensions[k].as_str(), dotted.as_str()) {
                    assert(extensions@[k as int]@ == seq!['.'] + e@);
                    return true;
                }
                k += 1;
            }
            false
        },
        None => false,
    }
}

/// The name of the file at `path` without its extension.
pub fn get_stem(path: &str) -> (r: Option<String>)
    ensures
        text_of(r) == stem_of(path@),
{
    let v = trimmed_chars(path);
    let (start, dot) = split_name(&v);
    let ghost name = file_name_of(path@);
    let n = v.len();
    if start == n {
        return None;
    }
    match dot {
        Some(d) => {
            assert(name != seq!['.']) by {
                if name == seq!['.'] {
                    assert(name.len() == 1);
                }
            }
            let s = path.substring_char(start, d).to_owned();
            assert(path@.subrange(start as int, d as int) =~= v@.subrange(start as int, d as int));
            assert(v@.subrange(start as int, d as int) =~= name.take(d - start));
            Some(s)
        },
        None => {
            if n - start == 2 && v[start] == '.' && v[start + 1] == '.' {
                assert(name =~= seq!['.', '.']);
                None
            } else if n - start == 1 && v[start] == '.' {
                assert(name =~= seq!['.']);
                None
            } else {
                assert(name != seq!['.', '.']) by {
                    if name == seq!['.', '.'] {
                        assert(name.len() == 2);
                        assert(name[0] == '.' && name[1] == '.');
                    }
                }
                assert(name != seq!['.']) by {
                    if name == seq!['.'] {
                        assert(name.len() == 1);
                        assert(name[0] == '.');
                    }
                }
                let s = path.substring_char(start, n).to_owned();
                assert(path@.subrange(start as int, n as int) =~= v@.subrange(
                    start as int,
                    n as int,
                ));
                assert(v@.subrange(start as int, n as int) =~= name);
                Some(s)
            }
        },
    }
}

/// The relative path that leads from the directory `from` to the path `to`,
/// as the path-difference routine of the crate `pathdiff` computes it from
/// the two texts; `None` where it finds none, or where the result is no
/// valid text.
pub uninterp spec fn relative_path(from: Seq<char>, to: Seq<char>) -> Option<Seq<char>>;

/// `pathdiff::diff_paths`: the way from `from` to `to`. The routine reads
/// only the two paths it is given, by the path rules of the platform that
/// the library is built for; the contract names its result.
#[verifier::external_body]
fn diff_paths(from: &str, to: &str) -> (r: Option<String>)
    ensures
        text_of(r) == relative_path(from@, to@),
{
    match pathdiff::diff_paths(to, from) {
        Some(p) => p.to_str().map(|s| s.to_string()),
        None => None,
    }
}

/// The relative path that leads from `from` to `to`.
pub fn get_relative_path(from: &str, to: &str) -> (r: Option<String>)
    ensures
        text_of(r) == relative_path(from@, to@),
{
    diff_paths(from, to)
}

} // verus!
