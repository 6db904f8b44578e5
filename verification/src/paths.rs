//! Paths as text: their components, and what the standard library says of them.
use crate::text::{chars_of, last_index_of, lemma_last_index_of};
use vstd::prelude::*;
use vstd::string::*;

verus! {

/// What a path leads through: whether it starts at the root, and the names on the way.
#[verifier::ext_equal]
pub struct PathParts {
    pub rooted: bool,
    pub names: Seq<Seq<char>>,
}

/// The names that slashes separate. Empty ones do not count, nor does a single dot but
/// at the very beginning.
pub open spec fn names_of(path: Seq<char>) -> Seq<Seq<char>>
    decreases path.len(),
    via names_of_decreases
{
    let slash = last_index_of(path, '/');
    let last = path.skip(slash + 1);
    let head = if slash >= 0 {
        names_of(path.take(slash))
    } else {
        Seq::empty()
    };
    if last.len() == 0 || (last == seq!['.'] && slash >= 0) {
        head
    } else {
        head.push(last)
    }
}

#[via_fn]
proof fn names_of_decreases(path: Seq<char>) {
    lemma_last_index_of(path, '/');
}

/// The components of a path.
pub open spec fn parts_of(path: Seq<char>) -> PathParts {
    PathParts { rooted: path.len() > 0 && path[0] == '/', names: names_of(path) }
}

/// The last component of a path, where that is a name and not a step upwards.
pub open spec fn final_name(path: Seq<char>) -> Option<Seq<char>> {
    let names = names_of(path);
    if names.len() == 0 || names.last() == seq!['.', '.'] {
        None
    } else {
        Some(names.last())
    }
}

/// What a list of names holds.
spec fn char_views(s: Seq<Vec<char>>) -> Seq<Seq<char>> {
    s.map_values(|v: Vec<char>| v@)
}

proof fn lemma_last_slash(s: Seq<char>, start: int, end: int)
    requires
        0 <= start <= end <= s.len(),
        start == 0 || s[start - 1] == '/',
        forall|k: int| start <= k < end ==> #[trigger] s[k] != '/',
    ensures
        last_index_of(s.take(end), '/') == start - 1,
{
    let t = s.take(end);
    lemma_last_index_of(t, '/');
    if start > 0 {
        assert(t[start - 1] == '/');
    }
    if last_index_of(t, '/') >= start {
        assert(s[last_index_of(t, '/')] == '/');
    }
}

/// Adds the name between two places, where it counts.
fn push_name(names: &mut Vec<Vec<char>>, chars: &Vec<char>, start: usize, end: usize)
    requires
        start <= end <= chars.len(),
        start == 0 || chars@[start - 1] == '/',
        forall|k: int| start <= k < end ==> #[trigger] chars@[k] != '/',
        char_views(old(names)@) == (if start == 0 {
            Seq::empty()
        } else {
            names_of(chars@.take(start - 1))
        }),
    ensures
        char_views(final(names)@) == names_of(chars@.take(end as int)),
{
    let ghost s = chars@;
    let ghost before = char_views(names@);
    proof {
        lemma_last_slash(s, start as int, end as int);
        let t = s.take(end as int);
        assert(t.skip(start as int) =~= s.subrange(start as int, end as int));
        if start > 0 {
            assert(t.take(start - 1) =~= s.take(start - 1));
        }
        let dot = s.subrange(start as int, end as int);
        assert(dot == seq!['.'] <==> dot.len() == 1 && dot[0] == '.') by {
            if dot.len() == 1 && dot[0] == '.' {
                assert(dot =~= seq!['.']);
            }
        }
    }
    if start == end || (start > 0 && end - start == 1 && chars[start] == '.') {
        return;
    }
    let mut name: Vec<char> = Vec::new();
    let mut k: usize = start;
    while k < end
        invariant
            start <= k <= end <= chars.len(),
            s == chars@,
            name@ == s.subrange(start as int, k as int),
        decreases end - k,
    {
        name.push(chars[k]);
        assert(s.subrange(start as int, k + 1) =~= s.subrange(start as int, k as int).push(
            s[k as int],
        ));
        k += 1;
    }
    names.push(name);
    assert(char_views(names@) =~= before.push(name@));
}

fn split_names(path: &str) -> (names: Vec<Vec<char>>)
    ensures
        char_views(names@) == names_of(path@),
{
    let chars: Vec<char> = chars_of(path);
    let n: usize = chars.len();
    let mut names: Vec<Vec<char>> = Vec::new();
    assert(char_views(names@) =~= Seq::empty());
    let mut start: usize = 0;
    let mut j: usize = 0;
    while j < n
        invariant
            start <= j <= n,
            n == chars.len(),
            chars@ == path@,
            start == 0 || chars@[start - 1] == '/',
            forall|k: int| start <= k < j ==> #[trigger] chars@[k] != '/',
            char_views(names@) == (if start == 0 {
                Seq::empty()
            } else {
                names_of(chars@.take(start - 1))
            }),
        decreases n - j,
    {
        if chars[j] == '/' {
            push_name(&mut names, &chars, start, j);
            start = j + 1;
        }
        j += 1;
    }
    push_name(&mut names, &chars, start, n);
    assert(chars@.take(n as int) =~= path@);
    names
}

fn same_chars(a: &Vec<char>, b: &Vec<char>) -> (res: bool)
    ensures
        res == (a@ == b@),
{
    if a.len() != b.len() {
        return false;
    }
    let mut i: usize = 0;
    while i < a.len()
        invariant
            i <= a.len(),
            a.len() == b.len(),
            forall|k: int| 0 <= k < i ==> a@[k] == b@[k],
        decreases a.len() - i,
    {
        if a[i] != b[i] {
            assert(a@[i as int] != b@[i as int]);
            return false;
        }
        i += 1;
    }
    assert(a@ =~= b@);
    true
}

fn starts_at_root(path: &str) -> (res: bool)
    ensures
        res == parts_of(path@).rooted,
{
    let chars: Vec<char> = chars_of(path);
    chars.len() > 0 && chars[0] == '/'
}

/// Whether two paths have the same components, however they are written: repeated and
/// trailing slashes and single dots make no difference. Slashes alone separate.
pub fn same_path(a: &str, b: &str) -> (res: bool)
    ensures
        res == (parts_of(a@) == parts_of(b@)),
{
    let x: Vec<Vec<char>> = split_names(a);
    let y: Vec<Vec<char>> = split_names(b);
    let ghost p = names_of(a@);
    let ghost q = names_of(b@);
    assert(p.len() == x.len() && q.len() == y.len());
    if starts_at_root(a) != starts_at_root(b) || x.len() != y.len() {
        return false;
    }
    let mut i: usize = 0;
    while i < x.len()
        invariant
            i <= x.len(),
            x.len() == y.len(),
            p == char_views(x@),
            q == char_views(y@),
            p == names_of(a@),
            q == names_of(b@),
            forall|k: int| 0 <= k < i ==> #[trigger] p[k] == q[k],
        decreases x.len() - i,
    {
        assert(p[i as int] == x@[i as int]@ && q[i as int] == y@[i as int]@);
        if !same_chars(&x[i], &y[i]) {
            return false;
        }
        i += 1;
    }
    assert(p =~= q);
    true
}

/// The part of a path after its last slash.
pub open spec fn name_part(path: Seq<char>) -> Seq<char> {
    path.skip(last_index_of(path, '/') + 1)
}

/// The directory that a path names: what stands before its last slash, the root
/// where that slash is the first character, and nothing where there is none.
pub open spec fn dir_part(path: Seq<char>) -> Seq<char> {
    let slash = last_index_of(path, '/');
    if slash > 0 {
        path.take(slash)
    } else if slash == 0 {
        path.take(1)
    } else {
        Seq::empty()
    }
}

/// A text without slashes and backslashes.
pub open spec fn is_plain_text(s: Seq<char>) -> bool {
    forall|i: int| 0 <= i < s.len() ==> #[trigger] s[i] != '/' && s[i] != '\\'
}

/// A name that is an ordinary file name on every platform.
pub open spec fn is_plain_name(name: Seq<char>) -> bool {
    &&& name.len() > 0
    &&& name != seq!['.']
    &&& name != seq!['.', '.']
    &&& is_plain_text(name)
}

/// The path begins like one with a drive.
pub open spec fn has_drive(path: Seq<char>) -> bool {
    path.len() >= 2 && path[1] == ':' && path[0] != '/'
}

/// A path that every platform reads alike: without backslashes, without a drive, and
/// without two slashes at its beginning.
pub open spec fn is_common_path(path: Seq<char>) -> bool {
    &&& forall|i: int| 0 <= i < path.len() ==> #[trigger] path[i] != '\\'
    &&& !has_drive(path)
    &&& !(path.len() >= 2 && path[0] == '/' && path[1] == '/')
}

/// A directory written without backslashes, doubled or trailing slashes, and without a
/// component that is a single dot.
pub open spec fn is_plain_dir(dir: Seq<char>) -> bool {
    &&& dir.len() > 0
    &&& dir.last() != '/'
    &&& forall|i: int| 0 <= i < dir.len() ==> #[trigger] dir[i] != '\\'
    &&& forall|i: int|
        0 <= i < dir.len() - 1 ==> !(#[trigger] dir[i] == '/' && dir[i + 1] == '/')
    &&& forall|i: int|
        0 <= i < dir.len() && #[trigger] dir[i] == '.' ==> (i > 0 && dir[i - 1] != '/') || (i + 1
            < dir.len() && dir[i + 1] != '/')
}

/// A plain name alone, below the root, or below a plain directory, without a drive.
pub open spec fn is_plain_path(path: Seq<char>) -> bool {
    &&& is_plain_name(name_part(path))
    &&& last_index_of(path, '/') <= 0 || is_plain_dir(dir_part(path))
    &&& !has_drive(path)
}

/// A plain path whose name does not begin with two dots.
pub open spec fn is_plain_file(path: Seq<char>) -> bool {
    let name = name_part(path);
    is_plain_path(path) && !(name.len() >= 2 && name[0] == '.' && name[1] == '.')
}

/// Every platform reads a plain path alike, and its name is its last component.
pub proof fn lemma_plain_path(path: Seq<char>)
    requires
        is_plain_path(path),
    ensures
        is_common_path(path),
        final_name(path) == Some(name_part(path)),
        names_of(path) != seq![seq!['.']],
{
    lemma_last_index_of(path, '/');
    let slash = last_index_of(path, '/');
    let name = name_part(path);
    let dir = dir_part(path);
    assert forall|i: int| 0 <= i < path.len() implies #[trigger] path[i] != '\\' by {
        if i > slash {
            assert(path[i] == name[i - slash - 1]);
        } else if slash > 0 && i < slash {
            assert(path[i] == dir[i]);
        }
    }
    if path.len() >= 2 && path[0] == '/' && path[1] == '/' {
        if slash > 1 {
            assert(dir[0] == '/' && dir[1] == '/');
        } else if slash == 1 {
            assert(dir.last() == '/');
        }
    }
    assert(names_of(path).last() == name);
}

/// The path of a name in a directory.
pub open spec fn path_in(dir: Seq<char>, name: Seq<char>) -> Seq<char> {
    if dir.len() == 0 || dir.last() == '/' {
        dir + name
    } else {
        dir.push('/') + name
    }
}

/// A plain name in a directory is the path's last component, behind those of the
/// directory.
pub proof fn lemma_path_in(dir: Seq<char>, name: Seq<char>)
    requires
        is_plain_name(name),
    ensures
        parts_of(path_in(dir, name)) == (PathParts {
            rooted: parts_of(dir).rooted,
            names: names_of(dir).push(name),
        }),
        last_index_of(path_in(dir, name), '/') == path_in(dir, name).len() - name.len() - 1,
        name_part(path_in(dir, name)) == name,
{
    let path = path_in(dir, name);
    let start = path.len() - name.len();
    assert forall|k: int| start <= k < path.len() implies #[trigger] path[k] != '/' by {
        assert(path[k] == name[k - start]);
    }
    assert(path.take(path.len() as int) =~= path);
    lemma_last_slash(path, start, path.len() as int);
    assert(path.skip(start) =~= name);
    if dir.len() == 0 {
        assert(names_of(dir) =~= Seq::empty()) by {
            lemma_last_index_of(dir, '/');
        }
    } else if dir.last() == '/' {
        assert(path.take(start - 1) =~= dir.drop_last());
        lemma_trailing_slash(dir);
    } else {
        assert(path.take(start - 1) =~= dir);
    }
}

proof fn lemma_trailing_slash(dir: Seq<char>)
    requires
        dir.len() > 0,
        dir.last() == '/',
    ensures
        names_of(dir) == names_of(dir.drop_last()),
{
    assert(dir.take(dir.len() - 1) =~= dir.drop_last());
    assert(dir.skip(dir.len() as int) =~= Seq::empty());
}

/// `std::path::Path::parent`: the path without its final component, none where it has
/// no component besides a root. Below a plain directory it is that directory as it is
/// written, below the root the root, and of a name alone it is empty. How other
/// directories are written, and what paths give that platforms read differently, is
/// left open.
#[verifier::external_body]
pub(crate) fn path_parent(path: &str) -> (res: Option<String>)
    ensures
        is_common_path(path@) ==> (match res {
            Some(dir) => {
                &&& names_of(path@).len() > 0
                &&& parts_of(dir@) == (PathParts {
                    names: names_of(path@).drop_last(),
                    ..parts_of(path@)
                })
            },
            None => names_of(path@).len() == 0,
        }),
        is_plain_path(path@) ==> (res is Some && res->0@ == dir_part(path@)),
{
    std::path::Path::new(path).parent().map(|p| p.to_string_lossy().into_owned())
}

/// `std::path::Path::file_name`: the final component of a path, none where it has no
/// component besides a root or ends in a step upwards. What a single dot gives, and
/// what paths give that platforms read differently, is left open.
#[verifier::external_body]
pub(crate) fn path_file_name(path: &str) -> (res: Option<String>)
    ensures
        is_common_path(path@) && names_of(path@) != seq![seq!['.']] ==> (match (
            res,
            final_name(path@),
        ) {
            (Some(found), Some(name)) => found@ == name,
            (None, None) => true,
            _ => false,
        }),
{
    std::path::Path::new(path).file_name().map(|n| n.to_string_lossy().into_owned())
}

/// The portion of a file name after its last dot. A dot in front is part of the
/// name.
pub open spec fn extension_of(name: Seq<char>) -> Option<Seq<char>> {
    if last_index_of(name, '.') > 0 {
        Some(name.skip(last_index_of(name, '.') + 1))
    } else {
        None
    }
}

/// A file name without its extension.
pub open spec fn stem_of(name: Seq<char>) -> Seq<char> {
    if last_index_of(name, '.') > 0 {
        name.take(last_index_of(name, '.'))
    } else {
        name
    }
}

/// `std::path::Path::extension`: the part of the file name after its last dot,
/// unless that is the first character. What paths other than plain ones give, and
/// names that begin with two dots, is left open.
#[verifier::external_body]
pub(crate) fn path_extension(path: &str) -> (res: Option<String>)
    ensures
        is_plain_file(path@) ==> (match (res, extension_of(name_part(path@))) {
            (Some(found), Some(ext)) => found@ == ext,
            (None, None) => true,
            _ => false,
        }),
{
    std::path::Path::new(path).extension().map(|e| e.to_string_lossy().into_owned())
}

/// `std::path::Path::with_extension`: the path with its extension replaced, or
/// added where it has none. It panics where the extension holds a separator.
/// What paths other than plain ones give, and names that begin with two dots, is left
/// open.
#[verifier::external_body]
pub(crate) fn path_with_extension(path: &str, extension: &str) -> (res: String)
    requires
        extension@.len() > 0,
        forall|i: int|
            0 <= i < extension@.len() ==> #[trigger] extension@[i] != '/' && extension@[i] != '\\',
    ensures
        is_plain_file(path@) ==> res@ == path@.take(last_index_of(path@, '/') + 1) + stem_of(
            name_part(path@),
        ) + "."@ + extension@,
{
    std::path::Path::new(path).with_extension(extension).to_string_lossy().into_owned()
}

} // verus!
