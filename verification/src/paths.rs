//! Paths below the log directory, and what may be read there.

use vstd::prelude::*;

use crate::text::{self, has_prefix, same_text, split_text, text_of, to_chars};

verus! {

// ---------------------------------- joining ----------------------------------

/// Whether a path only goes down: it is not absolute, it does not begin with the current directory,
/// and no piece of it goes up.
pub open spec fn goes_down(part: Seq<char>) -> bool {
    let pieces = text::split_on(part, '/');
    &&& !text::begins_with(part, "/"@)
    &&& pieces[0] != "."@
    &&& forall|i: int| 0 <= i < pieces.len() ==> #[trigger] pieces[i] != ".."@
}

/// Whether a path only goes down.
pub fn is_normal(part: &str) -> (r: bool)
    ensures
        r == goes_down(part@),
{
    if has_prefix(part, "/") {
        return false;
    }
    let pieces = split_text(part, '/');
    let ghost all = text::split_on(part@, '/');
    proof {
        assert(all.len() == pieces.len());
        assert(all[0] == pieces@[0]@);
    }
    if same_text(pieces[0].as_str(), ".") {
        return false;
    }
    let mut i: usize = 0;
    while i < pieces.len()
        invariant
            i <= pieces.len(),
            all == text::texts(pieces@),
            all == text::split_on(part@, '/'),
            forall|j: int| 0 <= j < i ==> #[trigger] all[j] != ".."@,
        decreases pieces.len() - i,
    {
        proof {
            assert(all[i as int] == pieces@[i as int]@);
        }
        if same_text(pieces[i].as_str(), "..") {
            return false;
        }
        i += 1;
    }
    true
}

/// A path with another one behind it, and a slash between them where it is needed.
pub open spec fn extended(base: Seq<char>, part: Seq<char>) -> Seq<char> {
    if base.len() == 0 || base.last() == '/' {
        base + part
    } else {
        base + "/"@ + part
    }
}

/// A path with others behind it; nothing where one of them does more than go down.
pub open spec fn joined_path(base: Seq<char>, parts: Seq<Seq<char>>) -> Option<Seq<char>>
    decreases parts.len(),
{
    if parts.len() == 0 {
        Some(base)
    } else {
        match joined_path(base, parts.drop_last()) {
            Some(p) => if goes_down(parts.last()) {
                Some(extended(p, parts.last()))
            } else {
                None
            },
            None => None,
        }
    }
}

proof fn lemma_joined_stops(base: Seq<char>, parts: Seq<Seq<char>>, n: int)
    requires
        0 <= n <= parts.len(),
        joined_path(base, parts.take(n)) is None,
    ensures
        joined_path(base, parts) is None,
    decreases parts.len() - n,
{
    if n < parts.len() {
        assert(parts.take(n + 1).drop_last() =~= parts.take(n));
        lemma_joined_stops(base, parts, n + 1);
    } else {
        assert(parts.take(n) =~= parts);
    }
}

/// Joins `parts` to `base`; nothing where one of them is absolute, begins with the current
/// directory or goes up.
pub fn safe_join(base: &str, parts: &Vec<&str>) -> (r: Option<String>)
    ensures
        text::optional_text(r) == joined_path(base@, text::slices(parts@)),
{
    let ghost all = text::slices(parts@);
    let mut path = base.to_owned();
    let mut i: usize = 0;
    proof {
        assert(all.take(0).len() == 0);
    }
    while i < parts.len()
        invariant
            i <= parts.len(),
            all == text::slices(parts@),
            joined_path(base@, all.take(i as int)) == Some(path@),
        decreases parts.len() - i,
    {
        proof {
            assert(all.take(i + 1).drop_last() =~= all.take(i as int));
            assert(all.take(i + 1).last() == parts@[i as int]@);
        }
        if !is_normal(parts[i]) {
            proof {
                lemma_joined_stops(base@, all, i + 1);
            }
            return None;
        }
        let chars = to_chars(path.as_str());
        if chars.len() > 0 && chars[chars.len() - 1] != '/' {
            path.append("/");
        }
        path.append(parts[i]);
        i += 1;
    }
    proof {
        assert(all.take(all.len() as int) =~= all);
    }
    Some(path)
}

/// Whether a path lies in a directory: its components begin with those of the directory.
pub open spec fn is_within(root: Seq<Vec<u8>>, path: Seq<Vec<u8>>) -> bool {
    &&& root.len() <= path.len()
    &&& forall|i: int| 0 <= i < root.len() ==> #[trigger] root[i]@ == path[i]@
}

fn same_bytes(a: &Vec<u8>, b: &Vec<u8>) -> (r: bool)
    ensures
        r == (a@ == b@),
{
    if a.len() != b.len() {
        return false;
    }
    let mut i: usize = 0;
    while i < a.len()
        invariant
            i <= a.len(),
            a.len() == b.len(),
            forall|j: int| 0 <= j < i ==> #[trigger] a@[j] == b@[j],
        decreases a.len() - i,
    {
        if a[i] != b[i] {
            return false;
        }
        i += 1;
    }
    proof {
        assert(a@ =~= b@);
    }
    true
}

/// Whether the path with the components `path` lies in the directory with the components `root`.
pub fn within(root: &Vec<Vec<u8>>, path: &Vec<Vec<u8>>) -> (r: bool)
    ensures
        r == is_within(root@, path@),
{
    if root.len() > path.len() {
        return false;
    }
    let mut i: usize = 0;
    while i < root.len()
        invariant
            i <= root.len(),
            root.len() <= path.len(),
            forall|j: int| 0 <= j < i ==> #[trigger] root@[j]@ == path@[j]@,
        decreases root.len() - i,
    {
        if !same_bytes(&root[i], &path[i]) {
            return false;
        }
        i += 1;
    }
    true
}

/// The path of a file of a run, below the log directory; nothing where the run id or one of the
/// parts does more than go down.
pub fn safe_run_path(run_id: &str, parts: &Vec<&str>) -> (r: Option<String>)
    ensures
        text::optional_text(r) == (match joined_path(Seq::empty(), seq![run_id@]) {
            Some(base) => joined_path(base, text::slices(parts@)),
            None => None,
        }),
{
    let mut first: Vec<&str> = Vec::new();
    first.push(run_id);
    proof {
        reveal_strlit("");
        assert(""@ =~= Seq::empty());
        assert(text::slices(first@) =~= seq![run_id@]);
    }
    match safe_join("", &first) {
        Some(base) => safe_join(base.as_str(), parts),
        None => None,
    }
}

// ---------------------------------- files ----------------------------------

/// What is at a path, links not followed.
#[derive(Debug, PartialEq)]
pub struct FileMeta {
    pub is_symlink: bool,
    pub is_file: bool,
    pub is_dir: bool,
    pub len: u64,
}

/// Whether a path may be read: what is there is a file and no link.
pub fn safe_to_read(meta: &Option<FileMeta>) -> (r: bool)
    ensures
        r == (match *meta {
            Some(m) => !m.is_symlink && m.is_file,
            None => false,
        }),
{
    match meta {
        Some(m) => !m.is_symlink && m.is_file,
        None => false,
    }
}

/// Whether what is at a path is a directory and no link.
pub fn safe_is_dir(meta: &Option<FileMeta>) -> (r: bool)
    ensures
        r == (match *meta {
            Some(m) => !m.is_symlink && m.is_dir,
            None => false,
        }),
{
    match meta {
        Some(m) => !m.is_symlink && m.is_dir,
        None => false,
    }
}

/// The size of a file that is no link.
pub fn safe_file_size(meta: &Option<FileMeta>) -> (r: Option<u64>)
    ensures
        r == (match *meta {
            Some(m) => if !m.is_symlink && m.is_file {
                Some(m.len)
            } else {
                None
            },
            None => None,
        }),
{
    match meta {
        Some(m) => if !m.is_symlink && m.is_file {
            Some(m.len)
        } else {
            None
        },
        None => None,
    }
}

/// The path of a media file of a tag, below the log directory; nothing where it does more than go
/// down.
pub fn media_path(run_id: &str, folder: &str, rel: &str) -> (r: Option<String>)
    ensures
        text::optional_text(r) == (match joined_path(Seq::empty(), seq![run_id@]) {
            Some(base) => joined_path(base, seq!["media"@, folder@, rel@]),
            None => None,
        }),
{
    let mut parts: Vec<&str> = Vec::new();
    parts.push("media");
    parts.push(folder);
    parts.push(rel);
    proof {
        assert(text::slices(parts@) =~= seq!["media"@, folder@, rel@]);
    }
    safe_run_path(run_id, &parts)
}

/// The media file to serve: the one that was found, where it is a file and no link.
pub fn media_file<T>(found: Option<T>, meta: &Option<FileMeta>) -> (r: Option<T>)
    ensures
        r == (match *meta {
            Some(m) => if !m.is_symlink && m.is_file {
                found
            } else {
                None
            },
            None => None,
        }),
{
    if safe_file_size(meta).is_some() {
        found
    } else {
        None
    }
}

/// The place behind the last dot of a name, 0 where there is none.
pub open spec fn after_dot(name: Seq<char>) -> int
    decreases name.len(),
{
    if name.len() == 0 {
        0
    } else if name.last() == '.' {
        name.len() as int
    } else {
        after_dot(name.drop_last())
    }
}

/// The extension of a file name: what stands behind its last dot, where that is not its first
/// character.
pub open spec fn extension(name: Seq<char>) -> Option<Seq<char>> {
    if after_dot(name) <= 1 {
        None
    } else {
        Some(name.skip(after_dot(name)))
    }
}

/// The extension of a file name.
pub fn file_extension(name: &str) -> (r: Option<String>)
    ensures
        text::optional_text(r) == extension(name@),
{
    let chars = to_chars(name);
    let mut n: usize = chars.len();
    proof {
        assert(name@.take(n as int) =~= name@);
    }
    while n > 0 && chars[n - 1] != '.'
        invariant
            n <= chars.len(),
            chars@ == name@,
            after_dot(name@) == after_dot(name@.take(n as int)),
        decreases n,
    {
        proof {
            assert(name@.take(n as int).drop_last() =~= name@.take(n - 1));
        }
        n -= 1;
    }
    proof {
        assert(after_dot(name@.take(n as int)) == n);
        assert(name@.skip(n as int) =~= name@.subrange(n as int, name@.len() as int));
    }
    if n <= 1 {
        None
    } else {
        Some(text_of(&chars, n, chars.len()))
    }
}

/// Whether a change of the file with the name `file_name` can change a summary: a log or a JSON
/// document.
pub fn is_summary_relevant_path(file_name: &str) -> (r: bool)
    ensures
        r == (extension(file_name@) == Some("log"@) || extension(file_name@) == Some("json"@)),
{
    match file_extension(file_name) {
        Some(e) => same_text(e.as_str(), "log") || same_text(e.as_str(), "json"),
        None => false,
    }
}

// ---------------------------------- laws ----------------------------------

/// Whether no piece of a path goes up and the path is not absolute.
pub open spec fn stays_below(path: Seq<char>) -> bool {
    &&& path.len() > 0 ==> path[0] != '/'
    &&& forall|i: int|
        0 <= i < text::split_on(path, '/').len() ==> #[trigger] text::split_on(path, '/')[i]
            != ".."@
}

proof fn lemma_extended_stays_below(base: Seq<char>, part: Seq<char>)
    requires
        stays_below(base),
        goes_down(part),
    ensures
        stays_below(extended(base, part)),
{
    reveal_strlit("/");
    let p = extended(base, part);
    let parts = text::split_on(part, '/');
    if base.len() == 0 {
        assert(p =~= part);
        if part.len() > 0 && part[0] == '/' {
            assert(part.take(1) =~= "/"@);
        }
    } else {
        let stem = if base.last() == '/' {
            base.drop_last()
        } else {
            base
        };
        assert(p =~= stem + seq!['/'] + part);
        text::lemma_split_concat(stem, '/', part);
        let pieces = text::split_on(stem, '/');
        assert forall|i: int| 0 <= i < pieces.len() implies #[trigger] pieces[i] != ".."@ by {
            if base.last() == '/' {
                assert(text::split_on(base, '/')[i] == pieces[i]);
            }
        }
        assert(text::split_on(p, '/') == pieces + parts);
        assert(p[0] == base[0]);
    }
}

proof fn lemma_joined_stays_below(base: Seq<char>, parts: Seq<Seq<char>>)
    requires
        stays_below(base),
    ensures
        joined_path(base, parts) matches Some(p) ==> stays_below(p),
    decreases parts.len(),
{
    if parts.len() > 0 {
        lemma_joined_stays_below(base, parts.drop_last());
        match joined_path(base, parts.drop_last()) {
            Some(p) => {
                if goes_down(parts.last()) {
                    lemma_extended_stays_below(p, parts.last());
                }
            },
            None => {},
        }
    }
}

/// Whatever the run id and the parts are, the path of a file of a run stays below the directory that
/// it is taken from: it is not absolute, and no piece of it goes up.
pub proof fn law_run_path_stays_below(run_id: Seq<char>, parts: Seq<Seq<char>>)
    ensures
        joined_path(Seq::empty(), seq![run_id]) matches Some(base) ==> (joined_path(
            base,
            parts,
        ) matches Some(p) ==> stays_below(p)),
{
    assert(text::split_on(Seq::empty(), '/')[0] =~= Seq::empty());
    reveal_strlit("..");
    lemma_joined_stays_below(Seq::empty(), seq![run_id]);
    match joined_path(Seq::empty(), seq![run_id]) {
        Some(base) => {
            lemma_joined_stays_below(base, parts);
        },
        None => {},
    }
}

/// A directory lies in itself, and what lies in a directory that lies in another lies in the other.
pub proof fn law_within_nests(a: Seq<Vec<u8>>, b: Seq<Vec<u8>>, c: Seq<Vec<u8>>)
    ensures
        is_within(a, a),
        is_within(a, b) && is_within(b, c) ==> is_within(a, c),
{
    if is_within(a, b) && is_within(b, c) {
        assert forall|i: int| 0 <= i < a.len() implies #[trigger] a[i]@ == c[i]@ by {
            assert(a[i]@ == b[i]@);
            assert(b[i]@ == c[i]@);
        }
    }
}

} // verus!
