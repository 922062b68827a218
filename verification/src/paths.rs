//! Output folders: shortening a folder path by dropping the cache's `c_*`
//! folders and short numeric folders, and the output folders offered for a
//! scanned folder.
use vstd::prelude::*;

use crate::text::{all_digits, byte_len, chars_of, seq_starts_with};

verus! {

/// One component of a path, as `std::path::Path::components` gives it (names
/// and prefixes as text).
#[derive(Debug, Clone)]
pub enum PathPart {
    Prefix(String),
    RootDir,
    CurDir,
    ParentDir,
    Normal(String),
}

/// The components of `path` on this platform (`Path::components`). For a
/// path that every platform reads alike (`slash_path`: separators are `/`
/// only and no drive or share prefix can stand in it), the documented rules
/// give its `Normal` names: the pieces between `/`s, with empty pieces
/// (repeated or trailing separators), `.` (normalized away or `CurDir`) and
/// `..` (`ParentDir`) left out; there is no prefix, and the first component
/// is the root exactly when the path starts with `/`. Of other paths
/// nothing is stated: how they split depends on the platform.
#[verifier::external_body]
fn path_parts(path: &str) -> (r: Vec<PathPart>)
    ensures
        slash_path(path@) ==> normal_names(r@) == folder_names(segments(path@)),
        slash_path(path@) ==> forall|i: int| 0 <= i < r@.len() ==> !(#[trigger] r@[i] is Prefix),
        slash_path(path@) ==> ((r@.len() > 0 && r@[0] is RootDir) <==> (path@.len() > 0 && path@[0]
            == '/')),
{
    let mut parts = Vec::new();
    for c in std::path::Path::new(path).components() {
        parts.push(
            match c {
                std::path::Component::Prefix(p) => PathPart::Prefix(
                    p.as_os_str().to_string_lossy().into_owned(),
                ),
                std::path::Component::RootDir => PathPart::RootDir,
                std::path::Component::CurDir => PathPart::CurDir,
                std::path::Component::ParentDir => PathPart::ParentDir,
                std::path::Component::Normal(n) => PathPart::Normal(n.to_string_lossy().into_owned()),
            },
        );
    }
    parts
}

/// Appends `part` to the path `buf` as `PathBuf::push` does on this platform.
/// For a plain file name: pushed onto an empty path it is the whole path;
/// pushed onto a path that does not end with `/` or `\` (and holds no `:`
/// and no verbatim `\\?\` prefix), one separator (`/` or `\`, the
/// platform's) goes between them; pushed onto such a path that ends with
/// `/`, a separator on every platform, it is appended. Of other cases (such
/// as a path ending with `\`, which only Windows takes for a separator)
/// nothing is stated.
#[verifier::external_body]
fn path_push(buf: &mut String, part: &str)
    ensures
        plain_file_name(part@) && old(buf)@.len() == 0 ==> final(buf)@ == part@,
        plain_file_name(part@) && pushable_base(old(buf)@) ==> exists|c: char|
            is_path_separator(c) && final(buf)@ == old(buf)@ + seq![c] + part@,
        plain_file_name(part@) && root_base(old(buf)@) ==> final(buf)@ == old(buf)@ + part@,
{
    let mut p = std::path::PathBuf::from(buf.as_str());
    p.push(part);
    *buf = p.to_string_lossy().into_owned();
}

/// A separator of path components on some platform: `/` or `\`.
pub open spec fn is_path_separator(c: char) -> bool {
    c == '/' || c == '\\'
}

/// A path that a plain name is pushed onto with one separator: not empty,
/// not ending with a separator, without `:` (no drive) and not verbatim.
pub open spec fn pushable_base(b: Seq<char>) -> bool {
    &&& b.len() > 0
    &&& !is_path_separator(b.last())
    &&& forall|i: int| 0 <= i < b.len() ==> b[i] != ':'
    &&& !seq_starts_with(b, nt_prefix())
}

/// A path ending with `/` that a plain name is appended to: no `:` and not
/// verbatim.
pub open spec fn root_base(b: Seq<char>) -> bool {
    &&& b.len() > 0
    &&& b.last() == '/'
    &&& forall|i: int| 0 <= i < b.len() ==> b[i] != ':'
    &&& !seq_starts_with(b, nt_prefix())
}

/// A path that every platform splits alike: it holds no `\` and no `:`, and
/// does not start with `//` (so Windows finds no drive or share prefix).
pub open spec fn slash_path(p: Seq<char>) -> bool {
    &&& forall|i: int| 0 <= i < p.len() ==> p[i] != '\\' && p[i] != ':'
    &&& !(p.len() >= 2 && p[0] == '/' && p[1] == '/')
}

/// `p` split at its `/`s: the pieces finished so far, and the piece being
/// read.
pub open spec fn slash_split(p: Seq<char>) -> (Seq<Seq<char>>, Seq<char>)
    decreases p.len(),
{
    if p.len() == 0 {
        (Seq::empty(), Seq::empty())
    } else {
        let (done, cur) = slash_split(p.drop_last());
        if p.last() == '/' {
            (done.push(cur), Seq::empty())
        } else {
            (done, cur.push(p.last()))
        }
    }
}

/// The pieces of `p` between its `/`s (empty ones included).
pub open spec fn segments(p: Seq<char>) -> Seq<Seq<char>> {
    slash_split(p).0.push(slash_split(p).1)
}

/// A piece that names a folder: not empty, `.` or `..`.
pub open spec fn names_folder(s: Seq<char>) -> bool {
    s.len() > 0 && s != seq!['.'] && s != seq!['.', '.']
}

/// The pieces that name folders, in order.
pub open spec fn folder_names(segs: Seq<Seq<char>>) -> Seq<Seq<char>>
    decreases segs.len(),
{
    if segs.len() == 0 {
        Seq::empty()
    } else if names_folder(segs.last()) {
        folder_names(segs.drop_last()).push(segs.last())
    } else {
        folder_names(segs.drop_last())
    }
}

/// The names of the `Normal` components, in order.
pub open spec fn normal_names(parts: Seq<PathPart>) -> Seq<Seq<char>>
    decreases parts.len(),
{
    if parts.len() == 0 {
        Seq::empty()
    } else {
        match parts.last() {
            PathPart::Normal(n) => normal_names(parts.drop_last()).push(n@),
            _ => normal_names(parts.drop_last()),
        }
    }
}

/// A folder that the output keeps: one not starting with `c_` and not made of
/// at most three digits.
pub open spec fn is_kept_dir(name: Seq<char>) -> bool {
    !seq_starts_with(name, seq!['c', '_']) && !(all_digits(name) && byte_len(name) <= 3)
}

/// The folder names of `parts` that the output keeps, in order.
pub open spec fn kept_names(parts: Seq<PathPart>) -> Seq<Seq<char>>
    decreases parts.len(),
{
    if parts.len() == 0 {
        Seq::empty()
    } else {
        let prev = kept_names(parts.drop_last());
        match parts.last() {
            PathPart::Normal(n) => if is_kept_dir(n@) {
                prev.push(n@)
            } else {
                prev
            },
            _ => prev,
        }
    }
}

/// The drive prefix of a path, when its first component is one.
pub open spec fn drive_prefix(parts: Seq<PathPart>) -> Option<Seq<char>> {
    if parts.len() > 0 {
        match parts[0] {
            PathPart::Prefix(p) => Some(p@),
            _ => None,
        }
    } else {
        None
    }
}

/// The views of a list of strings.
pub open spec fn string_views(v: Seq<String>) -> Seq<Seq<char>> {
    v.map_values(|s: String| s@)
}

fn is_kept(name: &str) -> (b: bool)
    ensures
        b == is_kept_dir(name@),
{
    let cs = chars_of(name);
    let mut pre: Vec<char> = Vec::new();
    pre.push('c');
    pre.push('_');
    assert(pre@ =~= seq!['c', '_']);
    if crate::text::starts_with(&cs, &pre) {
        return false;
    }
    let mut i: usize = 0;
    while i < cs.len()
        invariant
            i <= cs@.len(),
            cs@ == name@,
            !seq_starts_with(name@, seq!['c', '_']),
            forall|j: int| 0 <= j < i ==> crate::text::is_digit(#[trigger] cs@[j]),
        decreases cs@.len() - i,
    {
        if !('0' <= cs[i] && cs[i] <= '9') {
            assert(!crate::text::is_digit(cs@[i as int]));
            assert(!all_digits(name@));
            return true;
        }
        i = i + 1;
    }
    !(name.len() <= 3)
}

/// The drive prefix of a path and the folder names that its shortened form
/// keeps: those not starting with `c_` and not made of at most three digits.
pub fn simplify_parts(parts: &Vec<PathPart>) -> (r: (Option<String>, Vec<String>))
    ensures
        match r.0 {
            Some(p) => drive_prefix(parts@) == Some(p@),
            None => drive_prefix(parts@).is_none(),
        },
        string_views(r.1@) == kept_names(parts@),
{
    let prefix: Option<String> = if parts.len() > 0 {
        match &parts[0] {
            PathPart::Prefix(p) => Some(p.clone()),
            _ => None,
        }
    } else {
        None
    };
    let mut names: Vec<String> = Vec::new();
    let mut i: usize = 0;
    while i < parts.len()
        invariant
            i <= parts@.len(),
            string_views(names@) == kept_names(parts@.take(i as int)),
        decreases parts@.len() - i,
    {
        proof {
            assert(parts@.take(i + 1).drop_last() =~= parts@.take(i as int));
        }
        if let PathPart::Normal(n) = &parts[i] {
            if is_kept(n.as_str()) {
                names.push(n.clone());
                assert(string_views(names@) =~= kept_names(parts@.take(i as int)).push(n@));
            }
        }
        i = i + 1;
    }
    assert(parts@.take(parts@.len() as int) =~= parts@);
    (prefix, names)
}

/// The names of `names` that the output keeps, in order.
pub open spec fn kept_of(names: Seq<Seq<char>>) -> Seq<Seq<char>>
    decreases names.len(),
{
    if names.len() == 0 {
        Seq::empty()
    } else if is_kept_dir(names.last()) {
        kept_of(names.drop_last()).push(names.last())
    } else {
        kept_of(names.drop_last())
    }
}

/// The folder names of `p` that its shortened form keeps.
pub open spec fn kept_dirs(p: Seq<char>) -> Seq<Seq<char>> {
    kept_of(folder_names(segments(p)))
}

proof fn lemma_kept_of_filter(names: Seq<Seq<char>>)
    ensures
        forall|k: int|
            0 <= k < kept_of(names).len() ==> names.contains(#[trigger] kept_of(names)[k])
                && !seq_starts_with(kept_of(names)[k], seq!['c', '_']) && !(all_digits(
                kept_of(names)[k],
            ) && byte_len(kept_of(names)[k]) <= 3),
        forall|i: int|
            0 <= i < names.len() && !seq_starts_with(#[trigger] names[i], seq!['c', '_']) && !(
            all_digits(names[i]) && byte_len(names[i]) <= 3) ==> kept_of(names).contains(names[i]),
    decreases names.len(),
{
    if names.len() > 0 {
        let d = names.drop_last();
        lemma_kept_of_filter(d);
        let prev = kept_of(d);
        let kept = kept_of(names);
        assert forall|k: int| 0 <= k < kept.len() implies names.contains(#[trigger] kept[k])
            && !seq_starts_with(kept[k], seq!['c', '_']) && !(all_digits(kept[k]) && byte_len(
            kept[k],
        ) <= 3) by {
            if k < prev.len() {
                assert(kept[k] == prev[k]);
                let m = choose|m: int| 0 <= m < d.len() && d[m] == prev[k];
                assert(names[m] == d[m]);
            } else {
                assert(kept[k] == names.last());
                assert(names[names.len() - 1] == names.last());
            }
        }
        assert forall|i: int|
            0 <= i < names.len() && !seq_starts_with(#[trigger] names[i], seq!['c', '_']) && !(
            all_digits(names[i]) && byte_len(names[i]) <= 3) implies kept.contains(names[i]) by {
            if i < d.len() {
                assert(names[i] == d[i]);
                let m = choose|m: int| 0 <= m < prev.len() && prev[m] == d[i];
                if is_kept_dir(names.last()) {
                    assert(kept[m] == prev[m]);
                } else {
                    assert(kept[m] == prev[m]);
                }
            } else {
                assert(names[i] == names.last());
                assert(kept[kept.len() - 1] == names.last());
            }
        }
    }
}

/// The shortened output folder of a path keeps exactly its folder names that
/// are neither a cache folder (`c_` followed by anything) nor made of at most
/// three ASCII digits (a quality folder such as `80`, `116` or `120`): every
/// kept name is one of its folder names and is neither, and every folder
/// name that is neither is kept. (These are the names `simplified_from`
/// joins after the root.)
pub proof fn lemma_kept_dirs_drop_cache_and_quality(p: Seq<char>)
    ensures
        forall|k: int|
            0 <= k < kept_dirs(p).len() ==> folder_names(segments(p)).contains(
                #[trigger] kept_dirs(p)[k],
            ) && !seq_starts_with(kept_dirs(p)[k], seq!['c', '_']) && !(all_digits(kept_dirs(p)[k])
                && byte_len(kept_dirs(p)[k]) <= 3),
        forall|i: int|
            0 <= i < folder_names(segments(p)).len() && !seq_starts_with(
                #[trigger] folder_names(segments(p))[i],
                seq!['c', '_'],
            ) && !(all_digits(folder_names(segments(p))[i]) && byte_len(folder_names(segments(p))[i])
                <= 3) ==> kept_dirs(p).contains(folder_names(segments(p))[i]),
{
    lemma_kept_of_filter(folder_names(segments(p)));
}

/// `names` joined by the separators `seps` (one between each two names).
pub open spec fn joined_with(names: Seq<Seq<char>>, seps: Seq<char>) -> Seq<char>
    decreases names.len(),
{
    if names.len() == 0 {
        Seq::empty()
    } else if names.len() == 1 {
        names[0]
    } else {
        joined_with(names.drop_last(), seps.drop_last()) + seq![seps.last()] + names.last()
    }
}

/// `r` is `names` joined by path separators (`/` or `\`).
pub open spec fn joined_by_separators(names: Seq<Seq<char>>, r: Seq<char>) -> bool {
    exists|seps: Seq<char>|
        seps.len() + 1 == names.len() && (forall|i: int|
            0 <= i < seps.len() ==> is_path_separator(#[trigger] seps[i])) && r == joined_with(
            names,
            seps,
        )
}

/// The root that a path starting with `/` keeps in its shortened form.
pub open spec fn root_of(path: Seq<char>) -> Seq<char> {
    if path.len() > 0 && path[0] == '/' {
        seq!['/']
    } else {
        Seq::empty()
    }
}

/// What the shortened output folder of `path` is, for a path that every
/// platform splits alike: its root (when it starts with `/`) followed by the
/// kept folder names joined by separators, or `path` itself when no name is
/// kept.
pub open spec fn simplified_from(path: Seq<char>, r: Seq<char>) -> bool {
    slash_path(path) ==> if kept_dirs(path).len() == 0 {
        r == path
    } else {
        let root = root_of(path);
        &&& r.len() >= root.len()
        &&& r.take(root.len() as int) == root
        &&& joined_by_separators(kept_dirs(path), r.skip(root.len() as int))
    }
}

/// A text without `/`, `\` or `:`.
pub open spec fn no_separators(s: Seq<char>) -> bool {
    forall|j: int| 0 <= j < s.len() ==> s[j] != '/' && s[j] != '\\' && s[j] != ':'
}

proof fn lemma_slash_split_plain(p: Seq<char>)
    requires
        forall|i: int| 0 <= i < p.len() ==> p[i] != '\\' && p[i] != ':',
    ensures
        forall|k: int| 0 <= k < slash_split(p).0.len() ==> no_separators(#[trigger] slash_split(p).0[k]),
        no_separators(slash_split(p).1),
    decreases p.len(),
{
    if p.len() > 0 {
        let q = p.drop_last();
        assert forall|i: int| 0 <= i < q.len() implies q[i] != '\\' && q[i] != ':' by {
            assert(q[i] == p[i]);
        }
        lemma_slash_split_plain(q);
        let (done, cur) = slash_split(q);
        if p.last() == '/' {
            assert forall|k: int| 0 <= k < done.push(cur).len() implies no_separators(#[trigger] done.push(cur)[k]) by {
                if k < done.len() {
                    assert(done.push(cur)[k] == done[k]);
                }
            }
        } else {
            let c = p.last();
            assert(c == p[p.len() - 1]);
            assert forall|j: int| 0 <= j < cur.push(c).len() implies cur.push(c)[j] != '/' && cur.push(c)[j]
                != '\\' && cur.push(c)[j] != ':' by {
                if j < cur.len() {
                    assert(cur.push(c)[j] == cur[j]);
                }
            }
        }
    }
}

proof fn lemma_folder_names_plain(segs: Seq<Seq<char>>)
    requires
        forall|k: int| 0 <= k < segs.len() ==> no_separators(#[trigger] segs[k]),
    ensures
        forall|k: int| 0 <= k < folder_names(segs).len() ==> plain_file_name(#[trigger] folder_names(segs)[k]),
    decreases segs.len(),
{
    if segs.len() > 0 {
        let q = segs.drop_last();
        assert forall|k: int| 0 <= k < q.len() implies no_separators(#[trigger] q[k]) by {
            assert(q[k] == segs[k]);
        }
        lemma_folder_names_plain(q);
        let prev = folder_names(q);
        if names_folder(segs.last()) {
            assert(no_separators(segs[segs.len() - 1]));
            assert forall|k: int| 0 <= k < prev.push(segs.last()).len() implies plain_file_name(
                #[trigger] prev.push(segs.last())[k],
            ) by {
                if k < prev.len() {
                    assert(prev.push(segs.last())[k] == prev[k]);
                }
            }
        }
    }
}

proof fn lemma_kept_of_plain(names: Seq<Seq<char>>)
    requires
        forall|k: int| 0 <= k < names.len() ==> plain_file_name(#[trigger] names[k]),
    ensures
        forall|k: int| 0 <= k < kept_of(names).len() ==> plain_file_name(#[trigger] kept_of(names)[k]),
    decreases names.len(),
{
    if names.len() > 0 {
        let q = names.drop_last();
        assert forall|k: int| 0 <= k < q.len() implies plain_file_name(#[trigger] q[k]) by {
            assert(q[k] == names[k]);
        }
        lemma_kept_of_plain(q);
        let prev = kept_of(q);
        if is_kept_dir(names.last()) {
            assert(plain_file_name(names[names.len() - 1]));
            assert forall|k: int| 0 <= k < prev.push(names.last()).len() implies plain_file_name(
                #[trigger] prev.push(names.last())[k],
            ) by {
                if k < prev.len() {
                    assert(prev.push(names.last())[k] == prev[k]);
                }
            }
        }
    }
}

proof fn lemma_kept_names_of_normal(parts: Seq<PathPart>)
    ensures
        kept_names(parts) == kept_of(normal_names(parts)),
    decreases parts.len(),
{
    if parts.len() > 0 {
        lemma_kept_names_of_normal(parts.drop_last());
        match parts.last() {
            PathPart::Normal(n) => {
                assert(normal_names(parts) == normal_names(parts.drop_last()).push(n@));
                assert(normal_names(parts).drop_last() =~= normal_names(parts.drop_last()));
            },
            _ => {},
        }
    }
}

/// Under the guard of `simplified_from`, the kept names of the components of
/// `path` are its kept folder names, each a plain file name, and no
/// component is a prefix.
proof fn lemma_parts_of_slash_path(path: Seq<char>, parts: Seq<PathPart>)
    requires
        slash_path(path),
        normal_names(parts) == folder_names(segments(path)),
    ensures
        kept_names(parts) == kept_dirs(path),
        forall|k: int| 0 <= k < kept_dirs(path).len() ==> plain_file_name(#[trigger] kept_dirs(path)[k]),
{
    lemma_kept_names_of_normal(parts);
    lemma_slash_split_plain(path);
    let (done, cur) = slash_split(path);
    assert forall|k: int| 0 <= k < segments(path).len() implies no_separators(#[trigger] segments(path)[k]) by {
        if k < done.len() {
            assert(segments(path)[k] == done[k]);
        } else {
            assert(segments(path)[k] == cur);
        }
    }
    lemma_folder_names_plain(segments(path));
    lemma_kept_of_plain(folder_names(segments(path)));
}

/// The output folder for `path` with the cache's `c_*` folders and short
/// numeric folders left out (see `simplify_parts`), built with this platform's
/// path rules from the drive prefix, the root and the kept names; `path`
/// itself when no folder name is kept. For a path that every platform splits
/// alike, that is its root followed by the kept folder names joined by
/// separators (see `simplified_from`).
pub fn do_simplify_output_path(path: &str) -> (r: String)
    ensures
        simplified_from(path@, r@),
{
    let parts = path_parts(path);
    let (prefix, names) = simplify_parts(&parts);
    let ghost kept = string_views(names@);
    proof {
        if slash_path(path@) {
            lemma_parts_of_slash_path(path@, parts@);
            if parts@.len() > 0 {
                assert(!(parts@[0] is Prefix));
            }
        }
    }
    if names.len() == 0 {
        return path.to_owned();
    }
    let has_root = parts.len() > 0 && match &parts[0] {
        PathPart::RootDir => true,
        PathPart::Prefix(_) => parts.len() > 1 && match &parts[1] {
            PathPart::RootDir => true,
            _ => false,
        },
        _ => false,
    };
    let mut result = String::new();
    if let Some(p) = &prefix {
        path_push(&mut result, p.as_str());
    }
    if has_root {
        if result.as_str().is_empty() {
            result = "/".to_owned();
        } else {
            path_push(&mut result, "/");
        }
    }
    let ghost root = root_of(path@);
    proof {
        reveal_strlit("/");
        if slash_path(path@) {
            assert(prefix.is_none());
            assert(result@ == root);
        }
    }
    let ghost mut seps: Seq<char> = Seq::empty();
    let mut i: usize = 0;
    while i < names.len()
        invariant
            i <= names@.len(),
            kept == string_views(names@),
            kept.len() == names@.len(),
            names@.len() > 0,
            i == 0 ==> seps.len() == 0,
            root == root_of(path@),
            slash_path(path@) ==> {
                &&& kept == kept_dirs(path@)
                &&& forall|k: int| 0 <= k < kept.len() ==> plain_file_name(#[trigger] kept[k])
                &&& i == 0 ==> result@ == root
                &&& i > 0 ==> {
                    &&& pushable_base(result@)
                    &&& result@[0] != '\\'
                    &&& seps.len() + 1 == i
                    &&& forall|j: int| 0 <= j < seps.len() ==> is_path_separator(#[trigger] seps[j])
                    &&& result@ == root + joined_with(kept.take(i as int), seps)
                }
            },
        decreases names@.len() - i,
    {
        let ghost before = result@;
        assert(names@[i as int]@ == kept[i as int]);
        path_push(&mut result, names[i].as_str());
        proof {
            if slash_path(path@) {
                let part = kept[i as int];
                assert(plain_file_name(part));
                if i == 0 {
                    assert(result@ == root + part) by {
                        if root.len() > 0 {
                            assert(root_base(before));
                        } else {
                            assert(before.len() == 0);
                            assert(root + part =~= part);
                        }
                    }
                    assert(kept.take(1) =~= seq![part]);
                    assert(joined_with(kept.take(1), seps) == part);
                    assert(part[0] != '\\');
                    assert(result@[0] != '\\') by {
                        if root.len() == 0 {
                            assert(result@[0] == part[0]);
                        } else {
                            assert(result@[0] == root[0]);
                        }
                    }
                    assert(pushable_base(result@)) by {
                        assert(result@.last() == part[part.len() - 1]);
                        assert forall|k: int| 0 <= k < result@.len() implies result@[k] != ':' by {
                            if k >= root.len() {
                                assert(result@[k] == part[k - root.len()]);
                            }
                        }
                        if seq_starts_with(result@, nt_prefix()) {
                            assert(result@.subrange(0, 4)[0] == nt_prefix()[0]);
                        }
                    }
                } else {
                    let c = choose|c: char| is_path_separator(c) && result@ == before + seq![c] + part;
                    let new_seps = seps.push(c);
                    assert(kept.take(i + 1).drop_last() =~= kept.take(i as int));
                    assert(new_seps.drop_last() =~= seps);
                    assert(kept.take(i + 1).last() == part);
                    assert(joined_with(kept.take(i + 1), new_seps) == joined_with(kept.take(i as int), seps)
                        + seq![c] + part);
                    assert(result@ =~= root + joined_with(kept.take(i + 1), new_seps));
                    assert(result@[0] == before[0]);
                    assert forall|j: int| 0 <= j < new_seps.len() implies is_path_separator(#[trigger] new_seps[j]) by {
                        if j < seps.len() {
                            assert(new_seps[j] == seps[j]);
                        }
                    }
                    assert(pushable_base(result@)) by {
                        assert(result@.last() == part[part.len() - 1]);
                        assert forall|k: int| 0 <= k < result@.len() implies result@[k] != ':' by {
                            if k < before.len() {
                                assert(result@[k] == before[k]);
                            } else if k > before.len() {
                                assert(result@[k] == part[k - before.len() - 1]);
                            }
                        }
                        if seq_starts_with(result@, nt_prefix()) {
                            assert(result@.subrange(0, 4)[0] == nt_prefix()[0]);
                        }
                    }
                    seps = new_seps;
                }
            }
        }
        i = i + 1;
    }
    proof {
        if slash_path(path@) {
            assert(kept.take(names@.len() as int) =~= kept);
            assert(result@.take(root.len() as int) =~= root);
            assert(result@.skip(root.len() as int) =~= joined_with(kept, seps));
        }
    }
    result
}

/// The shortened output folder for `path` (see `do_simplify_output_path`).
pub fn simplify_output_path(path: &str) -> (r: String)
    ensures
        simplified_from(path@, r@),
{
    do_simplify_output_path(path)
}


/// The Windows verbatim prefix `\\?\`.
pub open spec fn nt_prefix() -> Seq<char> {
    seq!['\\', '\\', '?', '\\']
}

/// `r` is `name` put under `base` by `Path::join`: it ends with the name, and
/// unless the base is a verbatim `\\?\` path it is the base, at most one
/// separator and the name.
pub open spec fn joined_under(base: Seq<char>, name: Seq<char>, r: Seq<char>) -> bool {
    &&& r.len() >= name.len()
    &&& r.skip(r.len() - name.len()) == name
    &&& !seq_starts_with(base, nt_prefix()) ==> {
        &&& r.len() <= base.len() + 1 + name.len()
        &&& r.take(base.len() as int) == base
    }
}

/// A file name that is one plain path component on every platform: not
/// empty, not `.` or `..`, and without `/`, `\` or `:`.
pub open spec fn plain_file_name(n: Seq<char>) -> bool {
    &&& n.len() > 0
    &&& n != seq!['.']
    &&& n != seq!['.', '.']
    &&& forall|i: int| 0 <= i < n.len() ==> n[i] != '/' && n[i] != '\\' && n[i] != ':'
}

/// A relative path `rel` that `PathBuf::push` appends to `base` alike on
/// every platform: `rel` has no `:` (no drive) and does not start with a
/// separator (no root), and `base` is neither a verbatim `\\?\` path (which
/// `push` rebuilds from its components) nor a bare drive such as `C:` (onto
/// which no separator is put), nor ends with `\` (a separator on Windows
/// only).
pub open spec fn joinable(base: Seq<char>, rel: Seq<char>) -> bool {
    &&& !seq_starts_with(base, nt_prefix())
    &&& !(base.len() == 2 && base[1] == ':')
    &&& (base.len() > 0 ==> base.last() != '\\')
    &&& (rel.len() > 0 ==> !is_path_separator(rel[0]))
    &&& forall|i: int| 0 <= i < rel.len() ==> rel[i] != ':'
}

/// `rel` appended to `base` with the separator `c` between them, unless
/// `base` is empty or already ends with a separator.
pub open spec fn join_text(base: Seq<char>, c: char, rel: Seq<char>) -> Seq<char> {
    if base.len() == 0 || is_path_separator(base.last()) {
        base + rel
    } else {
        base + seq![c] + rel
    }
}

/// `r` is `rel` appended to `base` with the platform's separator (`/` or
/// `\`) where one is needed (see `join_text`).
pub open spec fn joined_text(base: Seq<char>, rel: Seq<char>, r: Seq<char>) -> bool {
    exists|c: char| is_path_separator(c) && r == join_text(base, c, rel)
}

/// `Path::join` of `name` to `base`, as text (`PathBuf::push` documents that
/// a relative path extends the base). For a joinable pair the text is the
/// base, one separator where the base does not end with one, and the name;
/// for a plain file name the text ends with the name and, unless the base
/// is verbatim, starts with the base with at most one separator between.
/// Which separator is not stated: it is the platform's.
#[verifier::external_body]
pub(crate) fn path_join(base: &str, name: &str) -> (r: String)
    ensures
        plain_file_name(name@) ==> joined_under(base@, name@, r@),
        joinable(base@, name@) ==> joined_text(base@, name@, r@),
{
    std::path::Path::new(base).join(name).to_string_lossy().to_string()
}

/// `result` put under `base` (see `path_join`).
pub fn join_result(base: &str) -> (r: String)
    ensures
        joined_under(base@, "result"@, r@),
{
    let name = "result";
    proof {
        reveal_strlit("result");
        assert(name@ =~= seq!['r', 'e', 's', 'u', 'l', 't']);
    }
    path_join(base, name)
}

/// A path that no platform takes for absolute: it is empty, or it neither
/// starts with `/` or `\` nor holds a `:` (so it has no root and no Windows
/// drive or share prefix).
pub open spec fn plainly_relative(p: Seq<char>) -> bool {
    p.len() == 0 || (p[0] != '/' && p[0] != '\\' && forall|i: int| 0 <= i < p.len() ==> p[i] != ':')
}

/// `Path::is_absolute` by this platform's rules (a root on Unix; a prefix
/// and a root on Windows). Only that a plainly relative path is not absolute
/// is stated: the rest depends on the platform.
#[verifier::external_body]
fn path_is_absolute(path: &str) -> (r: bool)
    ensures
        plainly_relative(path@) ==> !r,
{
    std::path::Path::new(path).is_absolute()
}

/// A path whose parent every platform sees: one that every platform splits
/// alike, made of the root and a folder name (its second character is
/// neither `/` nor `.`).
pub open spec fn has_visible_parent(p: Seq<char>) -> bool {
    &&& slash_path(p)
    &&& p.len() >= 2
    &&& p[0] == '/'
    &&& p[1] != '/'
    &&& p[1] != '.'
}

/// `Path::parent` as text: the path without its last component, which is a
/// proper prefix of the path (`Path::parent` returns a slice of it). It is
/// `None` only for a path that ends in a root or a prefix or is empty, so a
/// path made of a root and a folder name has one. How other paths split
/// depends on the platform.
#[verifier::external_body]
fn path_parent(path: &str) -> (r: Option<String>)
    ensures
        r matches Some(q) ==> q@.len() < path@.len() && path@.take(q@.len() as int) == q@,
        has_visible_parent(path@) ==> r.is_some(),
{
    match std::path::Path::new(path).parent() {
        Some(p) => Some(p.to_string_lossy().to_string()),
        None => None,
    }
}

/// The error of a command given a path that is not absolute.
pub open spec fn not_absolute_error() -> Seq<char> {
    "Invalid path: must be absolute path"@
}

/// Refuses a path that is not absolute on this platform, with `Invalid path:
/// must be absolute path`.
pub fn check_absolute_path(path: &str) -> (r: Result<(), String>)
    ensures
        r matches Err(m) ==> m@ == not_absolute_error(),
        plainly_relative(path@) ==> r is Err,
{
    if path_is_absolute(path) {
        Ok(())
    } else {
        Err("Invalid path: must be absolute path".to_owned())
    }
}

/// The output folder shown for a scanned folder: `result` inside it; a
/// folder path that is not absolute is refused.
pub fn get_default_output_path(folder_path: &str) -> (r: Result<String, String>)
    ensures
        r matches Err(m) ==> m@ == not_absolute_error(),
        plainly_relative(folder_path@) ==> r is Err,
        r matches Ok(p) ==> joined_under(folder_path@, "result"@, p@),
{
    match check_absolute_path(folder_path) {
        Err(e) => Err(e),
        Ok(()) => Ok(join_result(folder_path)),
    }
}

/// `q` is the parent of the folder `f` (a proper prefix of it), or `f`
/// itself when it has no parent; a folder made of a root and a name always
/// has one.
pub open spec fn parent_or_self(f: Seq<char>, q: Seq<char>) -> bool {
    ||| (q.len() < f.len() && f.take(q.len() as int) == q)
    ||| (q == f && !has_visible_parent(f))
}

/// The output folder suggested for a scanned folder: `result` inside the
/// shortened form (see `do_simplify_output_path`) of its parent (of the
/// folder itself when it has none); a folder path that is not absolute is
/// refused.
pub fn get_suggested_output_path(folder_path: &str) -> (r: Result<String, String>)
    ensures
        r matches Err(m) ==> m@ == not_absolute_error(),
        plainly_relative(folder_path@) ==> r is Err,
        r matches Ok(p) ==> exists|q: Seq<char>, s: Seq<char>|
            parent_or_self(folder_path@, q) && simplified_from(q, s) && joined_under(
                s,
                "result"@,
                p@,
            ),
{
    if let Err(e) = check_absolute_path(folder_path) {
        return Err(e);
    }
    let parent = match path_parent(folder_path) {
        Some(p) => p,
        None => folder_path.to_owned(),
    };
    assert(parent_or_self(folder_path@, parent@));
    let simplified = do_simplify_output_path(parent.as_str());
    let r = join_result(simplified.as_str());
    assert(parent_or_self(folder_path@, parent@) && simplified_from(parent@, simplified@)
        && joined_under(simplified@, "result"@, r@));
    Ok(r)
}

} // verus!
