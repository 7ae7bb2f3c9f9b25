use vstd::prelude::*;
use vstd::string::*;

use crate::text::{chars_of, string_of};

verus! {

broadcast use vstd::string::group_string_axioms;

/// A path is absolute when it begins with the root `/`.
pub open spec fn is_absolute(path: Seq<char>) -> bool {
    path.len() > 0 && path[0] == '/'
}

/// `base` joined with `rel`, as `PathBuf::join` does on Unix: an absolute
/// `rel` replaces `base`; otherwise a `/` separates them unless `base` is
/// empty or already ends in `/`.
pub open spec fn join_path(base: Seq<char>, rel: Seq<char>) -> Seq<char> {
    if is_absolute(rel) {
        rel
    } else if base.len() == 0 || base.last() == '/' {
        base + rel
    } else {
        base + seq!['/'] + rel
    }
}

/// Joining onto an absolute base gives an absolute path.
pub proof fn lemma_join_absolute(base: Seq<char>, rel: Seq<char>)
    ensures
        is_absolute(base) ==> is_absolute(join_path(base, rel)),
{
    if is_absolute(base) && !is_absolute(rel) {
        if base.last() == '/' {
            assert((base + rel)[0] == base[0]);
        } else {
            assert((base + seq!['/'] + rel)[0] == base[0]);
        }
    }
}

/// Whether `path` is absolute.
pub fn path_is_absolute(path: &str) -> (r: bool)
    ensures
        r == is_absolute(path@),
{
    let c = chars_of(path);
    c.len() > 0 && c[0] == '/'
}

/// `base` joined with `rel`.
pub fn join(base: &str, rel: &str) -> (out: String)
    ensures
        out@ == join_path(base@, rel@),
{
    let b = chars_of(base);
    if path_is_absolute(rel) {
        String::from_str(rel)
    } else if b.len() == 0 || b[b.len() - 1] == '/' {
        let mut out = String::from_str(base);
        out.append(rel);
        out
    } else {
        let mut out = String::from_str(base);
        out.append("/");
        out.append(rel);
        proof {
            reveal_strlit("/");
        }
        assert(out@ =~= join_path(base@, rel@));
        out
    }
}

/// A name for what `std::path::Path::parent` returns for a path given as text.
pub uninterp spec fn path_parent(path: Seq<char>) -> Option<Seq<char>>;

/// Calls `std::path::Path::parent` on `path`. The contract claims only that
/// the result is the named function of the path; the parent of a path given
/// as UTF-8 text is a prefix of it, so the conversion back to text is exact.
#[verifier::external_body]
pub(crate) fn parent_of(path: &str) -> (r: Option<String>)
    ensures
        match r {
            Some(p) => path_parent(path@) == Some(p@),
            None => path_parent(path@) is None,
        },
{
    std::path::Path::new(path).parent().map(|p| p.to_string_lossy().into_owned())
}

/// The directory that paths relative to the file at `path` are resolved
/// against: its parent, or `.` when it has none.
pub open spec fn anchor_dir(path: Seq<char>) -> Seq<char> {
    match path_parent(path) {
        Some(p) => p,
        None => seq!['.'],
    }
}

/// The directory that paths relative to the file at `path` are resolved against.
pub fn anchor_dir_of(path: &str) -> (out: String)
    ensures
        out@ == anchor_dir(path@),
{
    match parent_of(path) {
        Some(p) => p,
        None => {
            let out = String::from_str(".");
            proof {
                reveal_strlit(".");
            }
            assert(out@ =~= seq!['.']);
            out
        },
    }
}

/// The extension of a file name: the text after its last `.`, when that dot
/// is not the name's first character.
pub open spec fn file_extension(name: Seq<char>) -> Option<Seq<char>> {
    if exists|k: int| 0 < k < name.len() && name[k] == '.' {
        let k = choose|k: int|
            0 < k < name.len() && name[k] == '.' && forall|j: int| k < j < name.len() ==> name[j] != '.';
        Some(name.skip(k + 1))
    } else {
        None
    }
}

/// A file name whose extension is `yml` or `yaml`.
pub open spec fn is_yaml_file_name(name: Seq<char>) -> bool {
    match file_extension(name) {
        Some(ext) => ext == seq!['y', 'm', 'l'] || ext == seq!['y', 'a', 'm', 'l'],
        None => false,
    }
}

/// Whether a directory entry named `name` is read as a configuration file.
pub fn has_yaml_extension(name: &str) -> (r: bool)
    ensures
        r == is_yaml_file_name(name@),
{
    let c = chars_of(name);
    let mut k: usize = c.len();
    while k > 0 && c[k - 1] != '.'
        invariant
            k <= c.len(),
            forall|j: int| k <= j < c.len() ==> c@[j] != '.',
        decreases k,
    {
        k = k - 1;
    }
    if k <= 1 {
        proof {
            assert(!exists|m: int| 0 < m < c@.len() && c@[m] == '.') by {
                if exists|m: int| 0 < m < c@.len() && c@[m] == '.' {
                    let m = choose|m: int| 0 < m < c@.len() && c@[m] == '.';
                    if k == 1 {
                        assert(m >= 1);
                    }
                }
            }
        }
        return false;
    }
    let dot = k - 1;
    proof {
        assert(0 < dot < c@.len() && c@[dot as int] == '.');
        assert(exists|m: int| 0 < m < c@.len() && c@[m] == '.');
        assert(exists|m: int|
            0 < m < c@.len() && c@[m] == '.' && forall|j: int| m < j < c@.len() ==> c@[j] != '.') by {
            assert(forall|j: int| dot < j < c@.len() ==> c@[j] != '.');
        }
        let w = choose|m: int|
            0 < m < c@.len() && c@[m] == '.' && forall|j: int| m < j < c@.len() ==> c@[j] != '.';
        assert(0 < dot < c@.len() && c@[dot as int] == '.' && forall|j: int| dot < j < c@.len() ==> c@[j] != '.');
        if w != dot {
            if w < dot {
                assert(c@[dot as int] != '.');
            } else {
                assert(c@[w] != '.');
            }
        }
    }
    let ext_len = c.len() - k;
    let r = if ext_len == 3 {
        c[k] == 'y' && c[k + 1] == 'm' && c[k + 2] == 'l'
    } else if ext_len == 4 {
        c[k] == 'y' && c[k + 1] == 'a' && c[k + 2] == 'm' && c[k + 3] == 'l'
    } else {
        false
    };
    let ghost ext = c@.skip(k as int);
    assert(file_extension(name@) == Some(ext));
    proof {
        let yml = seq!['y', 'm', 'l'];
        let yaml = seq!['y', 'a', 'm', 'l'];
        assert(yml.len() == 3 && yml[0] == 'y' && yml[1] == 'm' && yml[2] == 'l');
        assert(yaml.len() == 4 && yaml[0] == 'y' && yaml[1] == 'a' && yaml[2] == 'm' && yaml[3] == 'l');
        assert(ext.len() == ext_len);
        assert(forall|j: int| 0 <= j < ext.len() ==> ext[j] == c@[k + j]);
        if ext_len == 3 {
            assert(r ==> ext =~= seq!['y', 'm', 'l']);
            assert(ext == seq!['y', 'm', 'l'] ==> ext[0] == 'y' && ext[1] == 'm' && ext[2] == 'l');
        } else if ext_len == 4 {
            assert(r ==> ext =~= seq!['y', 'a', 'm', 'l']);
            assert(ext == seq!['y', 'a', 'm', 'l'] ==> ext[0] == 'y' && ext[1] == 'a' && ext[2] == 'm' && ext[3] == 'l');
        }
    }
    r
}

/// A file name `stem.ext`, with a non-empty stem and no `.` in `ext`, has
/// the extension `ext`; it is read as a configuration exactly when `ext`
/// is `yml` or `yaml`. A name whose only `.` is its first character, or
/// that has none, has no extension.
pub proof fn lemma_extension_after_last_dot(stem: Seq<char>, ext: Seq<char>)
    requires
        forall|i: int| 0 <= i < ext.len() ==> ext[i] != '.',
    ensures
        stem.len() > 0 ==> file_extension(stem + seq!['.'] + ext) == Some(ext),
        stem.len() > 0 ==> (is_yaml_file_name(stem + seq!['.'] + ext) <==> (ext == seq!['y', 'm', 'l'] || ext
            == seq!['y', 'a', 'm', 'l'])),
        file_extension(seq!['.'] + ext) is None,
        file_extension(ext) is None,
{
    let name = stem + seq!['.'] + ext;
    let k = stem.len() as int;
    if stem.len() > 0 {
        assert(name[k] == '.');
        assert(forall|j: int| k < j < name.len() ==> name[j] == ext[j - k - 1]);
        assert(exists|m: int| 0 < m < name.len() && name[m] == '.');
        let w = choose|m: int|
            0 < m < name.len() && name[m] == '.' && forall|j: int| m < j < name.len() ==> name[j] != '.';
        assert(0 < k < name.len() && name[k] == '.' && forall|j: int| k < j < name.len() ==> name[j] != '.');
        if w < k {
            assert(name[k] != '.');
        } else if w > k {
            assert(name[w] == ext[w - k - 1]);
        }
        assert(name.skip(k + 1) =~= ext);
    }
    let d = seq!['.'] + ext;
    assert forall|m: int| 0 < m < d.len() implies d[m] != '.' by {
        assert(d[m] == ext[m - 1]);
    }
}

} // verus!
