//! Turning a remote asset key into a single, filesystem-safe file name.
use vstd::prelude::*;

verus! {

/// The character that stands in for a path separator in a local file name.
pub const SEPARATOR_SUBSTITUTE: char = '_';

/// The characters that separate path components on a supported filesystem.
pub open spec fn is_separator(c: char) -> bool {
    c == '/' || c == '\\'
}

/// One character of a sanitized name.
pub open spec fn sanitize_char(c: char) -> char {
    if is_separator(c) {
        SEPARATOR_SUBSTITUTE
    } else {
        c
    }
}

/// The local file name of a key: every separator replaced, all else kept.
pub open spec fn sanitized(key: Seq<char>) -> Seq<char> {
    key.map_values(|c: char| sanitize_char(c))
}

/// `dir` and `name` joined by one `/`, unless `dir` is empty or already ends in one.
pub open spec fn joined(dir: Seq<char>, name: Seq<char>) -> Seq<char> {
    if dir.len() == 0 || dir.last() == '/' {
        dir + name
    } else {
        dir.push('/') + name
    }
}

/// The suffix of the file that a download is written to before it is renamed.
pub open spec fn partial_suffix() -> Seq<char> {
    seq!['.', 'p', 'a', 'r', 't']
}

/// The file name under which the asset `key` is stored.
pub fn sanitize_key(key: &str) -> (r: String)
    ensures
        r@ == sanitized(key@),
{
    let n = key.unicode_len();
    let mut out = String::new();
    let mut i: usize = 0;
    while i < n
        invariant
            n == key@.len(),
            i <= n,
            out@ == sanitized(key@.take(i as int)),
        decreases n - i,
    {
        let c = key.get_char(i);
        if c == '/' || c == '\\' {
            out.append("_");
            proof {
                reveal_strlit("_");
            }
        } else {
            let one = key.substring_char(i, i + 1);
            proof {
                assert(one@ =~= seq![c]);
            }
            out.append(one);
        }
        proof {
            assert(key@.take(i + 1) =~= key@.take(i as int).push(c));
            assert(sanitized(key@.take(i + 1)) =~= sanitized(key@.take(i as int)).push(
                sanitize_char(c),
            ));
        }
        i = i + 1;
    }
    proof {
        assert(key@.take(n as int) =~= key@);
    }
    out
}

/// `dir` joined with `name` as one path.
pub fn join_path(dir: &str, name: &str) -> (r: String)
    ensures
        r@ == joined(dir@, name@),
{
    let n = dir.unicode_len();
    let mut out = String::from_str(dir);
    if n > 0 && dir.get_char(n - 1) != '/' {
        out.append("/");
        proof {
            reveal_strlit("/");
        }
    }
    out.append(name);
    out
}

/// The path at which the asset `key` is stored inside `offline_dir`.
pub fn local_path_for(offline_dir: &str, key: &str) -> (r: String)
    ensures
        r@ == joined(offline_dir@, sanitized(key@)),
{
    let name = sanitize_key(key);
    join_path(offline_dir, name.as_str())
}

/// The temporary path that a download to `final_path` is written to first.
pub fn partial_path_for(final_path: &str) -> (r: String)
    ensures
        r@ == final_path@ + partial_suffix(),
{
    let mut out = String::from_str(final_path);
    out.append(".part");
    proof {
        reveal_strlit(".part");
        assert(".part"@ =~= partial_suffix());
    }
    out
}

} // verus!
