//! Server settings derived from the command line.
use vstd::prelude::*;

verus! {

/// Where the model comes from.
#[derive(Debug, Clone)]
pub enum ModelArg {
    /// A GGUF file on disk.
    Local { path: String },
    /// A file of a Hugging Face repository.
    HuggingFace { repo: String, model: String },
}

/// The name the model is served under when its file has none.
pub open spec fn default_model_id() -> Seq<char> {
    "llama.cpp"@
}

/// `name` could be the final component of `path`: a non-empty run of
/// characters of the path.
pub open spec fn is_file_name_of(name: Seq<char>, path: Seq<char>) -> bool {
    &&& name.len() > 0
    &&& exists|i: int| 0 <= i && i + name.len() <= path.len() && #[trigger] path.subrange(i, i + name.len()) == name
}

/// `n` is a plain file name: not empty, not `.` or `..`, and without the
/// characters that separate components or prefixes on some platform
/// (`/`, `\\`, `:`).
pub open spec fn plain_component(n: Seq<char>) -> bool {
    &&& n.len() > 0
    &&& n != "."@
    &&& n != ".."@
    &&& !n.contains('/')
    &&& !n.contains('\\')
    &&& !n.contains(':')
}

/// `path` is a directory part without `\\`, then `/`, then the plain file
/// name that starts at `k + 1`; the path does not start with `//`, which
/// some platforms read as the prefix of a network share.
pub open spec fn splits_at_final_component(path: Seq<char>, k: int) -> bool {
    &&& 0 <= k < path.len()
    &&& path[k] == '/'
    &&& plain_component(path.subrange(k + 1, path.len() as int))
    &&& !path.subrange(0, k).contains('\\')
    &&& !("//"@.is_prefix_of(path))
}

/// The file name every platform reads off `path`, where the path is that
/// plain: the whole path when it is a plain file name, or the plain name
/// after its last `/`.
pub open spec fn plain_final_name(path: Seq<char>) -> Option<Seq<char>> {
    if plain_component(path) {
        Some(path)
    } else if exists|k: int| #[trigger] splits_at_final_component(path, k) {
        let k = choose|k: int| #[trigger] splits_at_final_component(path, k);
        Some(path.subrange(k + 1, path.len() as int))
    } else {
        None
    }
}

/// The text of an optional name.
pub open spec fn name_view(name: Option<String>) -> Option<Seq<char>> {
    match name {
        Some(n) => Some(n@),
        None => None,
    }
}

/// The final component of `path`, when it has one that is valid UTF-8.
///
/// Calls `std::path::Path::file_name` and `OsStr::to_str`. Stated: a name
/// that comes back is a non-empty slice of the path, as a normal component
/// of a path is; and on a path whose last component is a plain file name,
/// with no `\\` and no leading `//` that could make a platform read a
/// prefix, that name comes back. Not stated: the result on other paths,
/// whose separators and prefixes depend on the platform. The two calls stay
/// in one wrapper: the value passed between them is an `OsStr` of
/// `std::ffi`, a module this library does not use.
#[verifier::external_body]
fn path_file_name(path: &str) -> (r: Option<String>)
    ensures
        r matches Some(n) ==> is_file_name_of(n@, path@),
        plain_final_name(path@) is Some ==> name_view(r) == plain_final_name(path@),
{
    std::path::Path::new(path).file_name().and_then(|s| s.to_str()).map(|s| s.to_string())
}

/// The model id for a file name: the name itself, or `llama.cpp` when the
/// path has none.
pub fn model_id_from_file_name(name: Option<String>) -> (r: String)
    ensures
        name matches Some(n) ==> r@ == n@,
        name is None ==> r@ == default_model_id(),
{
    match name {
        Some(n) => n,
        None => String::from_str("llama.cpp"),
    }
}

/// The model id of the model file at `path`: its file name, or `llama.cpp`.
pub fn model_id(path: &str) -> (r: String)
    ensures
        r@ == default_model_id() || is_file_name_of(r@, path@),
        plain_final_name(path@) matches Some(n) ==> r@ == n,
{
    let name = path_file_name(path);
    model_id_from_file_name(name)
}

/// The number of slots: as asked, but at least one.
pub fn slot_count(requested: usize) -> (r: usize)
    ensures
        r == (if requested == 0 {
            1
        } else {
            requested
        }),
{
    if requested == 0 {
        1
    } else {
        requested
    }
}

} // verus!
