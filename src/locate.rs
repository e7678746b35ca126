use vstd::prelude::*;

verus! {

/// What joining `part` onto the path `base` gives.
pub uninterp spec fn joined_path(base: Seq<char>, part: Seq<char>) -> Seq<char>;

/// The path without its last component, or `None` at a root or an empty path.
pub uninterp spec fn parent_path(p: Seq<char>) -> Option<Seq<char>>;

/// Relies on std::path::Path::join, whose result depends on the two paths alone.
#[verifier::external_body]
fn join_path(base: &str, part: &str) -> (r: String)
    ensures
        r@ == joined_path(base@, part@),
{
    std::path::Path::new(base).join(part).to_string_lossy().into_owned()
}

/// Relies on std::path::Path::parent, whose result depends on the path alone.
#[verifier::external_body]
fn parent_of(p: &str) -> (r: Option<String>)
    ensures
        r.is_some() == parent_path(p@).is_some(),
        r matches Some(q) ==> parent_path(p@) == Some(q@),
{
    match std::path::Path::new(p).parent() {
        Some(q) => Some(q.to_string_lossy().into_owned()),
        None => None,
    }
}

/// One step of the upward search for a migrations directory.
#[derive(Debug, PartialEq, Eq)]
pub enum SearchStep {
    /// The migrations directory was found here.
    Found(String),
    /// Look next in this directory, the parent of the last one.
    Ascend(String),
    /// There is no parent left to look in.
    Exhausted,
}

/// Where the migrations directory is looked for next.
#[derive(Debug, PartialEq, Eq)]
pub enum Resolution {
    /// The given directory: it only remains to make it canonical.
    Given(String),
    /// Search upward, starting from this directory.
    SearchFrom(String),
}

/// Whether a directory entry holds a migration: it is not a plain file and its
/// name does not start with `.`.
pub fn is_migration_directory(file_name: &str, is_file: bool) -> (r: bool)
    ensures
        r == (!is_file && !(file_name@.len() > 0 && file_name@[0] == '.')),
{
    if is_file {
        false
    } else if file_name.unicode_len() == 0 {
        true
    } else {
        file_name.get_char(0) != '.'
    }
}

/// The directory `<path>/migrations`, whose presence the search tests.
pub fn migrations_candidate(path: &str) -> (r: String)
    ensures
        r@ == joined_path(path@, "migrations"@),
{
    join_path(path, "migrations")
}

/// Decides one step of the search from `path`: `candidate_is_dir` tells
/// whether `<path>/migrations` is a directory. Found there, or else go on in
/// the parent of `path`, or give up when `path` has none.
pub fn search_for_migrations_directory(path: &str, candidate_is_dir: bool) -> (r: SearchStep)
    ensures
        candidate_is_dir ==> (r matches SearchStep::Found(c) && c@ == joined_path(path@, "migrations"@)),
        !candidate_is_dir && parent_path(path@) is None ==> r is Exhausted,
        !candidate_is_dir && parent_path(path@) is Some ==> (r matches SearchStep::Ascend(q)
            && parent_path(path@) == Some(q@)),
{
    if candidate_is_dir {
        SearchStep::Found(migrations_candidate(path))
    } else {
        match parent_of(path) {
            Some(q) => SearchStep::Ascend(q),
            None => SearchStep::Exhausted,
        }
    }
}

/// Where to find the migrations of the crate at `cargo_manifest_dir`: the
/// given relative directory under it, or else a search that starts in its
/// `src` directory, where migrations are commonly kept.
pub fn resolve_migrations_directory(cargo_manifest_dir: &str, relative_path_to_migrations: Option<&str>) -> (r: Resolution)
    ensures
        relative_path_to_migrations matches Some(dir) ==> (r matches Resolution::Given(p)
            && p@ == joined_path(cargo_manifest_dir@, dir@)),
        relative_path_to_migrations is None ==> (r matches Resolution::SearchFrom(p)
            && p@ == joined_path(cargo_manifest_dir@, "src"@)),
{
    match relative_path_to_migrations {
        Some(dir) => Resolution::Given(join_path(cargo_manifest_dir, dir)),
        None => Resolution::SearchFrom(join_path(cargo_manifest_dir, "src")),
    }
}

} // verus!
