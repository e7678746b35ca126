use vstd::prelude::*;

use crate::error::MigrationError;

verus! {

/// Index of the first `_` in `s`, or `s.len()` when there is none.
pub open spec fn underscore_index(s: Seq<char>) -> int
    decreases s.len(),
{
    if s.len() == 0 {
        0
    } else if s[0] == '_' {
        0
    } else {
        1 + underscore_index(s.drop_first())
    }
}

/// A name is well formed when a `_` ends its version segment.
pub open spec fn well_formed_name(name: Seq<char>) -> bool {
    underscore_index(name) < name.len()
}

/// `s` with every `-` removed.
pub open spec fn strip_dashes(s: Seq<char>) -> Seq<char> {
    s.filter(|c: char| c != '-')
}

/// The version of a migration: the segment before the first `_`, without dashes.
pub open spec fn version_of(name: Seq<char>) -> Seq<char> {
    strip_dashes(name.take(underscore_index(name)))
}

proof fn lemma_underscore_index(s: Seq<char>, i: int)
    requires
        0 <= i <= s.len(),
        forall|j: int| 0 <= j < i ==> s[j] != '_',
    ensures
        i <= underscore_index(s) <= s.len(),
        i < s.len() && s[i] == '_' ==> underscore_index(s) == i,
    decreases i,
{
    if i > 0 {
        lemma_underscore_index(s.drop_first(), i - 1);
    } else {
        lemma_underscore_index_bound(s);
    }
}

proof fn lemma_underscore_index_bound(s: Seq<char>)
    ensures
        0 <= underscore_index(s) <= s.len(),
    decreases s.len(),
{
    if s.len() > 0 {
        lemma_underscore_index_bound(s.drop_first());
    }
}

/// A name `<prefix>_<rest>`, whose prefix holds no `_`, is well formed and its
/// version is the prefix with every `-` removed, whatever `rest` holds.
pub proof fn lemma_version_ignores_rest(prefix: Seq<char>, rest: Seq<char>)
    requires
        !prefix.contains('_'),
    ensures
        well_formed_name(prefix + seq!['_'] + rest),
        version_of(prefix + seq!['_'] + rest) == strip_dashes(prefix),
{
    let name = prefix + seq!['_'] + rest;
    assert forall|j: int| 0 <= j < prefix.len() implies name[j] != '_' by {
        assert(name[j] == prefix[j]);
    }
    assert(name[prefix.len() as int] == '_');
    lemma_underscore_index(name, prefix.len() as int);
    assert(name.take(prefix.len() as int) =~= prefix);
}

/// Relies on String::push: appends one character at the end.
#[verifier::external_body]
fn push_char(s: &mut String, c: char)
    ensures
        final(s)@ == old(s)@.push(c),
{
    s.push(c);
}

/// The version of a migration name, or `None` when the name has no `_`.
pub fn version_from_string(path: &str) -> (r: Option<String>)
    ensures
        r.is_some() == well_formed_name(path@),
        r matches Some(v) ==> v@ == version_of(path@),
{
    let n = path.unicode_len();
    let mut out = String::new();
    let mut i: usize = 0;
    while i < n
        invariant
            n == path@.len(),
            0 <= i <= n,
            forall|j: int| 0 <= j < i ==> path@[j] != '_',
            out@ == strip_dashes(path@.take(i as int)),
        decreases n - i,
    {
        let c = path.get_char(i);
        if c == '_' {
            proof {
                lemma_underscore_index(path@, i as int);
            }
            return Some(out);
        }
        proof {
            let p = path@.take(i as int);
            assert(path@.take(i + 1) =~= p.push(c));
            p.lemma_filter_push(c, |c: char| c != '-');
        }
        if c != '-' {
            push_char(&mut out, c);
        }
        i = i + 1;
    }
    proof {
        lemma_underscore_index(path@, i as int);
    }
    None
}

/// Derives the canonical version of a migration name: the segment before the
/// first `_`, with every `-` removed. A name without `_` is refused.
pub fn derive_version(name: &str) -> (r: Result<String, MigrationError>)
    ensures
        r.is_ok() == well_formed_name(name@),
        r matches Ok(v) ==> v@ == version_of(name@),
        r matches Err(e) ==> e == MigrationError::InvalidMigrationName,
{
    match version_from_string(name) {
        Some(v) => Ok(v),
        None => Err(MigrationError::InvalidMigrationName),
    }
}

} // verus!
