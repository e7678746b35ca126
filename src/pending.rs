use vstd::prelude::*;

use crate::error::MigrationError;
use crate::migration::{mig_version, EmbeddedMigration, Version};
use crate::version::well_formed_name;

verus! {

broadcast use vstd::seq_lib::group_to_multiset_ensures;

/// Lexicographic order on versions: `a` sorts strictly before `b`.
pub open spec fn version_lt(a: Seq<char>, b: Seq<char>) -> bool
    decreases a.len(),
{
    if a.len() == 0 {
        b.len() > 0
    } else if b.len() == 0 {
        false
    } else if a[0] != b[0] {
        a[0] < b[0]
    } else {
        version_lt(a.drop_first(), b.drop_first())
    }
}

/// `a` does not sort after `b`.
pub open spec fn version_le(a: Seq<char>, b: Seq<char>) -> bool {
    !version_lt(b, a)
}

/// Migrations in ascending order of version.
pub open spec fn sorted_by_version(s: Seq<EmbeddedMigration>) -> bool {
    forall|i: int, j: int| 0 <= i < j < s.len() ==> version_le(mig_version(s[i]), mig_version(s[j]))
}

/// No two migrations of the set share a version.
pub open spec fn unique_versions(set: Seq<EmbeddedMigration>) -> bool {
    forall|a: int, b: int|
        0 <= a < set.len() && 0 <= b < set.len() && a != b ==> mig_version(#[trigger] set[a]) != mig_version(
            #[trigger] set[b],
        )
}

/// Migrations in strictly ascending order of version.
pub open spec fn strictly_sorted_by_version(s: Seq<EmbeddedMigration>) -> bool {
    forall|i: int, j: int| 0 <= i < j < s.len() ==> version_lt(mig_version(#[trigger] s[i]), mig_version(#[trigger] s[j]))
}

/// Every name in the set is well formed.
pub open spec fn all_well_formed(set: Seq<EmbeddedMigration>) -> bool {
    forall|i: int| 0 <= i < set.len() ==> well_formed_name(#[trigger] set[i].name@)
}

/// The versions that the bookkeeping rows record.
pub open spec fn applied_versions(applied: Seq<Version>) -> Set<Seq<char>> {
    Set::new(|v: Seq<char>| exists|i: int| 0 <= i < applied.len() && applied[i].version@ == v)
}

/// The migrations of the set whose version has no bookkeeping row, in set order.
pub open spec fn pending_of(set: Seq<EmbeddedMigration>, store: Set<Seq<char>>) -> Seq<EmbeddedMigration> {
    set.filter(|m: EmbeddedMigration| !store.contains(mig_version(m)))
}

proof fn lemma_lt_asymmetric(a: Seq<char>, b: Seq<char>)
    ensures
        !(version_lt(a, b) && version_lt(b, a)),
    decreases a.len(),
{
    if a.len() > 0 && b.len() > 0 && a[0] == b[0] {
        lemma_lt_asymmetric(a.drop_first(), b.drop_first());
    }
}

proof fn lemma_lt_total(a: Seq<char>, b: Seq<char>)
    ensures
        version_lt(a, b) || version_lt(b, a) || a == b,
    decreases a.len(),
{
    if a.len() == 0 && b.len() == 0 {
        assert(a =~= b);
    } else if a.len() > 0 && b.len() > 0 && a[0] == b[0] {
        lemma_lt_total(a.drop_first(), b.drop_first());
        if a.drop_first() == b.drop_first() {
            assert forall|k: int| 0 <= k < a.len() implies a[k] == b[k] by {
                if k > 0 {
                    assert(a[k] == a.drop_first()[k - 1]);
                    assert(b[k] == b.drop_first()[k - 1]);
                }
            }
            assert(a.drop_first().len() == b.drop_first().len());
            assert(a.len() == b.len());
            assert(a =~= b);
        }
    } else if a.len() > 0 && b.len() > 0 {
        assert(a[0] != b[0]);
    }
}

proof fn lemma_lt_transitive(a: Seq<char>, b: Seq<char>, c: Seq<char>)
    requires
        version_lt(a, b),
        version_lt(b, c),
    ensures
        version_lt(a, c),
    decreases a.len(),
{
    if a.len() > 0 && b.len() > 0 && c.len() > 0 && a[0] == b[0] && b[0] == c[0] {
        lemma_lt_transitive(a.drop_first(), b.drop_first(), c.drop_first());
    }
}

/// Whether version `a` sorts strictly before version `b`.
pub fn version_less(a: &str, b: &str) -> (r: bool)
    ensures
        r == version_lt(a@, b@),
{
    let la = a.unicode_len();
    let lb = b.unicode_len();
    let mut i: usize = 0;
    assert(a@.skip(0) =~= a@);
    assert(b@.skip(0) =~= b@);
    while i < la && i < lb
        invariant
            la == a@.len(),
            lb == b@.len(),
            0 <= i <= la,
            i <= lb,
            version_lt(a@, b@) == version_lt(a@.skip(i as int), b@.skip(i as int)),
        decreases la - i,
    {
        let ca = a.get_char(i);
        let cb = b.get_char(i);
        if ca != cb {
            return ca < cb;
        }
        assert(a@.skip(i as int).drop_first() =~= a@.skip(i + 1));
        assert(b@.skip(i as int).drop_first() =~= b@.skip(i + 1));
        i = i + 1;
    }
    i < lb
}

/// The migrations of `set` that no row of `applied` records, sorted ascending by
/// version. Migrations that share a version all stay.
pub fn compute_pending(set: &[EmbeddedMigration], applied: &[Version]) -> (r: Vec<EmbeddedMigration>)
    requires
        all_well_formed(set@),
    ensures
        r@.to_multiset() == pending_of(set@, applied_versions(applied@)).to_multiset(),
        sorted_by_version(r@),
        unique_versions(set@) ==> strictly_sorted_by_version(r@),
        forall|m: EmbeddedMigration| #[trigger] r@.contains(m) <==> (set@.contains(m)
            && !applied_versions(applied@).contains(mig_version(m))),
{
    let ghost store = applied_versions(applied@);
    let ghost pred = |m: EmbeddedMigration| !store.contains(mig_version(m));
    let mut out: Vec<EmbeddedMigration> = Vec::new();
    let mut keys: Vec<String> = Vec::new();
    let mut i: usize = 0;
    while i < set.len()
        invariant
            0 <= i <= set@.len(),
            all_well_formed(set@),
            store == applied_versions(applied@),
            pred == (|m: EmbeddedMigration| !store.contains(mig_version(m))),
            keys@.len() == out@.len(),
            forall|k: int| 0 <= k < out@.len() ==> (#[trigger] keys@[k])@ == mig_version(out@[k]),
            out@.to_multiset() == set@.take(i as int).filter(pred).to_multiset(),
            sorted_by_version(out@),
            forall|k: int| 0 <= k < out@.len() ==> exists|x: int| 0 <= x < i && set@[x] == #[trigger] out@[k],
            unique_versions(set@) ==> forall|a: int, b: int|
                0 <= a < b < out@.len() ==> mig_version(#[trigger] out@[a]) != mig_version(#[trigger] out@[b]),
        decreases set@.len() - i,
    {
        let m = set[i];
        let key = m.version();
        proof {
            assert(set@.take(i + 1) =~= set@.take(i as int).push(m));
            set@.take(i as int).lemma_filter_push(m, pred);
        }
        let mut found = false;
        let mut j: usize = 0;
        while j < applied.len()
            invariant
                0 <= j <= applied@.len(),
                found == exists|k: int| 0 <= k < j && applied@[k].version@ == key@,
            decreases applied@.len() - j,
        {
            if applied[j].version == key {
                found = true;
            }
            j = j + 1;
        }
        assert(found == store.contains(key@));
        if !found {
            // insertion point: after every entry that does not sort after `key`
            let mut p: usize = 0;
            let mut stop = false;
            while p < out.len() && !stop
                invariant
                    0 <= p <= out@.len(),
                    stop ==> p < out@.len() && version_lt(key@, mig_version(out@[p as int])),
                    keys@.len() == out@.len(),
                    forall|k: int| 0 <= k < out@.len() ==> (#[trigger] keys@[k])@ == mig_version(out@[k]),
                    forall|k: int| 0 <= k < p ==> version_le(mig_version(#[trigger] out@[k]), key@),
                decreases out@.len() - p + (if stop { 0int } else { 1int }),
            {
                if version_less(key.as_str(), keys[p].as_str()) {
                    stop = true;
                } else {
                    p = p + 1;
                }
            }
            proof {
                assert forall|k: int| p <= k < out@.len() implies version_le(key@, mig_version(#[trigger] out@[k])) by {
                    lemma_lt_asymmetric(key@, mig_version(out@[p as int]));
                    if k > p {
                        assert(version_le(mig_version(out@[p as int]), mig_version(out@[k])));
                    }
                    if version_lt(mig_version(out@[k]), key@) {
                        lemma_lt_transitive(mig_version(out@[k]), key@, mig_version(out@[p as int]));
                        lemma_lt_asymmetric(mig_version(out@[k]), mig_version(out@[p as int]));
                    }
                }
            }
            let ghost old_out = out@;
            out.insert(p, m);
            keys.insert(p, key);
            proof {
                vstd::seq_lib::to_multiset_insert(old_out, p as int, m);
                assert forall|a: int, b: int| 0 <= a < b < out@.len() implies version_le(
                    mig_version(out@[a]),
                    mig_version(out@[b]),
                ) by {
                    if b < p {
                    } else if a < p && b == p {
                    } else if a < p {
                        assert(out@[b] == old_out[b - 1]);
                    } else if a == p {
                        assert(out@[b] == old_out[b - 1]);
                    } else {
                        assert(out@[a] == old_out[a - 1]);
                        assert(out@[b] == old_out[b - 1]);
                    }
                }
                assert forall|k: int| 0 <= k < out@.len() implies (#[trigger] keys@[k])@ == mig_version(out@[k]) by {
                    if k > p {
                        assert(out@[k] == old_out[k - 1]);
                    }
                }
                assert forall|k: int| 0 <= k < out@.len() implies exists|x: int| 0 <= x < i + 1 && set@[x] == #[trigger] out@[k] by {
                    if k < p {
                        let x = choose|x: int| 0 <= x < i && set@[x] == old_out[k];
                        assert(set@[x] == out@[k]);
                    } else if k == p {
                        assert(set@[i as int] == out@[k]);
                    } else {
                        assert(out@[k] == old_out[k - 1]);
                        let x = choose|x: int| 0 <= x < i && set@[x] == old_out[k - 1];
                        assert(set@[x] == out@[k]);
                    }
                }
                if unique_versions(set@) {
                    assert forall|k: int| 0 <= k < old_out.len() implies mig_version(#[trigger] old_out[k]) != key@ by {
                        let x = choose|x: int| 0 <= x < i && set@[x] == old_out[k];
                        assert(mig_version(set@[x]) != mig_version(set@[i as int]));
                    }
                    assert forall|a: int, b: int| 0 <= a < b < out@.len() implies mig_version(#[trigger] out@[a])
                        != mig_version(#[trigger] out@[b]) by {
                        if b < p {
                        } else if a < p && b == p {
                            assert(mig_version(old_out[a]) != key@);
                        } else if a < p {
                            assert(out@[b] == old_out[b - 1]);
                        } else if a == p {
                            assert(out@[b] == old_out[b - 1]);
                            assert(mig_version(old_out[b - 1]) != key@);
                        } else {
                            assert(out@[a] == old_out[a - 1]);
                            assert(out@[b] == old_out[b - 1]);
                        }
                    }
                }
            }
        }
        i = i + 1;
    }
    assert(set@.take(set@.len() as int) =~= set@);
    proof {
        if unique_versions(set@) {
            assert forall|a: int, b: int| 0 <= a < b < out@.len() implies version_lt(
                mig_version(#[trigger] out@[a]),
                mig_version(#[trigger] out@[b]),
            ) by {
                assert(version_le(mig_version(out@[a]), mig_version(out@[b])));
                assert(mig_version(out@[a]) != mig_version(out@[b]));
                lemma_lt_total(mig_version(out@[a]), mig_version(out@[b]));
            }
        }
        assert forall|m: EmbeddedMigration| #[trigger] out@.contains(m) <==> (set@.contains(m)
            && !store.contains(mig_version(m))) by {
            let f = set@.filter(pred);
            vstd::seq_lib::to_multiset_contains(out@, m);
            vstd::seq_lib::to_multiset_contains(f, m);
            if f.contains(m) {
                set@.lemma_filter_contains_rev(pred, m);
                let k = choose|k: int| 0 <= k < f.len() && f[k] == m;
                set@.lemma_filter_pred(pred, k);
            }
            if set@.contains(m) && !store.contains(mig_version(m)) {
                let k = choose|k: int| 0 <= k < set@.len() && set@[k] == m;
                set@.lemma_filter_contains(pred, k);
            }
        }
    }
    out
}

/// `set[i]` is the first migration of `set` whose version is `v`.
pub open spec fn first_with_version(set: Seq<EmbeddedMigration>, v: Seq<char>, i: int) -> bool {
    &&& 0 <= i < set.len()
    &&& mig_version(set[i]) == v
    &&& forall|k: int| 0 <= k < i ==> mig_version(#[trigger] set[k]) != v
}

/// The migration to revert: the one whose version heads `applied_desc`, the
/// rows listed newest first. `NotFound` when there is no row, or when no
/// migration of `set` has that version. Of several with that version, the
/// first is taken.
pub fn select_last(set: &[EmbeddedMigration], applied_desc: &[Version]) -> (r: Result<EmbeddedMigration, MigrationError>)
    requires
        all_well_formed(set@),
    ensures
        r.is_err() <==> (applied_desc@.len() == 0 || !exists|i: int| 0 <= i < set@.len() && mig_version(#[trigger] set@[i]) == applied_desc@[0].version@),
        r matches Err(e) ==> e == MigrationError::NotFound,
        r matches Ok(m) ==> mig_version(m) == applied_desc@[0].version@
            && exists|i: int| first_with_version(set@, applied_desc@[0].version@, i) && set@[i] == m,
{
    if applied_desc.len() == 0 {
        return Err(MigrationError::NotFound);
    }
    let last = &applied_desc[0].version;
    let mut i: usize = 0;
    while i < set.len()
        invariant
            0 <= i <= set@.len(),
            all_well_formed(set@),
            applied_desc@.len() > 0,
            last@ == applied_desc@[0].version@,
            forall|k: int| 0 <= k < i ==> mig_version(#[trigger] set@[k]) != last@,
        decreases set@.len() - i,
    {
        let m = set[i];
        if m.version() == *last {
            assert(set@[i as int] == m);
            assert(mig_version(set@[i as int]) == applied_desc@[0].version@);
            assert(first_with_version(set@, applied_desc@[0].version@, i as int));
            return Ok(m);
        }
        i = i + 1;
    }
    Err(MigrationError::NotFound)
}

} // verus!
