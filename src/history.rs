//! Planning, validation and drift reporting over a catalog of scripts and a
//! schema's history.
use vstd::prelude::*;
use crate::error::{Inconsistency, InconsistencyView, ScurryError};
use crate::models::{history_view, HistoryView, ScurryMetadata};
use crate::versions::{
    catalog_view, ceiling, lemma_text_lt_asymmetric, lemma_text_lt_irreflexive,
    lemma_text_lt_transitive, text_le, text_less, text_lt, DesiredVersion, Version, VersionView,
};

verus! {

/// The version of the newest applied migration, if any.
pub open spec fn watermark(installed: Option<&ScurryMetadata>) -> Option<Seq<char>> {
    match installed {
        None => None,
        Some(m) => Some(m.script_version@),
    }
}

/// A version lies above the watermark and no higher than the ceiling.
pub open spec fn selected(v: Seq<char>, mark: Option<Seq<char>>, cap: Option<Seq<char>>) -> bool {
    &&& match mark {
        None => true,
        Some(w) => text_lt(w, v),
    }
    &&& match cap {
        None => true,
        Some(c) => text_le(v, c),
    }
}

/// The records of `cat` that are selected, in catalog order.
pub open spec fn upgrade_path(
    cat: Seq<VersionView>,
    mark: Option<Seq<char>>,
    cap: Option<Seq<char>>,
) -> Seq<VersionView>
    decreases cat.len(),
{
    if cat.len() == 0 {
        Seq::empty()
    } else {
        let rest = upgrade_path(cat.drop_last(), mark, cap);
        if selected(cat.last().version, mark, cap) {
            rest.push(cat.last())
        } else {
            rest
        }
    }
}

/// The records of `available` above the version of `installed` (all of them
/// when nothing is installed) and, for a specific target, no higher than it,
/// in catalog order.
pub fn choose_upgrade_path(
    available: &[Version],
    installed: &Option<&ScurryMetadata>,
    desired: &DesiredVersion,
) -> (r: Vec<Version>)
    ensures
        catalog_view(r@) == upgrade_path(
            catalog_view(available@),
            watermark(*installed),
            ceiling(*desired),
        ),
{
    let ghost cat = catalog_view(available@);
    let ghost mark = watermark(*installed);
    let ghost cap = ceiling(*desired);
    let mut res: Vec<Version> = Vec::new();
    let mut i: usize = 0;
    while i < available.len()
        invariant
            i <= available@.len(),
            cat == catalog_view(available@),
            mark == watermark(*installed),
            cap == ceiling(*desired),
            catalog_view(res@) == upgrade_path(cat.take(i as int), mark, cap),
        decreases available@.len() - i,
    {
        let v = &available[i];
        let above = match installed {
            None => true,
            Some(m) => text_less(m.script_version.as_str(), v.version.as_str()),
        };
        let below = match desired {
            DesiredVersion::Latest => true,
            DesiredVersion::Specific(s) => !text_less(s.as_str(), v.version.as_str()),
        };
        proof {
            assert(cat.take(i + 1).drop_last() =~= cat.take(i as int));
            assert(cat.take(i + 1).last() == v@);
        }
        if above && below {
            let ghost before = res@;
            res.push(v.clone());
            proof {
                assert(catalog_view(res@) =~= catalog_view(before).push(v@));
            }
        }
        i = i + 1;
    }
    proof {
        assert(cat.take(available@.len() as int) =~= cat);
    }
    res
}

/// The problem at position `i` of the history, if there is one there.
pub open spec fn divergence_at(
    cat: Seq<VersionView>,
    hist: Seq<HistoryView>,
    i: int,
) -> Option<InconsistencyView> {
    if i >= cat.len() {
        Some(InconsistencyView::UnknownVersion { version: hist[i].version })
    } else if cat[i].version != hist[i].version {
        Some(
            InconsistencyView::VersionMismatch {
                installed: hist[i].version,
                available: cat[i].version,
            },
        )
    } else if hist[i].hash != cat[i].hash {
        Some(
            InconsistencyView::HashMismatch {
                version: hist[i].version,
                installed_hash: hist[i].hash,
                available_hash: cat[i].hash,
            },
        )
    } else {
        None
    }
}

/// The first problem at a position `i` or later of the history.
pub open spec fn divergence_from(
    cat: Seq<VersionView>,
    hist: Seq<HistoryView>,
    i: nat,
) -> Option<InconsistencyView>
    decreases hist.len() - i,
{
    if i >= hist.len() {
        None
    } else {
        match divergence_at(cat, hist, i as int) {
            Some(d) => Some(d),
            None => divergence_from(cat, hist, i + 1),
        }
    }
}

/// The first position where the history and the catalog part ways, walking
/// both in step; `None` when the history is a prefix of the catalog.
pub open spec fn divergence(cat: Seq<VersionView>, hist: Seq<HistoryView>) -> Option<
    InconsistencyView,
> {
    divergence_from(cat, hist, 0)
}

/// Checks that `installed` is, position by position, a prefix of
/// `available` with matching versions and hashes, and reports the first
/// place where it is not.
pub fn verify_common_history(available: &[Version], installed: &[ScurryMetadata]) -> (r: Result<
    (),
    ScurryError,
>)
    ensures
        match r {
            Ok(_) => divergence(catalog_view(available@), history_view(installed@)) is None,
            Err(ScurryError::Consistency(x)) => divergence(
                catalog_view(available@),
                history_view(installed@),
            ) == Some(x@),
            Err(_) => false,
        },
{
    let ghost cat = catalog_view(available@);
    let ghost hist = history_view(installed@);
    let mut i: usize = 0;
    while i < installed.len()
        invariant
            i <= installed@.len(),
            cat == catalog_view(available@),
            hist == history_view(installed@),
            divergence_from(cat, hist, 0) == divergence_from(cat, hist, i as nat),
        decreases installed@.len() - i,
    {
        let m = &installed[i];
        if i >= available.len() {
            let x = Inconsistency::UnknownVersion { version: m.script_version.clone() };
            return Err(ScurryError::Consistency(x));
        }
        let v = &available[i];
        if v.version != m.script_version {
            let x = Inconsistency::VersionMismatch {
                installed: m.script_version.clone(),
                available: v.version.clone(),
            };
            return Err(ScurryError::Consistency(x));
        }
        if m.script_hash != v.hash {
            let x = Inconsistency::HashMismatch {
                version: m.script_version.clone(),
                installed_hash: m.script_hash.clone(),
                available_hash: v.hash.clone(),
            };
            return Err(ScurryError::Consistency(x));
        }
        i = i + 1;
    }
    Ok(())
}

/// How a catalog record differs from the history row at its position.
pub enum DifferenceKind {
    Missing,
    HashMismatch,
    VersionMismatch,
}

/// A catalog record that the history does not match.
#[derive(Debug)]
pub enum HistoryDifferences {
    /// No history row stands at the record's position.
    Missing(Version),
    /// The row at the record's position has the record's version and another hash.
    HashMismatch(Version),
    /// The row at the record's position has another version.
    VersionMismatch(Version),
}

impl View for HistoryDifferences {
    type V = (DifferenceKind, VersionView);

    open spec fn view(&self) -> (DifferenceKind, VersionView) {
        match self {
            HistoryDifferences::Missing(v) => (DifferenceKind::Missing, v@),
            HistoryDifferences::HashMismatch(v) => (DifferenceKind::HashMismatch, v@),
            HistoryDifferences::VersionMismatch(v) => (DifferenceKind::VersionMismatch, v@),
        }
    }
}

/// How the record at position `i` differs from the history row there.
pub open spec fn difference_at(
    cat: Seq<VersionView>,
    hist: Seq<HistoryView>,
    i: int,
) -> Option<DifferenceKind> {
    if i >= hist.len() {
        Some(DifferenceKind::Missing)
    } else if hist[i].version != cat[i].version {
        Some(DifferenceKind::VersionMismatch)
    } else if hist[i].hash != cat[i].hash {
        Some(DifferenceKind::HashMismatch)
    } else {
        None
    }
}

/// The differing records of `cat`, in catalog order, each with how it differs.
pub open spec fn differences(cat: Seq<VersionView>, hist: Seq<HistoryView>) -> Seq<
    (DifferenceKind, VersionView),
>
    decreases cat.len(),
{
    if cat.len() == 0 {
        Seq::empty()
    } else {
        let i = cat.len() - 1;
        let rest = differences(cat.drop_last(), hist);
        match difference_at(cat, hist, i) {
            Some(k) => rest.push((k, cat[i])),
            None => rest,
        }
    }
}

/// The views of a list of differences.
pub open spec fn differences_view(s: Seq<HistoryDifferences>) -> Seq<(DifferenceKind, VersionView)> {
    s.map_values(|d: HistoryDifferences| d@)
}

/// Compares catalog and history position by position and lists every
/// catalog record that the history does not match.
pub fn get_history_differences(available: &[Version], installed: &[ScurryMetadata]) -> (r: Vec<
    HistoryDifferences,
>)
    ensures
        differences_view(r@) == differences(catalog_view(available@), history_view(installed@)),
{
    let ghost cat = catalog_view(available@);
    let ghost hist = history_view(installed@);
    let mut results: Vec<HistoryDifferences> = Vec::new();
    let mut i: usize = 0;
    while i < available.len()
        invariant
            i <= available@.len(),
            cat == catalog_view(available@),
            hist == history_view(installed@),
            differences_view(results@) == differences(cat.take(i as int), hist),
        decreases available@.len() - i,
    {
        let a = &available[i];
        let ghost before = results@;
        proof {
            let t = cat.take(i + 1);
            assert(t.drop_last() =~= cat.take(i as int));
            assert(difference_at(t, hist, i as int) == difference_at(cat, hist, i as int));
            assert forall|j: int| 0 <= j < i implies #[trigger] difference_at(t.drop_last(), hist, j)
                == difference_at(cat, hist, j) by {}
        }
        if i < installed.len() {
            let sm = &installed[i];
            if sm.script_version != a.version {
                results.push(HistoryDifferences::VersionMismatch(a.clone()));
            } else if sm.script_hash != a.hash {
                results.push(HistoryDifferences::HashMismatch(a.clone()));
            }
        } else {
            results.push(HistoryDifferences::Missing(a.clone()));
        }
        proof {
            assert(differences_view(results@) =~= differences(cat.take(i + 1), hist));
        }
        i = i + 1;
    }
    proof {
        assert(cat.take(available@.len() as int) =~= cat);
    }
    results
}

/// The version of the newest row of a history.
pub open spec fn history_mark(h: Seq<HistoryView>) -> Option<Seq<char>> {
    if h.len() == 0 {
        None
    } else {
        Some(h.last().version)
    }
}

/// The catalog entries a schema is set to when it is marked at `desired`:
/// every record no higher than the target, in catalog order.
pub fn versions_for_schema_level(available: &[Version], desired: &DesiredVersion) -> (r: Vec<
    Version,
>)
    ensures
        catalog_view(r@) == upgrade_path(catalog_view(available@), None, ceiling(*desired)),
{
    choose_upgrade_path(available, &None, desired)
}

/// Versions rise strictly along the catalog.
pub open spec fn strictly_sorted(cat: Seq<VersionView>) -> bool {
    forall|i: int, j: int|
        0 <= i < j < cat.len() ==> text_lt(#[trigger] cat[i].version, #[trigger] cat[j].version)
}

/// The history row that applying (or marking) a record writes.
pub open spec fn row_of(v: VersionView) -> HistoryView {
    HistoryView { hash: v.hash, name: v.name, version: v.version }
}

/// The history rows of a sequence of records.
pub open spec fn rows_of(s: Seq<VersionView>) -> Seq<HistoryView> {
    s.map_values(|v: VersionView| row_of(v))
}

/// A history position matches the catalog there.
pub open spec fn matches_at(cat: Seq<VersionView>, hist: Seq<HistoryView>, i: int) -> bool {
    i < cat.len() && hist[i].version == cat[i].version && hist[i].hash == cat[i].hash
}

proof fn lemma_divergence_from_none(cat: Seq<VersionView>, hist: Seq<HistoryView>, i: nat)
    ensures
        divergence_from(cat, hist, i) is None <==> forall|j: int|
            i <= j < hist.len() ==> #[trigger] matches_at(cat, hist, j),
    decreases hist.len() - i,
{
    if i < hist.len() {
        lemma_divergence_from_none(cat, hist, i + 1);
        assert(divergence_at(cat, hist, i as int) is None <==> matches_at(cat, hist, i as int));
        if forall|j: int| i <= j < hist.len() ==> #[trigger] matches_at(cat, hist, j) {
            assert(matches_at(cat, hist, i as int));
            assert(forall|j: int| i + 1 <= j < hist.len() ==> #[trigger] matches_at(cat, hist, j));
        }
    }
}

/// The validator accepts a history exactly when it is, position by
/// position, a prefix of the catalog with equal versions and hashes.
pub proof fn lemma_divergence_none(cat: Seq<VersionView>, hist: Seq<HistoryView>)
    ensures
        divergence(cat, hist) is None <==> (hist.len() <= cat.len() && forall|j: int|
            0 <= j < hist.len() ==> #[trigger] matches_at(cat, hist, j)),
{
    lemma_divergence_from_none(cat, hist, 0);
    if divergence(cat, hist) is None && hist.len() > cat.len() {
        assert(matches_at(cat, hist, hist.len() - 1));
    }
}

proof fn lemma_path_none(s: Seq<VersionView>, mark: Option<Seq<char>>, cap: Option<Seq<char>>)
    requires
        forall|i: int| 0 <= i < s.len() ==> !selected(#[trigger] s[i].version, mark, cap),
    ensures
        upgrade_path(s, mark, cap) == Seq::<VersionView>::empty(),
    decreases s.len(),
{
    if s.len() > 0 {
        assert(!selected(s[s.len() - 1].version, mark, cap));
        lemma_path_none(s.drop_last(), mark, cap);
    }
}

proof fn lemma_path_suffix(
    s: Seq<VersionView>,
    mark: Option<Seq<char>>,
    cap: Option<Seq<char>>,
    k: int,
)
    requires
        0 <= k <= s.len(),
        forall|i: int| 0 <= i < k ==> !selected(#[trigger] s[i].version, mark, cap),
        forall|i: int| k <= i < s.len() ==> selected(#[trigger] s[i].version, mark, cap),
    ensures
        upgrade_path(s, mark, cap) == s.skip(k),
    decreases s.len(),
{
    if s.len() == 0 {
        assert(s.skip(k) =~= s);
    } else if k == s.len() {
        lemma_path_none(s, mark, cap);
        assert(s.skip(k) =~= Seq::<VersionView>::empty());
    } else {
        let d = s.drop_last();
        assert(selected(s[s.len() - 1].version, mark, cap));
        lemma_path_suffix(d, mark, cap, k);
        assert(d.skip(k).push(s.last()) =~= s.skip(k));
    }
}

proof fn lemma_path_prefix(
    s: Seq<VersionView>,
    mark: Option<Seq<char>>,
    cap: Option<Seq<char>>,
    m: int,
)
    requires
        0 <= m <= s.len(),
        forall|i: int| 0 <= i < m ==> selected(#[trigger] s[i].version, mark, cap),
        forall|i: int| m <= i < s.len() ==> !selected(#[trigger] s[i].version, mark, cap),
    ensures
        upgrade_path(s, mark, cap) == s.take(m),
    decreases s.len(),
{
    if s.len() == 0 {
        assert(s.take(m) =~= s);
    } else if m == s.len() {
        let d = s.drop_last();
        assert(selected(s[s.len() - 1].version, mark, cap));
        lemma_path_prefix(d, mark, cap, d.len() as int);
        assert(d.take(d.len() as int) =~= d);
        assert(d.push(s.last()) =~= s.take(m));
    } else {
        let d = s.drop_last();
        assert(!selected(s[s.len() - 1].version, mark, cap));
        lemma_path_prefix(d, mark, cap, m);
        assert(d.take(m) =~= s.take(m));
    }
}

/// In a strictly sorted catalog, the plan above the version at position
/// `k - 1` (above nothing when `k` is 0) with no ceiling is everything from
/// position `k` on.
pub proof fn lemma_plan_after_prefix(cat: Seq<VersionView>, k: int)
    requires
        strictly_sorted(cat),
        0 <= k <= cat.len(),
    ensures
        upgrade_path(cat, if k == 0 { None } else { Some(cat[k - 1].version) }, None)
            == cat.skip(k),
{
    let mark = if k == 0 { None } else { Some(cat[k - 1].version) };
    assert forall|i: int| 0 <= i < k implies !selected(#[trigger] cat[i].version, mark, None) by {
        if i < k - 1 {
            assert(text_lt(cat[i].version, cat[k - 1].version));
            lemma_text_lt_asymmetric(cat[i].version, cat[k - 1].version);
        } else {
            lemma_text_lt_irreflexive(cat[i].version);
        }
    }
    assert forall|i: int| k <= i < cat.len() implies selected(#[trigger] cat[i].version, mark, None) by {
        if k > 0 {
            assert(text_lt(cat[k - 1].version, cat[i].version));
        }
    }
    lemma_path_suffix(cat, mark, None, k);
}

/// Migrating to the latest version twice applies nothing the second time:
/// once the rows of the planned scripts are appended to a history that the
/// validator accepts, the validator still accepts it and the plan is empty.
pub proof fn lemma_migrate_twice_applies_nothing(cat: Seq<VersionView>, hist: Seq<HistoryView>)
    requires
        strictly_sorted(cat),
        divergence(cat, hist) is None,
    ensures
        ({
            let after = hist + rows_of(upgrade_path(cat, history_mark(hist), None));
            &&& divergence(cat, after) is None
            &&& upgrade_path(cat, history_mark(after), None).len() == 0
        }),
{
    lemma_divergence_none(cat, hist);
    let k = hist.len() as int;
    let n = cat.len() as int;
    if k > 0 {
        assert(matches_at(cat, hist, k - 1));
    }
    assert(history_mark(hist) == if k == 0 { None } else { Some(cat[k - 1].version) });
    lemma_plan_after_prefix(cat, k);
    let after = hist + rows_of(cat.skip(k));
    assert(after.len() == n);
    assert forall|j: int| 0 <= j < after.len() implies #[trigger] matches_at(cat, after, j) by {
        if j < k {
            assert(matches_at(cat, hist, j));
        }
    }
    lemma_divergence_none(cat, after);
    if n > 0 {
        assert(matches_at(cat, after, n - 1));
    }
    assert(history_mark(after) == if n == 0 { None } else { Some(cat[n - 1].version) });
    lemma_plan_after_prefix(cat, n);
}

proof fn lemma_divergence_first(
    cat: Seq<VersionView>,
    hist: Seq<HistoryView>,
    i: nat,
    j: int,
)
    requires
        i <= j < hist.len(),
        forall|m: int| i <= m < j ==> #[trigger] matches_at(cat, hist, m),
        divergence_at(cat, hist, j) is Some,
    ensures
        divergence_from(cat, hist, i) == divergence_at(cat, hist, j),
    decreases j - i,
{
    if i < j {
        assert(matches_at(cat, hist, i as int));
        lemma_divergence_first(cat, hist, i + 1, j);
    }
}

/// An applied script that is edited on disk is caught: when the validator
/// accepted the history, and the record at a position the history covers
/// gets another hash, the validator reports a hash mismatch for that version.
pub proof fn lemma_edited_script_is_detected(
    cat: Seq<VersionView>,
    hist: Seq<HistoryView>,
    j: int,
    new_hash: Seq<char>,
)
    requires
        divergence(cat, hist) is None,
        0 <= j < hist.len(),
        new_hash != cat[j].hash,
    ensures
        divergence(cat.update(j, VersionView { hash: new_hash, ..cat[j] }), hist) == Some(
            InconsistencyView::HashMismatch {
                version: hist[j].version,
                installed_hash: hist[j].hash,
                available_hash: new_hash,
            },
        ),
{
    lemma_divergence_none(cat, hist);
    let edited = cat.update(j, VersionView { hash: new_hash, ..cat[j] });
    assert(matches_at(cat, hist, j));
    assert forall|m: int| 0 <= m < j implies #[trigger] matches_at(edited, hist, m) by {
        assert(matches_at(cat, hist, m));
    }
    lemma_divergence_first(edited, hist, 0, j);
}

/// Marking a schema at a target and then migrating to that target applies
/// nothing: the rows that marking writes form a history the validator
/// accepts, and the plan over them is empty.
pub proof fn lemma_marked_schema_is_current(cat: Seq<VersionView>, cap: Option<Seq<char>>)
    requires
        strictly_sorted(cat),
    ensures
        ({
            let rows = rows_of(upgrade_path(cat, None, cap));
            &&& divergence(cat, rows) is None
            &&& upgrade_path(cat, history_mark(rows), cap).len() == 0
        }),
{
    let m = lemma_first_above_ceiling(cat, cap);
    lemma_path_prefix(cat, None, cap, m);
    let rows = rows_of(cat.take(m));
    assert forall|j: int| 0 <= j < rows.len() implies #[trigger] matches_at(cat, rows, j) by {}
    lemma_divergence_none(cat, rows);
    let mark = history_mark(rows);
    assert(mark == if m == 0 { None } else { Some(cat[m - 1].version) });
    assert forall|i: int| 0 <= i < cat.len() implies !selected(#[trigger] cat[i].version, mark, cap) by {
        if i < m - 1 {
            assert(text_lt(cat[i].version, cat[m - 1].version));
            lemma_text_lt_asymmetric(cat[i].version, cat[m - 1].version);
        } else if i == m - 1 {
            lemma_text_lt_irreflexive(cat[i].version);
        } else {
            assert(!selected(cat[i].version, None, cap));
        }
    }
    lemma_path_none(cat, mark, cap);
}

/// In a strictly sorted catalog the records no higher than a ceiling come
/// first: the result is the position of the first record above it.
proof fn lemma_first_above_ceiling(cat: Seq<VersionView>, cap: Option<Seq<char>>) -> (m: int)
    requires
        strictly_sorted(cat),
    ensures
        0 <= m <= cat.len(),
        forall|i: int| 0 <= i < m ==> selected(#[trigger] cat[i].version, None, cap),
        forall|i: int| m <= i < cat.len() ==> !selected(#[trigger] cat[i].version, None, cap),
    decreases cat.len(),
{
    let n = cat.len() as int;
    if n == 0 {
        0
    } else {
        let d = cat.drop_last();
        let m0 = lemma_first_above_ceiling(d, cap);
        if selected(cat[n - 1].version, None, cap) {
            assert forall|i: int| 0 <= i < n implies selected(#[trigger] cat[i].version, None, cap) by {
                if i < n - 1 {
                    assert(text_lt(cat[i].version, cat[n - 1].version));
                    if let Some(c) = cap {
                        if text_lt(c, cat[i].version) {
                            lemma_text_lt_transitive(c, cat[i].version, cat[n - 1].version);
                        }
                    }
                }
            }
            n
        } else {
            assert forall|i: int| m0 <= i < n implies !selected(#[trigger] cat[i].version, None, cap) by {
                if i < n - 1 {
                    assert(!selected(d[i].version, None, cap));
                }
            }
            assert forall|i: int| 0 <= i < m0 implies selected(#[trigger] cat[i].version, None, cap) by {
                assert(selected(d[i].version, None, cap));
            }
            m0
        }
    }
}

} // verus!
