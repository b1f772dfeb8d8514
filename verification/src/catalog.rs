//! The build catalog: one record per known query name, holding the query
//! text and the modification time of its source at the last successful
//! build. It decides which queries are stale and which stored entries have
//! lost their backing source file.
use vstd::prelude::*;
use crate::text::str_eq;

verus! {

/// One persistent catalog record. The name is the unique key.
pub struct CatalogEntry {
    pub name: String,
    pub query_text: String,
    pub mtime_micros: i64,
}

/// The first entry of `s` whose name reads `name`, if any.
pub open spec fn lookup(s: Seq<CatalogEntry>, name: Seq<char>) -> Option<CatalogEntry>
    decreases s.len(),
{
    if s.len() == 0 {
        None
    } else if s[0].name@ == name {
        Some(s[0])
    } else {
        lookup(s.drop_first(), name)
    }
}

/// Entry names are pairwise distinct.
pub open spec fn unique_names(s: Seq<CatalogEntry>) -> bool {
    forall|i: int, j: int|
        0 <= i < j < s.len() ==> (#[trigger] s[i]).name@ != (#[trigger] s[j]).name@
}

/// The views of a vector of strings.
pub open spec fn name_views(v: Seq<String>) -> Seq<Seq<char>> {
    v.map_values(|s: String| s@)
}

/// The names of a sequence of entries, in order.
pub open spec fn entry_names(s: Seq<CatalogEntry>) -> Seq<Seq<char>> {
    s.map_values(|e: CatalogEntry| e.name@)
}

/// Holds of an entry whose name appears in `on_disk`.
pub open spec fn kept_pred(on_disk: Seq<String>) -> spec_fn(CatalogEntry) -> bool {
    |e: CatalogEntry| name_views(on_disk).contains(e.name@)
}

/// Holds of an entry whose name is absent from `on_disk`.
pub open spec fn dropped_pred(on_disk: Seq<String>) -> spec_fn(CatalogEntry) -> bool {
    |e: CatalogEntry| !name_views(on_disk).contains(e.name@)
}

pub proof fn lemma_lookup_absent(s: Seq<CatalogEntry>, name: Seq<char>)
    requires
        forall|j: int| 0 <= j < s.len() ==> (#[trigger] s[j]).name@ != name,
    ensures
        lookup(s, name) is None,
    decreases s.len(),
{
    if s.len() > 0 {
        assert forall|j: int|
            0 <= j < s.drop_first().len() implies (#[trigger] s.drop_first()[j]).name@ != name by {
            assert(s.drop_first()[j] == s[j + 1]);
        }
        lemma_lookup_absent(s.drop_first(), name);
    }
}

pub proof fn lemma_lookup_none_absent(s: Seq<CatalogEntry>, name: Seq<char>)
    requires
        lookup(s, name) is None,
    ensures
        forall|j: int| 0 <= j < s.len() ==> (#[trigger] s[j]).name@ != name,
    decreases s.len(),
{
    if s.len() > 0 {
        lemma_lookup_none_absent(s.drop_first(), name);
        assert forall|j: int| 0 <= j < s.len() implies (#[trigger] s[j]).name@ != name by {
            if j > 0 {
                assert(s.drop_first()[j - 1] == s[j]);
            }
        }
    }
}

pub proof fn lemma_lookup_skip(s: Seq<CatalogEntry>, name: Seq<char>, i: int)
    requires
        0 <= i <= s.len(),
        forall|j: int| 0 <= j < i ==> (#[trigger] s[j]).name@ != name,
    ensures
        lookup(s, name) == lookup(s.skip(i), name),
    decreases i,
{
    if i == 0 {
        assert(s.skip(0) =~= s);
    } else {
        assert forall|j: int|
            0 <= j < i - 1 implies (#[trigger] s.drop_first()[j]).name@ != name by {
            assert(s.drop_first()[j] == s[j + 1]);
        }
        lemma_lookup_skip(s.drop_first(), name, i - 1);
        assert(s.drop_first().skip(i - 1) =~= s.skip(i));
    }
}

pub proof fn lemma_lookup_push(s: Seq<CatalogEntry>, e: CatalogEntry, name: Seq<char>)
    ensures
        lookup(s.push(e), name) == (if lookup(s, name) is Some {
            lookup(s, name)
        } else if e.name@ == name {
            Some(e)
        } else {
            None::<CatalogEntry>
        }),
    decreases s.len(),
{
    if s.len() == 0 {
        assert(s.push(e)[0] == e);
        assert(s.push(e).drop_first() =~= Seq::<CatalogEntry>::empty());
    } else {
        assert(s.push(e)[0] == s[0]);
        if s[0].name@ != name {
            assert(s.push(e).drop_first() =~= s.drop_first().push(e));
            lemma_lookup_push(s.drop_first(), e, name);
        }
    }
}

pub proof fn lemma_lookup_remove(s: Seq<CatalogEntry>, i: int, name: Seq<char>)
    requires
        unique_names(s),
        0 <= i < s.len(),
        s[i].name@ == name,
    ensures
        forall|n: Seq<char>|
            #[trigger] lookup(s.remove(i), n) == (if n == name {
                None::<CatalogEntry>
            } else {
                lookup(s, n)
            }),
        unique_names(s.remove(i)),
    decreases i,
{
    assert forall|p: int, q: int|
        0 <= p < q < s.remove(i).len() implies (#[trigger] s.remove(i)[p]).name@ != (#[trigger] s
        .remove(i)[q]).name@ by {
        let p0 = if p < i { p } else { p + 1 };
        let q0 = if q < i { q } else { q + 1 };
        assert(s.remove(i)[p] == s[p0]);
        assert(s.remove(i)[q] == s[q0]);
    }
    if i == 0 {
        assert(s.remove(0) =~= s.drop_first());
        assert forall|n: Seq<char>|
            #[trigger] lookup(s.remove(0), n) == (if n == name {
                None::<CatalogEntry>
            } else {
                lookup(s, n)
            }) by {
            if n == name {
                assert forall|j: int|
                    0 <= j < s.drop_first().len() implies (#[trigger] s.drop_first()[j]).name@
                    != name by {
                    assert(s.drop_first()[j] == s[j + 1]);
                }
                lemma_lookup_absent(s.drop_first(), name);
            }
        }
    } else {
        assert(unique_names(s.drop_first())) by {
            assert forall|p: int, q: int|
                0 <= p < q < s.drop_first().len() implies (#[trigger] s.drop_first()[p]).name@ != (
            #[trigger] s.drop_first()[q]).name@ by {
                assert(s.drop_first()[p] == s[p + 1]);
                assert(s.drop_first()[q] == s[q + 1]);
            }
        }
        assert(s.drop_first()[i - 1] == s[i]);
        lemma_lookup_remove(s.drop_first(), i - 1, name);
        assert(s.remove(i).drop_first() =~= s.drop_first().remove(i - 1));
        assert forall|n: Seq<char>|
            #[trigger] lookup(s.remove(i), n) == (if n == name {
                None::<CatalogEntry>
            } else {
                lookup(s, n)
            }) by {
            assert(s.remove(i)[0] == s[0]);
            assert(s[0].name@ != name);
            if s[0].name@ != n {
                assert(lookup(s.remove(i), n) == lookup(s.drop_first().remove(i - 1), n));
            }
        }
    }
}

/// A member of a filtered sequence is a member of the original.
proof fn lemma_filter_member_of_original(
    s: Seq<CatalogEntry>,
    pred: spec_fn(CatalogEntry) -> bool,
    i: int,
)
    requires
        0 <= i < s.filter(pred).len(),
    ensures
        exists|k: int| 0 <= k < s.len() && s[k] == s.filter(pred)[i],
    decreases s.len(),
{
    reveal_with_fuel(Seq::<CatalogEntry>::filter, 2);
    if s.len() > 0 {
        let f = s.filter(pred);
        let fd = s.drop_last().filter(pred);
        if pred(s.last()) && i == f.len() - 1 {
            assert(s[s.len() - 1] == f[i]);
        } else {
            lemma_filter_member_of_original(s.drop_last(), pred, i);
            let k = choose|k: int| 0 <= k < s.drop_last().len() && s.drop_last()[k] == fd[i];
            assert(s[k] == f[i]);
        }
    }
}

/// Filtering a sequence of entries with pairwise distinct names keeps the
/// names pairwise distinct.
proof fn lemma_filter_entries_distinct(
    s: Seq<CatalogEntry>,
    pred: spec_fn(CatalogEntry) -> bool,
    p: int,
    q: int,
)
    requires
        unique_names(s),
        0 <= p < q < s.filter(pred).len(),
    ensures
        s.filter(pred)[p].name@ != s.filter(pred)[q].name@,
    decreases s.len(),
{
    reveal_with_fuel(Seq::<CatalogEntry>::filter, 2);
    if s.len() > 0 {
        assert(unique_names(s.drop_last())) by {
            assert forall|a: int, b: int|
                0 <= a < b < s.drop_last().len() implies (#[trigger] s.drop_last()[a]).name@ != (
            #[trigger] s.drop_last()[b]).name@ by {
                assert(s.drop_last()[a] == s[a]);
                assert(s.drop_last()[b] == s[b]);
            }
        }
        let f = s.filter(pred);
        let fd = s.drop_last().filter(pred);
        if pred(s.last()) {
            assert(f == fd.push(s.last()));
            if q == f.len() - 1 {
                lemma_filter_member_of_original(s.drop_last(), pred, p);
                let k = choose|k: int|
                    0 <= k < s.drop_last().len() && s.drop_last()[k] == fd[p];
                assert(s[k] == fd[p]);
                assert(s[k].name@ != s[s.len() - 1].name@);
            } else {
                lemma_filter_entries_distinct(s.drop_last(), pred, p, q);
            }
        } else {
            lemma_filter_entries_distinct(s.drop_last(), pred, p, q);
        }
    }
}

/// The in-memory model of the persistent catalog relation.
pub struct Catalog {
    entries: Vec<CatalogEntry>,
}

impl Catalog {
    pub closed spec fn view(&self) -> Seq<CatalogEntry> {
        self.entries@
    }

    pub open spec fn wf(&self) -> bool {
        unique_names(self@)
    }

    pub fn new() -> (r: Catalog)
        ensures
            r.wf(),
            r@ == Seq::<CatalogEntry>::empty(),
    {
        Catalog { entries: Vec::new() }
    }

    /// The index of the entry named `name`, if one exists.
    fn find_index(&self, name: &str) -> (r: Option<usize>)
        ensures
            match r {
                Some(i) => i < self@.len() && self@[i as int].name@ == name@ && lookup(
                    self@,
                    name@,
                ) == Some(self@[i as int]),
                None => lookup(self@, name@) is None,
            },
    {
        let n = self.entries.len();
        for i in 0..n
            invariant
                n == self.entries.len(),
                forall|j: int| 0 <= j < i ==> (#[trigger] self@[j]).name@ != name@,
        {
            if str_eq(self.entries[i].name.as_str(), name) {
                proof {
                    lemma_lookup_skip(self@, name@, i as int);
                    assert(self@.skip(i as int)[0] == self@[i as int]);
                }
                return Some(i);
            }
        }
        proof {
            lemma_lookup_absent(self@, name@);
        }
        None
    }

    /// The stored modification time for `name`, if an entry exists.
    pub fn get_mtime(&self, name: &str) -> (r: Option<i64>)
        ensures
            r == (match lookup(self@, name@) {
                Some(e) => Some(e.mtime_micros),
                None => None::<i64>,
            }),
    {
        match self.find_index(name) {
            Some(i) => Some(self.entries[i].mtime_micros),
            None => None,
        }
    }

    /// Whether `name` must be rebuilt: always under `force`; otherwise when
    /// no entry is stored, or the stored build is older than the source.
    /// Equivalently: false exactly when an entry is stored whose recorded
    /// time is at least `current_mtime_micros` and `force` is off.
    pub fn should_rebuild(&self, name: &str, current_mtime_micros: i64, force: bool) -> (r: bool)
        ensures
            r == (force || lookup(self@, name@) is None || lookup(
                self@,
                name@,
            )->Some_0.mtime_micros < current_mtime_micros),
    {
        if force {
            return true;
        }
        match self.get_mtime(name) {
            None => true,
            Some(stored) => stored < current_mtime_micros,
        }
    }

    /// Upserts the entry for `name`: called only after the query's build
    /// fully succeeded, so the catalog never reflects partial state.
    pub fn record_success(&mut self, name: String, query_text: String, mtime_micros: i64)
        requires
            old(self).wf(),
        ensures
            final(self).wf(),
            match lookup(final(self)@, name@) {
                Some(e) => e.name@ == name@ && e.query_text@ == query_text@ && e.mtime_micros
                    == mtime_micros,
                None => false,
            },
            forall|n: Seq<char>|
                n != name@ ==> #[trigger] lookup(final(self)@, n) == lookup(old(self)@, n),
    {
        let ghost s0 = self@;
        let found = self.find_index(name.as_str());
        if let Some(i) = found {
            let _ = self.entries.remove(i);
            proof {
                lemma_lookup_remove(s0, i as int, name@);
            }
        }
        let ghost s1 = self@;
        proof {
            assert(lookup(s1, name@) is None);
            lemma_lookup_none_absent(s1, name@);
        }
        let entry = CatalogEntry { name, query_text, mtime_micros };
        self.entries.push(entry);
        proof {
            assert forall|n: Seq<char>|
                n != entry.name@ implies #[trigger] lookup(self@, n) == lookup(s0, n) by {
                lemma_lookup_push(s1, entry, n);
            }
            assert(lookup(self@, entry.name@) == Some(entry)) by {
                lemma_lookup_push(s1, entry, entry.name@);
            }
            assert forall|p: int, q: int|
                0 <= p < q < self@.len() implies (#[trigger] self@[p]).name@ != (
            #[trigger] self@[q]).name@ by {
                if q < s1.len() {
                    assert(self@[p] == s1[p]);
                    assert(self@[q] == s1[q]);
                } else {
                    assert(self@[p] == s1[p]);
                    assert(self@[q] == entry);
                }
            }
        }
    }

    /// Removes the entry for `name`, if one exists.
    pub fn delete(&mut self, name: &str)
        requires
            old(self).wf(),
        ensures
            final(self).wf(),
            lookup(final(self)@, name@) is None,
            forall|n: Seq<char>|
                n != name@ ==> #[trigger] lookup(final(self)@, n) == lookup(old(self)@, n),
    {
        let ghost s0 = self@;
        match self.find_index(name) {
            Some(i) => {
                let _ = self.entries.remove(i);
                proof {
                    lemma_lookup_remove(s0, i as int, name@);
                }
            },
            None => {},
        }
    }

    /// All stored query names, in entry order.
    pub fn all_query_names(&self) -> (r: Vec<String>)
        ensures
            name_views(r@) == entry_names(self@),
    {
        let mut r: Vec<String> = Vec::new();
        let n = self.entries.len();
        for i in 0..n
            invariant
                n == self.entries.len(),
                r@.len() == i,
                forall|j: int| 0 <= j < i ==> (#[trigger] r@[j])@ == self@[j].name@,
        {
            r.push(self.entries[i].name.clone());
        }
        proof {
            assert(name_views(r@) =~= entry_names(self@));
        }
        r
    }

    /// Drops every stored entry whose name is absent from `on_disk` and
    /// returns those names, each exactly once, in stored order: the caller
    /// must clean up one materialized table per returned name.
    pub fn reconcile_deleted(&mut self, on_disk: &Vec<String>) -> (removed: Vec<String>)
        requires
            old(self).wf(),
        ensures
            final(self).wf(),
            final(self)@ == old(self)@.filter(kept_pred(on_disk@)),
            name_views(removed@) == entry_names(old(self)@.filter(dropped_pred(on_disk@))),
            forall|p: int, q: int|
                0 <= p < q < removed@.len() ==> (#[trigger] removed@[p])@ != (
                #[trigger] removed@[q])@,
    {
        let ghost s0 = self@;
        let mut kept: Vec<CatalogEntry> = Vec::new();
        let mut removed: Vec<String> = Vec::new();
        let n = self.entries.len();
        proof {
            reveal_with_fuel(Seq::<CatalogEntry>::filter, 2);
            assert(s0.take(0) =~= Seq::<CatalogEntry>::empty());
            assert(kept@ =~= s0.take(0).filter(kept_pred(on_disk@)));
            assert(name_views(removed@) =~= entry_names(s0.take(0).filter(dropped_pred(on_disk@))));
        }
        for i in 0..n
            invariant
                n == self.entries.len(),
                self@ == s0,
                kept@ == s0.take(i as int).filter(kept_pred(on_disk@)),
                name_views(removed@) == entry_names(
                    s0.take(i as int).filter(dropped_pred(on_disk@)),
                ),
        {
            let e = &self.entries[i];
            let keep = contains_name(on_disk, &e.name);
            proof {
                reveal_with_fuel(Seq::<CatalogEntry>::filter, 2);
                assert(s0.take(i + 1).drop_last() =~= s0.take(i as int));
                assert(s0.take(i + 1).last() == s0[i as int]);
            }
            if keep {
                kept.push(CatalogEntry {
                    name: e.name.clone(),
                    query_text: e.query_text.clone(),
                    mtime_micros: e.mtime_micros,
                });
                proof {
                    reveal_with_fuel(Seq::<CatalogEntry>::filter, 2);
                    assert(kept_pred(on_disk@)(s0[i as int]));
                    assert(!dropped_pred(on_disk@)(s0[i as int]));
                    assert(s0.take(i + 1).filter(kept_pred(on_disk@)) == s0.take(
                        i as int,
                    ).filter(kept_pred(on_disk@)).push(s0[i as int]));
                    assert(s0.take(i + 1).filter(dropped_pred(on_disk@)) == s0.take(
                        i as int,
                    ).filter(dropped_pred(on_disk@)));
                    assert(kept@ =~= s0.take(i + 1).filter(kept_pred(on_disk@)));
                    assert(name_views(removed@) =~= entry_names(
                        s0.take(i + 1).filter(dropped_pred(on_disk@)),
                    ));
                }
            } else {
                let ghost r0 = removed@;
                removed.push(e.name.clone());
                proof {
                    reveal_with_fuel(Seq::<CatalogEntry>::filter, 2);
                    assert(!kept_pred(on_disk@)(s0[i as int]));
                    assert(dropped_pred(on_disk@)(s0[i as int]));
                    assert(s0.take(i + 1).filter(kept_pred(on_disk@)) == s0.take(
                        i as int,
                    ).filter(kept_pred(on_disk@)));
                    let fd0 = s0.take(i as int).filter(dropped_pred(on_disk@));
                    let fd1 = s0.take(i + 1).filter(dropped_pred(on_disk@));
                    assert(fd1 == fd0.push(s0[i as int]));
                    assert(kept@ =~= s0.take(i + 1).filter(kept_pred(on_disk@)));
                    assert(removed@ == r0.push(removed@[removed@.len() - 1]));
                    assert(removed@[removed@.len() - 1]@ == s0[i as int].name@);
                    assert(name_views(removed@) =~= name_views(r0).push(
                        removed@[removed@.len() - 1]@,
                    ));
                    assert(entry_names(fd1) =~= entry_names(fd0).push(s0[i as int].name@));
                    assert(name_views(removed@) =~= entry_names(fd1));
                }
            }
        }
        proof {
            assert(s0.take(n as int) =~= s0);
        }
        self.entries = kept;
        proof {
            assert forall|p: int, q: int|
                0 <= p < q < self@.len() implies (#[trigger] self@[p]).name@ != (
            #[trigger] self@[q]).name@ by {
                lemma_filter_entries_distinct(s0, kept_pred(on_disk@), p, q);
            }
            let df = s0.filter(dropped_pred(on_disk@));
            assert forall|p: int, q: int|
                0 <= p < q < removed@.len() implies (#[trigger] removed@[p])@ != (
            #[trigger] removed@[q])@ by {
                lemma_filter_entries_distinct(s0, dropped_pred(on_disk@), p, q);
                assert(removed@[p]@ == name_views(removed@)[p]);
                assert(removed@[q]@ == name_views(removed@)[q]);
                assert(name_views(removed@)[p] == df[p].name@);
                assert(name_views(removed@)[q] == df[q].name@);
            }
        }
        removed
    }
}

/// Whether some string in `names` reads `name`.
pub fn contains_name(names: &Vec<String>, name: &String) -> (r: bool)
    ensures
        r == name_views(names@).contains(name@),
{
    let n = names.len();
    for i in 0..n
        invariant
            n == names.len(),
            forall|j: int| 0 <= j < i ==> (#[trigger] names@[j])@ != name@,
    {
        if str_eq(names[i].as_str(), name.as_str()) {
            proof {
                assert(name_views(names@)[i as int] == name@);
            }
            return true;
        }
    }
    proof {
        assert forall|j: int|
            0 <= j < name_views(names@).len() implies #[trigger] name_views(names@)[j]
            != name@ by {
            assert(name_views(names@)[j] == names@[j]@);
        }
    }
    false
}

} // verus!
