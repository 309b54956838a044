//! Cache eviction: which cached files are old enough to be removed.
use vstd::prelude::*;

verus! {

/// Seconds in a day.
pub const SECS_PER_DAY: u64 = 86400;

/// A cached file whose age exceeds the limit is evicted; without a limit nothing is.
pub open spec fn evictable(age_secs: u64, max_age_days: Option<u32>) -> bool {
    match max_age_days {
        Some(d) => age_secs > d * 86400,
        None => false,
    }
}

/// The lock file kept in every cache directory.
pub open spec fn is_lock_file(name: Seq<char>) -> bool {
    name == ".lock"@
}

/// Whether a cache entry is evicted: never the lock file, otherwise when it is older than
/// `max_age_days` days (an age of exactly the limit is kept).
pub fn is_evictable(name: &str, age_secs: u64, max_age_days: Option<u32>) -> (r: bool)
    ensures
        r == (!is_lock_file(name@) && evictable(age_secs, max_age_days)),
{
    if crate::text::str_eq(name, ".lock") {
        return false;
    }
    match max_age_days {
        Some(d) => {
            let max_age: u64 = (d as u64) * SECS_PER_DAY;
            age_secs > max_age
        },
        None => false,
    }
}

/// The age of a file modified at `mtime` as seen at `now` (both in seconds since the epoch);
/// a modification time in the future counts as age zero.
pub fn file_age(now: u64, mtime: u64) -> (r: u64)
    ensures
        r == if now >= mtime {
            (now - mtime) as u64
        } else {
            0
        },
{
    now.saturating_sub(mtime)
}

/// For each (name, age) cache entry, whether it is evicted.
pub fn evictable_entries(entries: &[(String, u64)], max_age_days: Option<u32>) -> (r: Vec<bool>)
    ensures
        r@.len() == entries@.len(),
        forall|i: int|
            0 <= i < entries@.len() ==> #[trigger] r@[i] == (!is_lock_file(entries@[i].0@)
                && evictable(entries@[i].1, max_age_days)),
{
    let mut r: Vec<bool> = Vec::new();
    let mut i: usize = 0;
    while i < entries.len()
        invariant
            i <= entries@.len(),
            r@.len() == i,
            forall|j: int|
                0 <= j < i ==> #[trigger] r@[j] == (!is_lock_file(entries@[j].0@) && evictable(
                    entries@[j].1,
                    max_age_days,
                )),
        decreases entries@.len() - i,
    {
        let e = is_evictable(entries[i].0.as_str(), entries[i].1, max_age_days);
        r.push(e);
        i = i + 1;
    }
    r
}

/// The names of the entries a cache eviction removes, in order: those [is_evictable] selects.
pub open spec fn evicted(entries: Seq<(Seq<char>, u64)>, max_age_days: Option<u32>) -> Seq<Seq<char>>
    decreases entries.len(),
{
    if entries.len() == 0 {
        Seq::empty()
    } else {
        let rest = evicted(entries.drop_last(), max_age_days);
        let e = entries.last();
        if !is_lock_file(e.0) && evictable(e.1, max_age_days) {
            rest.push(e.0)
        } else {
            rest
        }
    }
}

/// The character view of (name, age) entries.
pub open spec fn aged_view(entries: Seq<(String, u64)>) -> Seq<(Seq<char>, u64)> {
    entries.map_values(|e: (String, u64)| (e.0@, e.1))
}

/// The cache entries to remove for a maximum age: every file but the lock file whose age
/// exceeds the limit, in order; none without a limit.
pub fn evicted_names(entries: &[(String, u64)], max_age_days: Option<u32>) -> (r: Vec<String>)
    ensures
        r@.map_values(|n: String| n@) == evicted(aged_view(entries@), max_age_days),
{
    let ghost all = aged_view(entries@);
    let mut out: Vec<String> = Vec::new();
    let mut i: usize = 0;
    assert(all.take(0) =~= Seq::<(Seq<char>, u64)>::empty());
    assert(out@.map_values(|n: String| n@) =~= Seq::<Seq<char>>::empty());
    while i < entries.len()
        invariant
            i <= entries@.len(),
            all == aged_view(entries@),
            out@.map_values(|n: String| n@) == evicted(all.take(i as int), max_age_days),
        decreases entries@.len() - i,
    {
        assert(all.take(i as int + 1).drop_last() =~= all.take(i as int));
        assert(all.take(i as int + 1).last() == (entries@[i as int].0@, entries@[i as int].1));
        let ghost before = out@.map_values(|n: String| n@);
        if is_evictable(entries[i].0.as_str(), entries[i].1, max_age_days) {
            let n = entries[i].0.clone();
            out.push(n);
            assert(out@.map_values(|n: String| n@) =~= before.push(entries@[i as int].0@));
        }
        i = i + 1;
    }
    assert(all.take(i as int) =~= all);
    out
}

/// What an eviction pass does: the files it removes and the number it reports.
pub struct Eviction {
    pub removed: Vec<String>,
    pub count: usize,
}

/// Plans an eviction pass over the (name, age) cache entries.  When `remove`, the evicted
/// entries (see [evicted]) are removed and counted; otherwise nothing is removed and the same
/// entries are only counted.  Either way the reported number is the same.
pub fn plan_eviction(entries: &[(String, u64)], max_age_days: Option<u32>, remove: bool) -> (r:
    Eviction)
    ensures
        r.count == evicted(aged_view(entries@), max_age_days).len(),
        remove ==> r.removed@.map_values(|n: String| n@) == evicted(aged_view(entries@), max_age_days),
        !remove ==> r.removed@.len() == 0,
{
    let names = evicted_names(entries, max_age_days);
    let count = names.len();
    assert(names@.map_values(|n: String| n@).len() == names@.len());
    if remove {
        Eviction { removed: names, count }
    } else {
        Eviction { removed: Vec::new(), count }
    }
}

/// Without a limit nothing is evicted.
pub proof fn lemma_no_limit_evicts_nothing(entries: Seq<(Seq<char>, u64)>)
    ensures
        evicted(entries, None) == Seq::<Seq<char>>::empty(),
    decreases entries.len(),
{
    if entries.len() > 0 {
        lemma_no_limit_evicts_nothing(entries.drop_last());
    }
}

/// An eviction removes exactly the entries other than the lock file whose age exceeds the limit,
/// in their order, and nothing else.
pub proof fn lemma_evicted_are_the_old_entries(entries: Seq<(Seq<char>, u64)>, max_age_days: Option<u32>)
    ensures
        evicted(entries, max_age_days) == entries.filter(
            |e: (Seq<char>, u64)| !is_lock_file(e.0) && evictable(e.1, max_age_days),
        ).map_values(|e: (Seq<char>, u64)| e.0),
        max_age_days matches Some(d) ==> forall|i: int|
            0 <= i < entries.len() && !is_lock_file(entries[i].0) && entries[i].1 > d * 86400
                ==> evicted(entries, max_age_days).contains(#[trigger] entries[i].0),
    decreases entries.len(),
{
    let keep = |e: (Seq<char>, u64)| !is_lock_file(e.0) && evictable(e.1, max_age_days);
    let name = |e: (Seq<char>, u64)| e.0;
    reveal(Seq::filter);
    if entries.len() > 0 {
        lemma_evicted_are_the_old_entries(entries.drop_last(), max_age_days);
        let f = entries.drop_last().filter(keep);
        if keep(entries.last()) {
            assert(f.push(entries.last()).map_values(name) =~= f.map_values(name).push(entries.last().0));
        }
    }
    assert(evicted(entries, max_age_days) == entries.filter(keep).map_values(name));
    if let Some(d) = max_age_days {
        assert forall|i: int|
            0 <= i < entries.len() && !is_lock_file(entries[i].0) && entries[i].1 > d * 86400
                implies evicted(entries, max_age_days).contains(#[trigger] entries[i].0) by {
            entries.lemma_filter_contains(keep, i);
            let k = choose|k: int| 0 <= k < entries.filter(keep).len() && entries.filter(keep)[k] == entries[i];
            assert(entries.filter(keep).map_values(name)[k] == entries[i].0);
        }
    }
}

} // verus!
