use vstd::prelude::*;
use vstd::string::*;

use crate::cache::{content_hash, is_openapi_source, openapi_prefix, ConfigEntry};
use crate::text::{all_ascii, lemma_trim_unique, trim, trimmed};

verus! {

broadcast use vstd::string::group_string_axioms;

/// How a trusted configuration compares with its source.
pub enum EntryStatus {
    /// The source's raw content hashes to the trusted hash.
    Unchanged,
    /// The source's raw content hashes to something else.
    Changed,
    /// The source could not be read.
    Unavailable,
}

/// How the trusted `entry` compares with what was fetched from its source:
/// `(content for the cache, raw content that is hashed)`, or nothing when
/// the source could not be read.
pub open spec fn status_of(entry: ConfigEntry, fetched: Option<(String, String)>) -> EntryStatus {
    match fetched {
        None => EntryStatus::Unavailable,
        Some(f) => if content_hash(f.1@) == entry.hash@ {
            EntryStatus::Unchanged
        } else {
            EntryStatus::Changed
        },
    }
}

/// How the trusted `entry` compares with what was fetched from its source.
pub fn entry_status(entry: &ConfigEntry, fetched: &Option<(String, String)>) -> (s: EntryStatus)
    ensures
        s == status_of(*entry, *fetched),
{
    match fetched {
        None => EntryStatus::Unavailable,
        Some(f) => {
            if crate::cache::needs_update(entry, f.1.as_str()) {
                EntryStatus::Changed
            } else {
                EntryStatus::Unchanged
            }
        },
    }
}

/// Indices `k < n`, in order, of the entries whose raw source content is
/// known and hashes to something other than the trusted hash.
pub open spec fn changed_indices(entries: Seq<ConfigEntry>, raws: Seq<Option<String>>, n: int) -> Seq<usize>
    decreases n,
{
    if n <= 0 {
        Seq::empty()
    } else {
        let rest = changed_indices(entries, raws, n - 1);
        match raws[n - 1] {
            Some(r) => if content_hash(r@) != entries[n - 1].hash@ {
                rest.push((n - 1) as usize)
            } else {
                rest
            },
            None => rest,
        }
    }
}

/// The entries whose sources changed, given the raw content read from each
/// source (`None` when it could not be read, which is not a change).
pub fn changed_entries(entries: &Vec<ConfigEntry>, raws: &Vec<Option<String>>) -> (out: Vec<usize>)
    requires
        raws@.len() == entries@.len(),
    ensures
        out@ == changed_indices(entries@, raws@, entries@.len() as int),
{
    let mut out: Vec<usize> = Vec::new();
    let mut i: usize = 0;
    while i < entries.len()
        invariant
            i <= entries@.len(),
            raws@.len() == entries@.len(),
            out@ == changed_indices(entries@, raws@, i as int),
        decreases entries@.len() - i,
    {
        match &raws[i] {
            Some(r) => {
                if crate::cache::needs_update(&entries[i], r.as_str()) {
                    out.push(i);
                }
            },
            None => {},
        }
        i = i + 1;
    }
    out
}

/// The configurations to trust again after a refresh, built entry by entry.
pub struct RefreshPlan {
    /// `(name, source_path, content)` of every entry, in order.
    pub updated: Vec<(String, String, String)>,
    /// `(index, raw specification)` of each accepted OpenAPI entry, whose
    /// trusted hash is taken over the raw specification.
    pub raw_overrides: Vec<(usize, String)>,
    /// Whether any changed entry was accepted.
    pub any_changed: bool,
}

/// The record kept for `entry` with cache content `content`.
pub open spec fn kept(entry: ConfigEntry, content: Seq<char>) -> (Seq<char>, Seq<char>, Seq<char>) {
    (entry.name@, entry.source_path@, content)
}

/// The view of a plan's list of records.
pub open spec fn records(updated: Seq<(String, String, String)>) -> Seq<(Seq<char>, Seq<char>, Seq<char>)> {
    Seq::new(updated.len(), |i: int| (updated[i].0@, updated[i].1@, updated[i].2@))
}

impl RefreshPlan {
    /// An empty plan.
    pub fn new() -> (p: RefreshPlan)
        ensures
            p.updated@.len() == 0,
            p.raw_overrides@.len() == 0,
            !p.any_changed,
    {
        RefreshPlan { updated: Vec::new(), raw_overrides: Vec::new(), any_changed: false }
    }

    /// Keeps `entry` with `content`, as fetched or as cached.
    pub fn keep(&mut self, entry: &ConfigEntry, content: String)
        ensures
            records(final(self).updated@) == records(old(self).updated@).push(kept(*entry, content@)),
            final(self).raw_overrides == old(self).raw_overrides,
            final(self).any_changed == old(self).any_changed,
    {
        let ghost before = self.updated@;
        self.updated.push((entry.name.clone(), entry.source_path.clone(), content));
        assert(records(self.updated@) =~= records(before).push(kept(*entry, content@)));
    }

    /// Accepts the changed entry at `index`, with cache content `content`
    /// and raw source content `raw`. For an OpenAPI source the trusted hash
    /// is to be taken over the raw specification.
    pub fn accept(&mut self, index: usize, entry: &ConfigEntry, content: String, raw: String)
        ensures
            records(final(self).updated@) == records(old(self).updated@).push(kept(*entry, content@)),
            final(self).any_changed,
            openapi_prefix().is_prefix_of(entry.source_path@) ==> final(self).raw_overrides@.len()
                == old(self).raw_overrides@.len() + 1 && final(self).raw_overrides@.drop_last()
                == old(self).raw_overrides@ && final(self).raw_overrides@.last().0 == index
                && final(self).raw_overrides@.last().1 == raw,
            !openapi_prefix().is_prefix_of(entry.source_path@) ==> final(self).raw_overrides
                == old(self).raw_overrides,
    {
        if is_openapi_source(entry.source_path.as_str()) {
            let ghost before = self.raw_overrides@;
            self.raw_overrides.push((index, raw));
            assert(self.raw_overrides@.drop_last() =~= before);
        }
        self.keep(entry, content);
        self.any_changed = true;
    }
}

/// A name for what `str::to_lowercase` returns for a text.
pub uninterp spec fn unicode_lowercase(s: Seq<char>) -> Seq<char>;

/// The ASCII lowercase of `c`: `A` to `Z` become `a` to `z`; every other
/// character is unchanged.
pub open spec fn ascii_lower(c: char) -> char {
    if 'A' <= c && c <= 'Z' {
        ((c as u32) + 32) as char
    } else {
        c
    }
}

/// Calls `str::to_lowercase`. The contract claims that the result is the
/// named function of the text and, for an ASCII text, that it is the text
/// with `A` to `Z` mapped to `a` to `z` (the Unicode lowercase mapping,
/// which std's documentation defines the function by, of ASCII characters).
#[verifier::external_body]
fn to_lowercase(s: &str) -> (r: String)
    ensures
        r@ == unicode_lowercase(s@),
        all_ascii(s@) ==> r@.len() == s@.len() && forall|i: int| 0 <= i < s@.len() ==> #[trigger] r@[i] == ascii_lower(s@[i]),
{
    s.to_lowercase()
}

/// A reply to a `[y/N]` question accepts: once trimmed and lowercased it
/// is exactly `y`.
pub open spec fn affirmative(reply: Seq<char>) -> bool {
    exists|lo: int, hi: int| trimmed(reply, lo, hi) && unicode_lowercase(reply.subrange(lo, hi)) == seq!['y']
}

/// Whether a reply to a `[y/N]` question accepts; for an ASCII reply,
/// exactly when, trimmed, it is `y` or `Y`.
pub fn is_affirmative(reply: &str) -> (r: bool)
    ensures
        r == affirmative(reply@),
        all_ascii(reply@) ==> (r == exists|lo: int, hi: int|
            trimmed(reply@, lo, hi) && (reply@.subrange(lo, hi) == seq!['y'] || reply@.subrange(lo, hi)
                == seq!['Y'])),
{
    let t = trim(reply);
    let lower = to_lowercase(t.as_str());
    let y = String::from_str("y");
    proof {
        reveal_strlit("y");
        assert(y@ =~= seq!['y']);
        let (lo, hi) = choose|lo: int, hi: int| trimmed(reply@, lo, hi) && t@ == reply@.subrange(lo, hi);
        assert forall|lo2: int, hi2: int| trimmed(reply@, lo2, hi2) implies reply@.subrange(lo2, hi2)
            == reply@.subrange(lo, hi) by {
            lemma_trim_unique(reply@, lo, hi, lo2, hi2);
        }
        if all_ascii(reply@) {
            assert(all_ascii(t@)) by {
                assert forall|i: int| 0 <= i < t@.len() implies (#[trigger] t@[i] as u32) < 0x80 by {
                    assert(t@[i] == reply@[lo + i]);
                }
            }
            let is_y = t@ == seq!['y'] || t@ == seq!['Y'];
            if lower@ == seq!['y'] {
                assert(t@.len() == 1);
                assert(lower@[0] == ascii_lower(t@[0]));
                if 'A' <= t@[0] && t@[0] <= 'Z' {
                    assert(t@[0] == 'Y');
                    assert(t@ =~= seq!['Y']);
                } else {
                    assert(t@ =~= seq!['y']);
                }
            }
            if is_y {
                assert(lower@[0] == ascii_lower(t@[0]));
                assert(lower@ =~= seq!['y']);
            }
            assert((lower@ == seq!['y']) == is_y);
        }
    }
    lower == y
}

/// The entry at `k` counts as changed: its source could be read and hashes
/// to something other than the trusted hash.
pub open spec fn source_changed(entries: Seq<ConfigEntry>, raws: Seq<Option<String>>, k: int) -> bool {
    raws[k] matches Some(r) && content_hash(r@) != entries[k].hash@
}

/// `changed_indices` lists exactly the changed entries, each once, in
/// increasing order.
pub proof fn lemma_changed_indices_exact(entries: Seq<ConfigEntry>, raws: Seq<Option<String>>, n: int)
    requires
        0 <= n <= raws.len(),
        n <= entries.len(),
        n <= usize::MAX + 1,
    ensures
        forall|k: int| 0 <= k < n ==> (changed_indices(entries, raws, n).contains(k as usize) <==> source_changed(entries, raws, k)),
        forall|i: int, j: int| 0 <= i < j < changed_indices(entries, raws, n).len() ==> changed_indices(entries, raws, n)[i]
            < changed_indices(entries, raws, n)[j],
        forall|i: int| 0 <= i < changed_indices(entries, raws, n).len() ==> changed_indices(entries, raws, n)[i] < n,
    decreases n,
{
    if n > 0 {
        lemma_changed_indices_exact(entries, raws, n - 1);
        let rest = changed_indices(entries, raws, n - 1);
        let all = changed_indices(entries, raws, n);
        if source_changed(entries, raws, n - 1) {
            assert(all == rest.push((n - 1) as usize));
            assert forall|k: int| 0 <= k < n implies (all.contains(k as usize) <==> source_changed(entries, raws, k)) by {
                if k < n - 1 {
                    if all.contains(k as usize) {
                        let w = choose|w: int| 0 <= w < all.len() && all[w] == k as usize;
                        if w < rest.len() {
                            assert(rest[w] == k as usize);
                        }
                    }
                    if rest.contains(k as usize) {
                        let w = choose|w: int| 0 <= w < rest.len() && rest[w] == k as usize;
                        assert(all[w] == k as usize);
                    }
                } else {
                    assert(all[rest.len() as int] == k as usize);
                }
            }
        } else {
            assert(all == rest);
            assert forall|k: int| 0 <= k < n implies (all.contains(k as usize) <==> source_changed(entries, raws, k)) by {
                if k == n - 1 && all.contains(k as usize) {
                    let w = choose|w: int| 0 <= w < all.len() && all[w] == k as usize;
                    assert(rest[w] < n - 1);
                }
            }
        }
    }
}

/// Entries trusted from the contents that their sources still hold are
/// never reported as changed.
pub proof fn lemma_trusted_sources_unchanged(entries: Seq<ConfigEntry>, raws: Seq<Option<String>>)
    requires
        raws.len() == entries.len(),
        entries.len() <= usize::MAX,
        forall|k: int| 0 <= k < entries.len() && raws[k] is Some ==> entries[k].hash@ == content_hash(
            raws[k]->0@,
        ),
    ensures
        changed_indices(entries, raws, entries.len() as int).len() == 0,
{
    lemma_changed_indices_exact(entries, raws, entries.len() as int);
    let all = changed_indices(entries, raws, entries.len() as int);
    if all.len() > 0 {
        let k = all[0] as int;
        assert(all.contains(k as usize));
        assert(!source_changed(entries, raws, k));
    }
}

/// The raw contents of what was fetched from each source.
pub open spec fn raw_contents(fetched: Seq<Option<(String, String)>>) -> Seq<Option<String>> {
    Seq::new(
        fetched.len(),
        |k: int|
            match fetched[k] {
                Some(f) => Some(f.1),
                None => None,
            },
    )
}

/// The update check lists exactly the configurations that a refresh treats
/// as changed, given the same fetched sources.
pub proof fn lemma_update_check_matches_refresh(entries: Seq<ConfigEntry>, fetched: Seq<Option<(String, String)>>)
    requires
        fetched.len() == entries.len(),
        entries.len() <= usize::MAX,
    ensures
        forall|k: int|
            0 <= k < entries.len() ==> (changed_indices(entries, raw_contents(fetched), entries.len() as int).contains(
                k as usize,
            ) <==> status_of(entries[k], fetched[k]) is Changed),
{
    let raws = raw_contents(fetched);
    lemma_changed_indices_exact(entries, raws, entries.len() as int);
    assert forall|k: int| 0 <= k < entries.len() implies (changed_indices(
        entries,
        raws,
        entries.len() as int,
    ).contains(k as usize) <==> status_of(entries[k], fetched[k]) is Changed) by {
        assert(source_changed(entries, raws, k) <==> status_of(entries[k], fetched[k]) is Changed);
    }
}

/// A changed configuration is trusted again when `yes` was given or the
/// user's reply accepts.
pub open spec fn accepted_by(yes: bool, reply: Option<String>) -> bool {
    yes || (reply matches Some(r) && affirmative(r@))
}

/// Whether the user must be asked before an entry in state `s` is trusted
/// again: only a changed entry, and only without `yes`.
pub fn needs_answer(s: &EntryStatus, yes: bool) -> (r: bool)
    ensures
        r == (*s is Changed && !yes),
{
    match s {
        EntryStatus::Changed => !yes,
        _ => false,
    }
}

/// What a refresh did with one entry.
pub enum RefreshAction {
    /// The source is unchanged; its content was kept.
    Kept,
    /// The source changed and was trusted again.
    Accepted,
    /// The source changed and was declined; the cached copy was kept.
    Declined,
    /// The source could not be read; the cached copy was kept.
    Unavailable,
    /// The cached copy is needed and was not given; nothing was recorded.
    NeedCache,
}

/// One step of a refresh: records entry `index` in `plan`, given what was
/// fetched from its source, whether `yes` was given, the user's reply when
/// one was asked for, and the cached copy when it was read. An unchanged
/// source is kept as fetched; a changed one is accepted when `yes` was given
/// or the reply accepts, and otherwise the cached copy is kept; an
/// unreadable one keeps the cached copy. Where the cached copy is needed
/// but not given, nothing is recorded.
pub fn refresh_step(
    plan: &mut RefreshPlan,
    index: usize,
    entry: &ConfigEntry,
    fetched: Option<(String, String)>,
    yes: bool,
    reply: Option<String>,
    cached: Option<String>,
) -> (a: RefreshAction)
    ensures
        ({
            let keeps = records(final(plan).updated@) == records(old(plan).updated@).push(kept(*entry, match cached {
                Some(c) => c@,
                None => Seq::empty(),
            })) && final(plan).raw_overrides == old(plan).raw_overrides && final(plan).any_changed
                == old(plan).any_changed;
            let unchanged = final(plan).updated == old(plan).updated && final(plan).raw_overrides
                == old(plan).raw_overrides && final(plan).any_changed == old(plan).any_changed;
            match status_of(*entry, fetched) {
                EntryStatus::Unchanged => {
                    &&& a is Kept
                    &&& records(final(plan).updated@) == records(old(plan).updated@).push(
                        kept(*entry, (fetched->0).0@),
                    )
                    &&& final(plan).raw_overrides == old(plan).raw_overrides
                    &&& final(plan).any_changed == old(plan).any_changed
                },
                EntryStatus::Changed => if accepted_by(yes, reply) {
                    &&& a is Accepted
                    &&& records(final(plan).updated@) == records(old(plan).updated@).push(
                        kept(*entry, (fetched->0).0@),
                    )
                    &&& final(plan).any_changed
                    &&& openapi_prefix().is_prefix_of(entry.source_path@) ==> final(plan).raw_overrides@
                        == old(plan).raw_overrides@.push((index, (fetched->0).1))
                    &&& !openapi_prefix().is_prefix_of(entry.source_path@) ==> final(plan).raw_overrides
                        == old(plan).raw_overrides
                } else if cached is Some {
                    a is Declined && keeps
                } else {
                    a is NeedCache && unchanged
                },
                EntryStatus::Unavailable => if cached is Some {
                    a is Unavailable && keeps
                } else {
                    a is NeedCache && unchanged
                },
            }
        }),
{
    let status = entry_status(entry, &fetched);
    match status {
        EntryStatus::Unchanged => {
            let (content, _) = fetched.unwrap();
            plan.keep(entry, content);
            RefreshAction::Kept
        },
        EntryStatus::Changed => {
            let accepted = yes || match &reply {
                Some(r) => is_affirmative(r.as_str()),
                None => false,
            };
            if accepted {
                let (content, raw) = fetched.unwrap();
                let ghost before = plan.raw_overrides@;
                plan.accept(index, entry, content, raw);
                proof {
                    if openapi_prefix().is_prefix_of(entry.source_path@) {
                        assert(plan.raw_overrides@ =~= before.push(plan.raw_overrides@.last()));
                    }
                }
                RefreshAction::Accepted
            } else {
                match cached {
                    Some(c) => {
                        plan.keep(entry, c);
                        RefreshAction::Declined
                    },
                    None => RefreshAction::NeedCache,
                }
            }
        },
        EntryStatus::Unavailable => {
            match cached {
                Some(c) => {
                    plan.keep(entry, c);
                    RefreshAction::Unavailable
                },
                None => RefreshAction::NeedCache,
            }
        },
    }
}

/// One step of trusting every configuration again after an update check
/// was accepted: entry `index` is recorded with what was fetched from its
/// source, its raw specification kept for an OpenAPI source; an unreadable
/// source keeps the cached copy. Where the cached copy is needed but not
/// given, nothing is recorded.
pub fn update_step(
    plan: &mut RefreshPlan,
    index: usize,
    entry: &ConfigEntry,
    fetched: Option<(String, String)>,
    cached: Option<String>,
) -> (a: RefreshAction)
    ensures
        match fetched {
            Some(f) => {
                &&& records(final(plan).updated@) == records(old(plan).updated@).push(kept(*entry, f.0@))
                &&& openapi_prefix().is_prefix_of(entry.source_path@) ==> {
                    &&& a is Accepted
                    &&& final(plan).raw_overrides@ == old(plan).raw_overrides@.push((index, f.1))
                    &&& final(plan).any_changed
                }
                &&& !openapi_prefix().is_prefix_of(entry.source_path@) ==> {
                    &&& a is Kept
                    &&& final(plan).raw_overrides == old(plan).raw_overrides
                    &&& final(plan).any_changed == old(plan).any_changed
                }
            },
            None => match cached {
                Some(c) => {
                    &&& a is Unavailable
                    &&& records(final(plan).updated@) == records(old(plan).updated@).push(kept(*entry, c@))
                    &&& final(plan).raw_overrides == old(plan).raw_overrides
                    &&& final(plan).any_changed == old(plan).any_changed
                },
                None => {
                    &&& a is NeedCache
                    &&& final(plan).updated == old(plan).updated
                    &&& final(plan).raw_overrides == old(plan).raw_overrides
                    &&& final(plan).any_changed == old(plan).any_changed
                },
            },
        },
{
    match fetched {
        Some(f) => {
            let (content, raw) = f;
            if is_openapi_source(entry.source_path.as_str()) {
                let ghost before = plan.raw_overrides@;
                plan.accept(index, entry, content, raw);
                assert(plan.raw_overrides@ =~= before.push(plan.raw_overrides@.last()));
                RefreshAction::Accepted
            } else {
                plan.keep(entry, content);
                RefreshAction::Kept
            }
        },
        None => match cached {
            Some(c) => {
                plan.keep(entry, c);
                RefreshAction::Unavailable
            },
            None => RefreshAction::NeedCache,
        },
    }
}

} // verus!
