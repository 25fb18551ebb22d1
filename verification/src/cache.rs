//! The translation cache's own state and rules: which lookup is a hit, a miss
//! or an expired row, how hits are buffered and flushed, and which rows the
//! sweeps remove.
//!
//! The cache decides; the caller reads and writes storage. Each operation
//! takes what storage returned and hands back the commands to carry out.

use crate::clock::{parse_rfc3339, rfc3339_micros, rfc3339_text, Timestamp, MICROS_PER_DAY};
use crate::store::{table_after, table_after_all, StoreCommand, StoredRow, Table};
use vstd::prelude::*;

verus! {

/// A cached translation as a lookup or a store returns it.
#[derive(Debug, Clone)]
pub struct CacheEntry {
    pub cache_key: String,
    pub content_hash: String,
    pub path: String,
    pub translated_content: String,
    pub translated_hash: String,
    /// Microseconds since the Unix epoch.
    pub created_at: i64,
    /// Microseconds since the Unix epoch.
    pub accessed_at: i64,
    pub hit_count: i64,
    /// JSON text.
    pub metadata: String,
}

/// Figures about the cache.
#[derive(Debug, Clone)]
pub struct CacheStats {
    pub total_entries: i64,
    pub total_size_bytes: i64,
    /// Microseconds since the Unix epoch.
    pub oldest_entry: Option<i64>,
    /// Microseconds since the Unix epoch.
    pub newest_entry: Option<i64>,
    pub total_hits: i64,
    pub total_misses: i64,
}

/// What storage reports when asked for the figures of the table.
#[derive(Debug, Clone)]
pub struct StoreFigures {
    /// The number of rows.
    pub entries: i64,
    /// The sum of the lengths of the stored translations; none for an empty table.
    pub size_bytes: Option<i64>,
    /// The least `created_at`, as stored; none for an empty table.
    pub oldest: Option<String>,
    /// The greatest `created_at`, as stored; none for an empty table.
    pub newest: Option<String>,
    /// The sum of the hit counts; none for an empty table.
    pub hits: Option<i64>,
}

/// Whether `text` is one JSON value, as serde_json reads it.
pub uninterp spec fn is_json(text: Seq<char>) -> bool;

/// serde_json's `from_str` with `serde_json::Value` as its target: whether it
/// accepts the text.
#[verifier::external_body]
fn json_parses(text: &str) -> (ok: bool)
    ensures
        ok == is_json(text@),
{
    serde_json::from_str::<serde_json::Value>(text).is_ok()
}

/// `count + 1`, but never beyond `i64::MAX`.
pub open spec fn bumped(count: int) -> int {
    if count < i64::MAX {
        count + 1
    } else {
        count
    }
}

/// `n` brought into the range of `i64`.
pub open spec fn clamped(n: int) -> int {
    if n < i64::MIN {
        i64::MIN as int
    } else if n > i64::MAX {
        i64::MAX as int
    } else {
        n
    }
}

/// The instant a stored time column names; `now` where the text is no
/// RFC 3339 time.
pub open spec fn stored_instant(text: Seq<char>, now: int) -> int {
    match rfc3339_micros(text) {
        Some(at) => at,
        None => now,
    }
}

/// Whether a row created at `created_at` is older at `now` than `max_age_days` days.
pub open spec fn is_expired(created_at: Seq<char>, now: int, max_age_days: int) -> bool {
    now - stored_instant(created_at, now) > max_age_days * MICROS_PER_DAY
}

/// The JSON text a stored metadata column stands for: the column itself, or
/// the empty object where the column holds no JSON.
pub open spec fn stored_metadata(column: Seq<char>) -> Seq<char> {
    if is_json(column) {
        column
    } else {
        "{}"@
    }
}

/// The buffered hits of `key`; zero where none are buffered.
pub open spec fn buffered(pending: Map<Seq<char>, int>, key: Seq<char>) -> int {
    if pending.contains_key(key) {
        pending[key]
    } else {
        0
    }
}

/// The buffer after one more hit of `key`.
pub open spec fn hit_added(pending: Map<Seq<char>, int>, key: Seq<char>) -> Map<Seq<char>, int> {
    pending.insert(key, if pending.contains_key(key) { bumped(pending[key]) } else { 1 })
}

/// Whether `entry` is what a lookup returns for a fresh `row` at `now`, with
/// `ahead` hits of the key buffered, this lookup's among them.
pub open spec fn entry_for(entry: CacheEntry, row: StoredRow, now: int, ahead: int) -> bool {
    &&& entry.cache_key@ == row.cache_key@
    &&& entry.content_hash@ == row.content_hash@
    &&& entry.path@ == row.path@
    &&& entry.translated_content@ == row.translated_content@
    &&& entry.translated_hash@ == row.translated_hash@
    &&& entry.created_at == stored_instant(row.created_at@, now)
    &&& entry.accessed_at == stored_instant(row.accessed_at@, now)
    &&& entry.hit_count == clamped(row.hit_count + ahead)
    &&& entry.metadata@ == stored_metadata(row.metadata@)
}

/// The keys with buffered hits, each with its count.
pub open spec fn as_map(list: Seq<(String, i64)>) -> Map<Seq<char>, int>
    decreases list.len(),
{
    if list.len() == 0 {
        Map::empty()
    } else {
        as_map(list.drop_last()).insert(list.last().0@, list.last().1 as int)
    }
}

/// Whether no key stands twice in the list, and every count is positive.
pub open spec fn distinct_keys(list: Seq<(String, i64)>) -> bool {
    &&& forall|i: int, j: int| 0 <= i < j < list.len() ==> list[i].0@ != list[j].0@
    &&& forall|i: int| 0 <= i < list.len() ==> (#[trigger] list[i]).1 >= 1
}

/// A list without its last entry has distinct keys if the list has.
proof fn lemma_distinct_front(list: Seq<(String, i64)>)
    requires
        distinct_keys(list),
        list.len() > 0,
    ensures
        distinct_keys(list.drop_last()),
{
    let front = list.drop_last();
    assert forall|a: int, b: int| 0 <= a < b < front.len() implies front[a].0@ != front[b].0@ by {
        assert(front[a] == list[a] && front[b] == list[b]);
    }
    assert forall|a: int| 0 <= a < front.len() implies (#[trigger] front[a]).1 >= 1 by {
        assert(front[a] == list[a]);
    }
}

/// A key that stands nowhere in the list has no buffered hits.
pub proof fn lemma_as_map_absent(list: Seq<(String, i64)>, key: Seq<char>)
    requires
        forall|i: int| 0 <= i < list.len() ==> (#[trigger] list[i]).0@ != key,
    ensures
        !as_map(list).contains_key(key),
    decreases list.len(),
{
    if list.len() > 0 {
        let front = list.drop_last();
        assert forall|i: int| 0 <= i < front.len() implies (#[trigger] front[i]).0@ != key by {
            assert(front[i] == list[i]);
        }
        lemma_as_map_absent(front, key);
        assert(list.last() == list[list.len() - 1]);
    }
}

/// Each key of the list has the count that stands beside it.
pub proof fn lemma_as_map_entry(list: Seq<(String, i64)>, i: int)
    requires
        distinct_keys(list),
        0 <= i < list.len(),
    ensures
        as_map(list).contains_key(list[i].0@),
        as_map(list)[list[i].0@] == list[i].1,
    decreases list.len(),
{
    let front = list.drop_last();
    if i < list.len() - 1 {
        assert(front[i] == list[i]);
        lemma_distinct_front(list);
        lemma_as_map_entry(front, i);
        assert(list[i].0@ != list[list.len() - 1].0@);
    }
}

/// The keys with buffered hits are those of the list, each once.
pub proof fn lemma_as_map_keys(list: Seq<(String, i64)>)
    requires
        distinct_keys(list),
    ensures
        as_map(list).dom().finite(),
        as_map(list).dom().len() == list.len(),
        forall|k: Seq<char>| #[trigger]
            as_map(list).contains_key(k) ==> exists|i: int|
                0 <= i < list.len() && (#[trigger] list[i]).0@ == k,
    decreases list.len(),
{
    if list.len() > 0 {
        let front = list.drop_last();
        lemma_distinct_front(list);
        lemma_as_map_keys(front);
        assert forall|i: int| 0 <= i < front.len() implies (#[trigger] front[i]).0@
            != list.last().0@ by {
            assert(front[i] == list[i]);
        }
        lemma_as_map_absent(front, list.last().0@);
        assert forall|k: Seq<char>| #[trigger] as_map(list).contains_key(k) implies exists|i: int|
            0 <= i < list.len() && (#[trigger] list[i]).0@ == k by {
            if k == list.last().0@ {
                assert(list[list.len() - 1].0@ == k);
            } else {
                assert(as_map(front).contains_key(k));
                let i = choose|i: int| 0 <= i < front.len() && (#[trigger] front[i]).0@ == k;
                assert(list[i] == front[i]);
            }
        }
    }
}

/// Changing the count beside a key changes the buffered hits of that key alone.
pub proof fn lemma_as_map_update(list: Seq<(String, i64)>, i: int, entry: (String, i64))
    requires
        distinct_keys(list),
        0 <= i < list.len(),
        entry.0@ == list[i].0@,
    ensures
        as_map(list.update(i, entry)) == as_map(list).insert(entry.0@, entry.1 as int),
    decreases list.len(),
{
    let front = list.drop_last();
    let changed = list.update(i, entry);
    if i == list.len() - 1 {
        assert(changed.drop_last() == front);
        assert(as_map(changed) =~= as_map(list).insert(entry.0@, entry.1 as int));
    } else {
        lemma_distinct_front(list);
        assert(front[i] == list[i]);
        lemma_as_map_update(front, i, entry);
        assert(changed.drop_last() == front.update(i, entry));
        assert(changed.last() == list.last());
        assert(list[i].0@ != list[list.len() - 1].0@);
        assert(as_map(changed) =~= as_map(list).insert(entry.0@, entry.1 as int));
    }
}

/// Whether `commands` flushes the buffer `pending` at the time written `at`:
/// one `AddHits` for each key of the buffer, with the key's count.
pub open spec fn is_flush_of(
    commands: Seq<StoreCommand>,
    pending: Map<Seq<char>, int>,
    at: Seq<char>,
) -> bool {
    &&& commands.len() == pending.dom().len()
    &&& forall|i: int|
        0 <= i < commands.len() ==> match #[trigger] commands[i] {
            StoreCommand::AddHits { cache_key, count, accessed_at } => {
                &&& pending.contains_key(cache_key@)
                &&& pending[cache_key@] == count
                &&& accessed_at@ == at
            },
            _ => false,
        }
    &&& forall|i: int, j: int|
        0 <= i < j < commands.len() ==> command_key(#[trigger] commands[i]) != command_key(
            #[trigger] commands[j],
        )
    &&& forall|k: Seq<char>| #[trigger]
        pending.contains_key(k) ==> exists|i: int|
            0 <= i < commands.len() && command_key(#[trigger] commands[i]) == k
}

/// The key that a command names; empty for a command that names none.
pub open spec fn command_key(command: StoreCommand) -> Seq<char> {
    match command {
        StoreCommand::Upsert(row) => row.cache_key@,
        StoreCommand::Delete { cache_key } => cache_key@,
        StoreCommand::AddHits { cache_key, .. } => cache_key@,
        _ => Seq::empty(),
    }
}

/// Adds one hit of `key` to the list and returns the hits of the key held then.
fn add_hit(list: &mut Vec<(String, i64)>, key: String) -> (ahead: i64)
    requires
        distinct_keys(old(list)@),
    ensures
        distinct_keys(final(list)@),
        as_map(final(list)@) == hit_added(as_map(old(list)@), key@),
        ahead == buffered(as_map(final(list)@), key@),
{
    let mut i: usize = 0;
    while i < list.len()
        invariant
            i <= list.len(),
            *list == *old(list),
            distinct_keys(list@),
            forall|j: int| 0 <= j < i ==> (#[trigger] list@[j]).0@ != key@,
        decreases list.len() - i,
    {
        if list[i].0 == key {
            let before: i64 = list[i].1;
            let after: i64 = if before < i64::MAX {
                before + 1
            } else {
                before
            };
            proof {
                lemma_as_map_entry(list@, i as int);
                lemma_as_map_update(list@, i as int, (key, after));
                let changed = list@.update(i as int, (key, after));
                assert(distinct_keys(changed)) by {
                    assert forall|a: int, b: int| 0 <= a < b < changed.len() implies changed[a].0@
                        != changed[b].0@ by {
                        assert(changed[a].0@ == list@[a].0@);
                        assert(changed[b].0@ == list@[b].0@);
                    }
                }
            }
            list.set(i, (key, after));
            return after;
        }
        i = i + 1;
    }
    proof {
        lemma_as_map_absent(list@, key@);
        let grown = list@.push((key, 1i64));
        assert(grown.drop_last() == list@);
        assert(distinct_keys(grown));
    }
    list.push((key, 1));
    1
}

/// The cache's state in memory: the age at which a row expires, the misses
/// counted since the start, and the hits not yet written to storage.
pub struct TranslationCache {
    max_age_days: i64,
    miss_count: i64,
    pending_hits: Vec<(String, i64)>,
}

impl TranslationCache {
    #[verifier::type_invariant]
    spec fn well_formed(self) -> bool {
        distinct_keys(self.pending_hits@) && self.miss_count >= 0
    }

    /// The age, in days, beyond which a row counts as expired.
    pub closed spec fn max_age_days(&self) -> int {
        self.max_age_days as int
    }

    /// The misses counted so far.
    pub closed spec fn misses(&self) -> int {
        self.miss_count as int
    }

    /// The hits not yet written to storage, by key.
    pub closed spec fn pending(&self) -> Map<Seq<char>, int> {
        as_map(self.pending_hits@)
    }

    /// A cache with no miss counted and no hit buffered.
    pub fn new(max_age_days: i64) -> (cache: TranslationCache)
        ensures
            cache.max_age_days() == max_age_days,
            cache.misses() == 0,
            cache.pending() == Map::<Seq<char>, int>::empty(),
    {
        TranslationCache { max_age_days, miss_count: 0, pending_hits: Vec::new() }
    }

    /// The misses counted so far.
    pub fn miss_count(&self) -> (n: i64)
        ensures
            n == self.misses(),
            n >= 0,
    {
        proof {
            use_type_invariant(self);
        }
        self.miss_count
    }

    /// The buffered hits of `cache_key`.
    pub fn pending_hits_for(&self, cache_key: &str) -> (n: i64)
        ensures
            n == buffered(self.pending(), cache_key@),
    {
        proof {
            use_type_invariant(self);
        }
        let key = cache_key.to_owned();
        let mut i: usize = 0;
        while i < self.pending_hits.len()
            invariant
                i <= self.pending_hits.len(),
                key@ == cache_key@,
                distinct_keys(self.pending_hits@),
                forall|j: int| 0 <= j < i ==> (#[trigger] self.pending_hits@[j]).0@ != key@,
            decreases self.pending_hits.len() - i,
        {
            if self.pending_hits[i].0 == key {
                proof {
                    lemma_as_map_entry(self.pending_hits@, i as int);
                }
                return self.pending_hits[i].1;
            }
            i = i + 1;
        }
        proof {
            lemma_as_map_absent(self.pending_hits@, key@);
        }
        0
    }

    /// Counts one miss.
    fn count_miss(&mut self)
        ensures
            final(self).misses() == bumped(old(self).misses()),
            final(self).pending() == old(self).pending(),
            final(self).max_age_days() == old(self).max_age_days(),
    {
        proof {
            use_type_invariant(&*self);
        }
        if self.miss_count < i64::MAX {
            self.miss_count = self.miss_count + 1;
        }
    }

    /// Buffers one hit of `key` and returns the hits of the key buffered then.
    fn count_hit(&mut self, key: String) -> (ahead: i64)
        ensures
            final(self).pending() == hit_added(old(self).pending(), key@),
            ahead == buffered(final(self).pending(), key@),
            final(self).misses() == old(self).misses(),
            final(self).max_age_days() == old(self).max_age_days(),
    {
        proof {
            use_type_invariant(&*self);
        }
        let mut list: Vec<(String, i64)> = Vec::new();
        core::mem::swap(&mut self.pending_hits, &mut list);
        let ahead = add_hit(&mut list, key);
        core::mem::swap(&mut self.pending_hits, &mut list);
        ahead
    }

    /// Looks `cache_key` up, given the row that storage holds under it, if any.
    ///
    /// No row is a miss, and is counted. A row older than the maximum age is
    /// not returned and comes with the command that removes it; its miss is
    /// counted by `expired_row_removed`, once the command has been carried
    /// out. Any other row is a hit: it is buffered, and the entry returned
    /// counts the stored hits and the buffered ones of the key, this one
    /// among them.
    pub fn get(&mut self, cache_key: &str, row: Option<StoredRow>, now: &Timestamp) -> (r: (
        Option<CacheEntry>,
        Option<StoreCommand>,
    ))
        ensures
            final(self).max_age_days() == old(self).max_age_days(),
            match row {
                None => {
                    &&& r.0 is None
                    &&& r.1 is None
                    &&& final(self).misses() == bumped(old(self).misses())
                    &&& final(self).pending() == old(self).pending()
                },
                Some(row) => if is_expired(
                    row.created_at@,
                    now.instant(),
                    old(self).max_age_days(),
                ) {
                    &&& r.0 is None
                    &&& r.1 matches Some(StoreCommand::Delete { cache_key: removed })
                    &&& removed@ == cache_key@
                    &&& final(self).misses() == old(self).misses()
                    &&& final(self).pending() == old(self).pending()
                } else {
                    &&& r.1 is None
                    &&& final(self).misses() == old(self).misses()
                    &&& final(self).pending() == hit_added(old(self).pending(), cache_key@)
                    &&& r.0 matches Some(entry)
                    &&& entry_for(
                        entry,
                        row,
                        now.instant(),
                        buffered(final(self).pending(), cache_key@),
                    )
                },
            },
    {
        match row {
            None => {
                self.count_miss();
                (None, None)
            },
            Some(row) => {
                let at: i64 = now.micros();
                let created_at: i64 = match parse_rfc3339(row.created_at.as_str()) {
                    Some(t) => t,
                    None => at,
                };
                let age: i128 = (at as i128) - (created_at as i128);
                assert(MICROS_PER_DAY == 86_400_000_000);
                let limit: i128 = (self.max_age_days as i128) * 86_400_000_000i128;
                if age > limit {
                    (None, Some(StoreCommand::Delete { cache_key: cache_key.to_owned() }))
                } else {
                    let ahead: i64 = self.count_hit(cache_key.to_owned());
                    let accessed_at: i64 = match parse_rfc3339(row.accessed_at.as_str()) {
                        Some(t) => t,
                        None => at,
                    };
                    let total: i128 = (row.hit_count as i128) + (ahead as i128);
                    let hit_count: i64 = if total > i64::MAX as i128 {
                        i64::MAX
                    } else if total < i64::MIN as i128 {
                        i64::MIN
                    } else {
                        total as i64
                    };
                    let metadata = if json_parses(row.metadata.as_str()) {
                        row.metadata
                    } else {
                        "{}".to_owned()
                    };
                    let entry = CacheEntry {
                        cache_key: row.cache_key,
                        content_hash: row.content_hash,
                        path: row.path,
                        translated_content: row.translated_content,
                        translated_hash: row.translated_hash,
                        created_at,
                        accessed_at,
                        hit_count,
                        metadata,
                    };
                    (Some(entry), None)
                }
            },
        }
    }

    /// Counts the miss of a lookup that found an expired row, after the row
    /// has been removed from storage.
    pub fn expired_row_removed(&mut self)
        ensures
            final(self).misses() == bumped(old(self).misses()),
            final(self).pending() == old(self).pending(),
            final(self).max_age_days() == old(self).max_age_days(),
    {
        self.count_miss();
    }

    /// Builds the entry for a new translation and the command that stores it.
    ///
    /// The row takes the place of any row under the key: its hit count is
    /// zero and both its times are `now`. Without metadata the row holds the
    /// empty JSON object.
    pub fn set(
        &self,
        cache_key: &str,
        content_hash: &str,
        path: &str,
        translated_content: &str,
        translated_hash: &str,
        metadata: Option<String>,
        now: &Timestamp,
    ) -> (r: (CacheEntry, StoreCommand))
        ensures
            r.0.cache_key@ == cache_key@,
            r.0.content_hash@ == content_hash@,
            r.0.path@ == path@,
            r.0.translated_content@ == translated_content@,
            r.0.translated_hash@ == translated_hash@,
            r.0.created_at == now.instant(),
            r.0.accessed_at == now.instant(),
            r.0.hit_count == 0,
            r.0.metadata@ == given_metadata(metadata),
            match r.1 {
                StoreCommand::Upsert(row) => {
                    &&& row.cache_key@ == cache_key@
                    &&& row.content_hash@ == content_hash@
                    &&& row.path@ == path@
                    &&& row.translated_content@ == translated_content@
                    &&& row.translated_hash@ == translated_hash@
                    &&& row.created_at@ == now.written()
                    &&& row.accessed_at@ == now.written()
                    &&& row.hit_count == 0
                    &&& row.metadata@ == given_metadata(metadata)
                },
                _ => false,
            },
    {
        let metadata = match metadata {
            Some(text) => text,
            None => "{}".to_owned(),
        };
        let row = StoredRow {
            cache_key: cache_key.to_owned(),
            content_hash: content_hash.to_owned(),
            path: path.to_owned(),
            translated_content: translated_content.to_owned(),
            translated_hash: translated_hash.to_owned(),
            created_at: now.to_rfc3339(),
            accessed_at: now.to_rfc3339(),
            hit_count: 0,
            metadata: metadata.clone(),
        };
        let entry = CacheEntry {
            cache_key: cache_key.to_owned(),
            content_hash: content_hash.to_owned(),
            path: path.to_owned(),
            translated_content: translated_content.to_owned(),
            translated_hash: translated_hash.to_owned(),
            created_at: now.micros(),
            accessed_at: now.micros(),
            hit_count: 0,
            metadata,
        };
        (entry, StoreCommand::Upsert(row))
    }

    /// Empties the buffer of hits and returns, for each key that had hits,
    /// the command that adds them to the stored row and sets its time of
    /// last access to `now`.
    pub fn flush_pending_hits(&mut self, now: &Timestamp) -> (commands: Vec<StoreCommand>)
        ensures
            final(self).pending() == Map::<Seq<char>, int>::empty(),
            final(self).misses() == old(self).misses(),
            final(self).max_age_days() == old(self).max_age_days(),
            old(self).pending().dom().finite(),
            is_flush_of(commands@, old(self).pending(), now.written()),
    {
        proof {
            use_type_invariant(&*self);
        }
        let mut list: Vec<(String, i64)> = Vec::new();
        core::mem::swap(&mut self.pending_hits, &mut list);
        let mut commands: Vec<StoreCommand> = Vec::new();
        let mut i: usize = 0;
        proof {
            lemma_as_map_keys(list@);
        }
        while i < list.len()
            invariant
                i <= list.len(),
                commands.len() == i,
                distinct_keys(list@),
                forall|j: int|
                    0 <= j < i ==> match #[trigger] commands@[j] {
                        StoreCommand::AddHits { cache_key, count, accessed_at } => {
                            &&& cache_key@ == list@[j].0@
                            &&& count == list@[j].1
                            &&& accessed_at@ == now.written()
                        },
                        _ => false,
                    },
            decreases list.len() - i,
        {
            commands.push(
                StoreCommand::AddHits {
                    cache_key: list[i].0.clone(),
                    count: list[i].1,
                    accessed_at: now.to_rfc3339(),
                },
            );
            i = i + 1;
        }
        proof {
            let pending = as_map(list@);
            assert forall|j: int| 0 <= j < commands.len() implies match #[trigger] commands@[j] {
                StoreCommand::AddHits { cache_key, count, accessed_at } => {
                    &&& pending.contains_key(cache_key@)
                    &&& pending[cache_key@] == count
                    &&& accessed_at@ == now.written()
                },
                _ => false,
            } by {
                lemma_as_map_entry(list@, j);
            }
            assert forall|a: int, b: int| 0 <= a < b < commands.len() implies command_key(
                #[trigger] commands@[a],
            ) != command_key(#[trigger] commands@[b]) by {
                assert(command_key(commands@[a]) == list@[a].0@);
                assert(command_key(commands@[b]) == list@[b].0@);
            }
            assert forall|k: Seq<char>| #[trigger] pending.contains_key(k) implies exists|j: int|
                0 <= j < commands.len() && command_key(#[trigger] commands@[j]) == k by {
                let j = choose|j: int| 0 <= j < list.len() && (#[trigger] list@[j]).0@ == k;
                assert(command_key(commands@[j]) == list@[j].0@);
            }
        }
        commands
    }

    /// The command that removes the rows created more than the maximum age
    /// before `now`; none where the cutoff is no instant with a date.
    pub fn clear_expired(&self, now: &Timestamp) -> (r: Option<StoreCommand>)
        ensures
            match r {
                Some(command) => {
                    &&& command matches StoreCommand::DeleteCreatedBefore { cutoff }
                    &&& has_date(now.instant() - self.max_age_days() * MICROS_PER_DAY)
                    &&& rfc3339_text(now.instant() - self.max_age_days() * MICROS_PER_DAY) == Some(
                        cutoff@,
                    )
                },
                None => !has_date(now.instant() - self.max_age_days() * MICROS_PER_DAY),
            },
    {
        match now.minus_days(self.max_age_days) {
            Some(at) => Some(StoreCommand::DeleteCreatedBefore { cutoff: at.to_rfc3339() }),
            None => None,
        }
    }

    /// The command that removes the rows not accessed for `stale_days` days
    /// at `now`; none where the cutoff is no instant with a date.
    pub fn clear_stale(&self, stale_days: i64, now: &Timestamp) -> (r: Option<StoreCommand>)
        ensures
            match r {
                Some(command) => {
                    &&& command matches StoreCommand::DeleteAccessedBefore { cutoff }
                    &&& has_date(now.instant() - stale_days * MICROS_PER_DAY)
                    &&& rfc3339_text(now.instant() - stale_days * MICROS_PER_DAY) == Some(cutoff@)
                },
                None => !has_date(now.instant() - stale_days * MICROS_PER_DAY),
            },
    {
        match now.minus_days(stale_days) {
            Some(at) => Some(StoreCommand::DeleteAccessedBefore { cutoff: at.to_rfc3339() }),
            None => None,
        }
    }

    /// The command that removes every row.
    pub fn clear_all(&self) -> (command: StoreCommand)
        ensures
            command is DeleteAll,
    {
        StoreCommand::DeleteAll
    }

    /// The figures of the cache: those of the table as storage reports them,
    /// and the misses counted in memory. Buffered hits are not among the
    /// hits; an empty table has size zero, no hits, and no oldest or newest
    /// entry, and a time that is no RFC 3339 text counts as none.
    pub fn get_stats(&self, figures: StoreFigures) -> (stats: CacheStats)
        ensures
            stats.total_entries == figures.entries,
            stats.total_size_bytes == figures.size_bytes.unwrap_or(0),
            stats.oldest_entry == read_time(figures.oldest),
            stats.newest_entry == read_time(figures.newest),
            stats.total_hits == figures.hits.unwrap_or(0),
            stats.total_misses == self.misses(),
    {
        let oldest_entry = match &figures.oldest {
            Some(text) => parse_rfc3339(text.as_str()),
            None => None,
        };
        let newest_entry = match &figures.newest {
            Some(text) => parse_rfc3339(text.as_str()),
            None => None,
        };
        CacheStats {
            total_entries: figures.entries,
            total_size_bytes: match figures.size_bytes {
                Some(n) => n,
                None => 0,
            },
            oldest_entry,
            newest_entry,
            total_hits: match figures.hits {
                Some(n) => n,
                None => 0,
            },
            total_misses: self.miss_count,
        }
    }

    /// What to carry out before the cache is given up: the flush of the
    /// buffered hits, then a checkpoint.
    pub fn close(&mut self, now: &Timestamp) -> (commands: Vec<StoreCommand>)
        ensures
            final(self).pending() == Map::<Seq<char>, int>::empty(),
            final(self).misses() == old(self).misses(),
            final(self).max_age_days() == old(self).max_age_days(),
            old(self).pending().dom().finite(),
            commands@.len() > 0,
            commands@.last() is Checkpoint,
            is_flush_of(commands@.drop_last(), old(self).pending(), now.written()),
    {
        let mut commands = self.flush_pending_hits(now);
        let ghost flush = commands@;
        commands.push(StoreCommand::Checkpoint);
        assert(commands@.drop_last() == flush);
        commands
    }
}

/// The metadata that a row is stored with: what was given, or the empty
/// JSON object.
pub open spec fn given_metadata(metadata: Option<String>) -> Seq<char> {
    match metadata {
        Some(text) => text@,
        None => "{}"@,
    }
}

/// Whether `at` is within the range of `i64` and has a date.
pub open spec fn has_date(at: int) -> bool {
    i64::MIN <= at <= i64::MAX && rfc3339_text(at) is Some
}

/// The instant that a time reported by storage names, if it names one.
pub open spec fn read_time(text: Option<String>) -> Option<i64> {
    match text {
        Some(text) => match rfc3339_micros(text@) {
            Some(at) => Some(at as i64),
            None => None,
        },
        None => None,
    }
}

/// A stored translation takes the place of what was there: once the command
/// of `set` has been carried out, the table holds under the key the row that
/// `set` built, whatever it held before, and every other row as it was.
pub proof fn lemma_set_replaces_row(table: Table, row: StoredRow)
    ensures
        table_after(StoreCommand::Upsert(row), table).contains_key(row.cache_key@),
        table_after(StoreCommand::Upsert(row), table)[row.cache_key@] == row.columns(),
        forall|other: Seq<char>|
            other != row.cache_key@ ==> (#[trigger] table_after(
                StoreCommand::Upsert(row),
                table,
            ).contains_key(other) <==> table.contains_key(other)),
        forall|other: Seq<char>|
            other != row.cache_key@ && table.contains_key(other) ==> #[trigger] table_after(
                StoreCommand::Upsert(row),
                table,
            )[other] == table[other],
{
}

/// The hits that `commands` add to the row of `key`.
pub open spec fn hits_added(commands: Seq<StoreCommand>, key: Seq<char>) -> int
    decreases commands.len(),
{
    if commands.len() == 0 {
        0
    } else {
        hits_added(commands.drop_last(), key) + match commands.last() {
            StoreCommand::AddHits { cache_key, count, .. } => if cache_key@ == key {
                count as int
            } else {
                0
            },
            _ => 0,
        }
    }
}

/// Whether each of `commands` adds hits.
pub open spec fn all_add_hits(commands: Seq<StoreCommand>) -> bool {
    forall|i: int| 0 <= i < commands.len() ==> (#[trigger] commands[i]) is AddHits
}

/// Commands that add hits leave the keys of the table as they are, and give
/// each row the hits they add to its key.
pub proof fn lemma_hits_land_on_rows(commands: Seq<StoreCommand>, table: Table, key: Seq<char>)
    requires
        all_add_hits(commands),
    ensures
        table_after_all(commands, table).dom() == table.dom(),
        table.contains_key(key) ==> table_after_all(commands, table)[key].hit_count
            == table[key].hit_count + hits_added(commands, key),
    decreases commands.len(),
{
    if commands.len() > 0 {
        let front = commands.drop_last();
        assert forall|i: int| 0 <= i < front.len() implies (#[trigger] front[i]) is AddHits by {
            assert(front[i] == commands[i]);
        }
        lemma_hits_land_on_rows(front, table, key);
        let before = table_after_all(front, table);
        assert(commands.last() == commands[commands.len() - 1]);
        assert(table_after(commands.last(), before).dom() =~= before.dom());
    }
}

/// Among commands with distinct keys, the hits added to a key are those of
/// the one command that names it.
pub proof fn lemma_hits_of_one_command(commands: Seq<StoreCommand>, key: Seq<char>, at: int)
    requires
        all_add_hits(commands),
        forall|i: int, j: int|
            0 <= i < j < commands.len() ==> command_key(#[trigger] commands[i]) != command_key(
                #[trigger] commands[j],
            ),
        0 <= at < commands.len(),
        command_key(commands[at]) == key,
    ensures
        commands[at] matches StoreCommand::AddHits { count, .. } && hits_added(commands, key)
            == count,
    decreases commands.len(),
{
    let front = commands.drop_last();
    assert forall|i: int| 0 <= i < front.len() implies (#[trigger] front[i]) is AddHits by {
        assert(front[i] == commands[i]);
    }
    assert forall|i: int, j: int| 0 <= i < j < front.len() implies command_key(
        #[trigger] front[i],
    ) != command_key(#[trigger] front[j]) by {
        assert(front[i] == commands[i] && front[j] == commands[j]);
    }
    assert(commands.last() == commands[commands.len() - 1]);
    if at == commands.len() - 1 {
        assert forall|i: int| 0 <= i < front.len() implies command_key(#[trigger] front[i])
            != key by {
            assert(front[i] == commands[i]);
        }
        lemma_no_hits_without_command(front, key);
    } else {
        assert(front[at] == commands[at]);
        lemma_hits_of_one_command(front, key, at);
        assert(command_key(commands[at]) != command_key(commands[commands.len() - 1]));
    }
}

/// Commands none of which names a key add no hits to it.
pub proof fn lemma_no_hits_without_command(commands: Seq<StoreCommand>, key: Seq<char>)
    requires
        all_add_hits(commands),
        forall|i: int| 0 <= i < commands.len() ==> command_key(#[trigger] commands[i]) != key,
    ensures
        hits_added(commands, key) == 0,
    decreases commands.len(),
{
    if commands.len() > 0 {
        let front = commands.drop_last();
        assert forall|i: int| 0 <= i < front.len() implies (#[trigger] front[i]) is AddHits by {
            assert(front[i] == commands[i]);
        }
        assert forall|i: int| 0 <= i < front.len() implies command_key(#[trigger] front[i])
            != key by {
            assert(front[i] == commands[i]);
        }
        lemma_no_hits_without_command(front, key);
        assert(commands.last() == commands[commands.len() - 1]);
    }
}

/// A flush writes every buffered hit to storage, once: carried out, its
/// commands leave the keys of the table as they are and raise the hit count
/// of each row by the hits that were buffered for its key.
pub proof fn lemma_flush_writes_buffered_hits(
    commands: Seq<StoreCommand>,
    pending: Map<Seq<char>, int>,
    written: Seq<char>,
    table: Table,
    key: Seq<char>,
)
    requires
        is_flush_of(commands, pending, written),
        table.contains_key(key),
    ensures
        table_after_all(commands, table).dom() == table.dom(),
        table_after_all(commands, table)[key].hit_count == table[key].hit_count + buffered(
            pending,
            key,
        ),
{
    lemma_hits_land_on_rows(commands, table, key);
    if pending.contains_key(key) {
        let at = choose|i: int| 0 <= i < commands.len() && command_key(#[trigger] commands[i]) == key;
        lemma_hits_of_one_command(commands, key, at);
    } else {
        assert forall|i: int| 0 <= i < commands.len() implies command_key(#[trigger] commands[i])
            != key by {
            if command_key(commands[i]) == key {
                assert(commands[i] is AddHits);
            }
        }
        lemma_no_hits_without_command(commands, key);
    }
}

/// The buffer after `n` hits of `key`.
pub open spec fn after_hits(pending: Map<Seq<char>, int>, key: Seq<char>, n: nat) -> Map<
    Seq<char>,
    int,
>
    decreases n,
{
    if n == 0 {
        pending
    } else {
        hit_added(after_hits(pending, key, (n - 1) as nat), key)
    }
}

/// `n` hits of a key raise its buffered count by `n`, as long as the count
/// stays within `i64`, and leave the counts of the other keys as they are.
pub proof fn lemma_hits_are_counted(pending: Map<Seq<char>, int>, key: Seq<char>, n: nat)
    requires
        0 <= buffered(pending, key),
        buffered(pending, key) + n <= i64::MAX,
    ensures
        buffered(after_hits(pending, key, n), key) == buffered(pending, key) + n,
        forall|other: Seq<char>|
            other != key ==> buffered(after_hits(pending, key, n), other) == buffered(
                pending,
                other,
            ),
        n > 0 ==> after_hits(pending, key, n).contains_key(key),
    decreases n,
{
    if n > 0 {
        lemma_hits_are_counted(pending, key, (n - 1) as nat);
    }
}

/// Hit accounting: `n` lookups that hit one key, then a flush, raise the
/// stored hit count of the key by exactly `n` and by what was buffered for
/// the key before, which is nothing after a flush. This holds as long as the
/// buffered count stays within `i64`.
pub proof fn lemma_hits_then_flush(
    table: Table,
    pending: Map<Seq<char>, int>,
    key: Seq<char>,
    n: nat,
    commands: Seq<StoreCommand>,
    written: Seq<char>,
)
    requires
        table.contains_key(key),
        0 <= buffered(pending, key),
        buffered(pending, key) + n <= i64::MAX,
        is_flush_of(commands, after_hits(pending, key, n), written),
    ensures
        table_after_all(commands, table)[key].hit_count == table[key].hit_count + buffered(
            pending,
            key,
        ) + n,
        !pending.contains_key(key) ==> table_after_all(commands, table)[key].hit_count
            == table[key].hit_count + n,
{
    lemma_hits_are_counted(pending, key, n);
    lemma_flush_writes_buffered_hits(commands, after_hits(pending, key, n), written, table, key);
}

/// Expiry: the command that a lookup returns for an expired row removes that
/// row and no other, so that the table holds exactly one row less.
pub proof fn lemma_expired_row_removed(table: Table, command: StoreCommand, key: Seq<char>)
    requires
        table.dom().finite(),
        table.contains_key(key),
        command matches StoreCommand::Delete { cache_key } && cache_key@ == key,
    ensures
        !table_after(command, table).contains_key(key),
        table_after(command, table).dom().len() == table.dom().len() - 1,
        forall|other: Seq<char>|
            other != key && table.contains_key(other) ==> #[trigger] table_after(
                command,
                table,
            ).contains_key(other) && table_after(command, table)[other] == table[other],
{
}

} // verus!
