use vstd::prelude::*;

use crate::frame::FrameRecord;
use indexmap::IndexMap;

verus! {

/// Running statistics for one frame-identity key: how often it has been seen,
/// when it was last seen, the gap between the two most recent occurrences
/// (both in microseconds since the session started), and the most recent
/// frame itself.
pub struct AggEntry {
    pub count: u64,
    pub last_seen_micros: u64,
    pub interval_micros: u64,
    pub last_frame: FrameRecord,
}

#[verifier::external_type_specification]
#[verifier::external_body]
#[verifier::reject_recursive_types(K)]
#[verifier::reject_recursive_types(V)]
#[verifier::reject_recursive_types(S)]
pub struct ExIndexMap<K, V, S>(IndexMap<K, V, S>);

/// The key-value pairs that the index map holds, in its current order.
pub uninterp spec fn map_entries(m: IndexMap<(u32, usize), AggEntry>) -> Seq<
    ((u32, usize), AggEntry),
>;

/// One more than the counter, except at the integer limit, where the counter
/// stays put instead of wrapping.
pub open spec fn sat_inc64(c: u64) -> u64 {
    if c < u64::MAX {
        (c + 1) as u64
    } else {
        c
    }
}

/// The difference `a - b`, or zero when `b` exceeds `a`.
pub open spec fn sat_sub64(a: u64, b: u64) -> u64 {
    if a >= b {
        (a - b) as u64
    } else {
        0
    }
}

/// The position of the first pair carrying the key `k`, or `-1` when no pair
/// carries it.
pub open spec fn find_key(s: Seq<((u32, usize), AggEntry)>, k: (u32, usize)) -> int
    decreases s.len(),
{
    if s.len() == 0 {
        -1
    } else if s[0].0 == k {
        0
    } else {
        let r = find_key(s.subrange(1, s.len() as int), k);
        if r == -1 {
            -1
        } else {
            r + 1
        }
    }
}

pub proof fn lemma_find_key(s: Seq<((u32, usize), AggEntry)>, k: (u32, usize))
    ensures
        -1 <= find_key(s, k) < s.len(),
        find_key(s, k) == -1 ==> forall|i: int| 0 <= i < s.len() ==> s[i].0 != k,
        find_key(s, k) >= 0 ==> s[find_key(s, k)].0 == k,
        find_key(s, k) >= 0 ==> forall|i: int| 0 <= i < find_key(s, k) ==> s[i].0 != k,
    decreases s.len(),
{
    if s.len() > 0 && s[0].0 != k {
        lemma_find_key(s.subrange(1, s.len() as int), k);
        assert(forall|i: int|
            1 <= i < s.len() ==> s[i] == s.subrange(1, s.len() as int)[i - 1]);
    }
}

/// The aggregate state after one more frame: a fresh entry for a new key,
/// appended last; for a key already present, the entry in place gets its
/// counter stepped, its timing refreshed, and the frame replaced.
pub open spec fn spec_record(
    s: Seq<((u32, usize), AggEntry)>,
    f: FrameRecord,
    now_micros: u64,
) -> Seq<((u32, usize), AggEntry)> {
    let k = f.spec_key();
    let i = find_key(s, k);
    if i == -1 {
        s.push(
            (
                k,
                AggEntry {
                    count: 1,
                    last_seen_micros: now_micros,
                    interval_micros: 0,
                    last_frame: f,
                },
            ),
        )
    } else {
        let e = s[i].1;
        s.update(
            i,
            (
                k,
                AggEntry {
                    count: sat_inc64(e.count),
                    last_seen_micros: now_micros,
                    interval_micros: sat_sub64(now_micros, e.last_seen_micros),
                    last_frame: f,
                },
            ),
        )
    }
}

/// A pair placed into a sequence that is ordered by the raw identifier word,
/// after every pair whose identifier is less than or equal to its own: the
/// insertion step of a stable insertion sort.
pub open spec fn insert_by_id(
    s: Seq<((u32, usize), AggEntry)>,
    x: ((u32, usize), AggEntry),
) -> Seq<((u32, usize), AggEntry)>
    decreases s.len(),
{
    if s.len() == 0 {
        seq![x]
    } else if s.last().0.0 <= x.0.0 {
        s.push(x)
    } else {
        insert_by_id(s.drop_last(), x).push(s.last())
    }
}

/// A stable sort of the pairs, ascending by the raw identifier word; pairs
/// with equal identifiers keep their relative order.
pub open spec fn sort_by_id(s: Seq<((u32, usize), AggEntry)>) -> Seq<((u32, usize), AggEntry)>
    decreases s.len(),
{
    if s.len() == 0 {
        Seq::empty()
    } else {
        insert_by_id(sort_by_id(s.drop_last()), s.last())
    }
}

/// Relies on indexmap::IndexMap::new: it returns an empty map.
#[verifier::external_body]
fn im_new() -> (m: IndexMap<(u32, usize), AggEntry>)
    ensures
        map_entries(m) == Seq::<((u32, usize), AggEntry)>::empty(),
{
    IndexMap::new()
}

/// Relies on indexmap::IndexMap::len: it returns the number of pairs held.
#[verifier::external_body]
fn im_len(m: &IndexMap<(u32, usize), AggEntry>) -> (n: usize)
    ensures
        n == map_entries(*m).len(),
{
    m.len()
}

/// Relies on indexmap::IndexMap::get: it returns the value stored for the
/// key when the key is present, and nothing otherwise.
#[verifier::external_body]
fn im_get<'a>(m: &'a IndexMap<(u32, usize), AggEntry>, k: &(u32, usize)) -> (r: Option<
    &'a AggEntry,
>)
    ensures
        match r {
            Some(e) => find_key(map_entries(*m), *k) >= 0 && *e == map_entries(*m)[find_key(
                map_entries(*m),
                *k,
            )].1,
            None => find_key(map_entries(*m), *k) == -1,
        },
{
    m.get(k)
}

/// Relies on indexmap::IndexMap::insert: a key already present keeps its
/// place in the order and gets the new value; a new key is appended last.
#[verifier::external_body]
fn im_insert(m: &mut IndexMap<(u32, usize), AggEntry>, k: (u32, usize), v: AggEntry)
    ensures
        map_entries(*final(m)) == ({
            let s = map_entries(*old(m));
            let i = find_key(s, k);
            if i == -1 {
                s.push((k, v))
            } else {
                s.update(i, (k, v))
            }
        }),
{
    m.insert(k, v);
}

/// Relies on indexmap::IndexMap::clear: it removes every pair.
#[verifier::external_body]
fn im_clear(m: &mut IndexMap<(u32, usize), AggEntry>)
    ensures
        map_entries(*final(m)) == Seq::<((u32, usize), AggEntry)>::empty(),
{
    m.clear();
}

/// Relies on indexmap::IndexMap::get_index: it returns the pair at the given
/// position in the current order when the position is in range.
#[verifier::external_body]
fn im_get_index<'a>(m: &'a IndexMap<(u32, usize), AggEntry>, i: usize) -> (r: Option<
    (&'a (u32, usize), &'a AggEntry),
>)
    ensures
        match r {
            Some(p) => i < map_entries(*m).len() && *p.0 == map_entries(*m)[i as int].0 && *p.1
                == map_entries(*m)[i as int].1,
            None => i >= map_entries(*m).len(),
        },
{
    m.get_index(i)
}

/// Relies on indexmap::IndexMap::sort_by_key: it reorders the pairs in place
/// by the extracted sort key — here the raw identifier word — with a stable
/// sort. A stable ascending sort is pinned down uniquely by its input, and
/// `sort_by_id` is one (`lemma_sort_by_id_sorted` and `lemma_sort_by_id_stable`
/// prove it ascending and stable), so the contract equates the two.
#[verifier::external_body]
fn im_sort_by_id(m: &mut IndexMap<(u32, usize), AggEntry>)
    ensures
        map_entries(*final(m)) == sort_by_id(map_entries(*old(m))),
{
    m.sort_by_key(|k: &(u32, usize), _v: &AggEntry| k.0);
}

/// The aggregation table: one entry per distinct frame-identity key, held in
/// insertion order until an explicit re-sort by identifier.
pub struct AggTable {
    map: IndexMap<(u32, usize), AggEntry>,
}

impl View for AggTable {
    type V = Seq<((u32, usize), AggEntry)>;

    closed spec fn view(&self) -> Seq<((u32, usize), AggEntry)> {
        map_entries(self.map)
    }
}

impl AggTable {
    pub fn new() -> (t: AggTable)
        ensures
            t@ == Seq::<((u32, usize), AggEntry)>::empty(),
    {
        AggTable { map: im_new() }
    }

    pub fn len(&self) -> (n: usize)
        ensures
            n == self@.len(),
    {
        im_len(&self.map)
    }

    /// Fold one just-received frame into the table: a first occurrence of a
    /// key starts a fresh entry with a count of one and a zero interval; a
    /// repeated key steps its counter, takes the gap since the previous
    /// occurrence as the new interval, and keeps the newest frame.
    pub fn record(&mut self, frame: FrameRecord, now_micros: u64)
        ensures
            final(self)@ == spec_record(old(self)@, frame, now_micros),
    {
        let k = frame.key();
        let (count, interval): (u64, u64) = match im_get(&self.map, &k) {
            Some(e) => {
                let c: u64 = if e.count < u64::MAX {
                    e.count + 1
                } else {
                    e.count
                };
                let dt: u64 = if now_micros >= e.last_seen_micros {
                    now_micros - e.last_seen_micros
                } else {
                    0
                };
                (c, dt)
            },
            None => (1u64, 0u64),
        };
        im_insert(
            &mut self.map,
            k,
            AggEntry { count, last_seen_micros: now_micros, interval_micros: interval, last_frame: frame },
        );
    }

    /// Drop every entry; the table is as it was at startup.
    pub fn clear(&mut self)
        ensures
            final(self)@ == Seq::<((u32, usize), AggEntry)>::empty(),
    {
        im_clear(&mut self.map);
    }

    /// Re-sort the entries in place, ascending by the raw identifier word
    /// (which embeds the addressing-mode flag bits), stably.
    pub fn sort_by_identifier(&mut self)
        ensures
            final(self)@ == sort_by_id(old(self)@),
    {
        im_sort_by_id(&mut self.map);
    }

    pub fn entry_at(&self, i: usize) -> (e: &AggEntry)
        requires
            i < self@.len(),
        ensures
            *e == self@[i as int].1,
    {
        match im_get_index(&self.map, i) {
            Some(p) => p.1,
            None => vstd::pervasive::unreached(),
        }
    }

    pub fn key_at(&self, i: usize) -> (k: (u32, usize))
        requires
            i < self@.len(),
        ensures
            k == self@[i as int].0,
    {
        match im_get_index(&self.map, i) {
            Some(p) => *p.0,
            None => vstd::pervasive::unreached(),
        }
    }

    /// Look one key up: the entry for it, if one exists.
    pub fn lookup(&self, identifier: u32, length: usize) -> (r: Option<&AggEntry>)
        ensures
            match r {
                Some(e) => find_key(self@, (identifier, length)) >= 0 && *e == self@[find_key(
                    self@,
                    (identifier, length),
                )].1,
                None => find_key(self@, (identifier, length)) == -1,
            },
    {
        im_get(&self.map, &(identifier, length))
    }
}

} // verus!
