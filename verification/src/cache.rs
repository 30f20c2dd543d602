//! The tile cache model: a key-value store with per-entry TTL, sliding
//! expiration on reads, companion ETag entries, and wildcard-pattern
//! invalidation.
//!
//! The cache's behaviour is specified over a map from keys to entries.  A
//! deployment backs this component with a remote key-value store; reads
//! there degrade to misses and writes are best-effort, while invalidation
//! failures propagate, as `degrade_read_to_miss` and `swallow_write_error`
//! encode.

use vstd::prelude::*;
use vstd::string::StringExecFns;
use crate::errors::TileServiceError;
use crate::strutil::{has_prefix, spec_parse_u64, parse_u64_dec, str_eq, str_has_prefix};
use crate::wkt::{spec_split, split_char};
use crate::tile::TileResponse;

verus! {

/// One cached entry: payload, its content type and ETag, and its lifetime.
pub struct CacheEntry {
    pub key: String,
    pub data: Vec<u8>,
    pub content_type: String,
    pub etag: String,
    pub ttl: u64,
    pub expires_at: u64,
}

/// The mathematical value of one cached entry.
pub ghost struct EntryView {
    pub data: Seq<u8>,
    pub content_type: Seq<char>,
    pub etag: Seq<char>,
    pub ttl: nat,
    pub expires_at: nat,
}

pub open spec fn entry_view(e: CacheEntry) -> EntryView {
    EntryView {
        data: e.data@,
        content_type: e.content_type@,
        etag: e.etag@,
        ttl: e.ttl as nat,
        expires_at: e.expires_at as nat,
    }
}

/// Addition that stops at the largest representable instant.
pub open spec fn spec_sat_add(a: u64, b: u64) -> u64 {
    if a + b > u64::MAX {
        u64::MAX
    } else {
        (a + b) as u64
    }
}

fn sat_add(a: u64, b: u64) -> (r: u64)
    ensures
        r == spec_sat_add(a, b),
{
    if b > u64::MAX - a {
        u64::MAX
    } else {
        a + b
    }
}

/// An entry that can still be served at `now`.
pub open spec fn spec_live(m: Map<Seq<char>, EntryView>, k: Seq<char>, now: u64) -> bool {
    m.contains_key(k) && (now as nat) < m[k].expires_at
}

/// The map after storing an entry at `now` with a lifetime of `ttl`.
pub open spec fn spec_set(
    m: Map<Seq<char>, EntryView>,
    k: Seq<char>,
    data: Seq<u8>,
    content_type: Seq<char>,
    etag: Seq<char>,
    ttl: u64,
    now: u64,
) -> Map<Seq<char>, EntryView> {
    m.insert(
        k,
        EntryView {
            data,
            content_type,
            etag,
            ttl: ttl as nat,
            expires_at: spec_sat_add(now, ttl) as nat,
        },
    )
}

/// What a read at `now` returns: the payload of a live entry, else a miss.
pub open spec fn spec_get_result(m: Map<Seq<char>, EntryView>, k: Seq<char>, now: u64) -> Option<
    Seq<u8>,
> {
    if spec_live(m, k, now) {
        Some(m[k].data)
    } else {
        None
    }
}

/// A key matches a pattern when the pattern ends in `*` and the rest is a
/// prefix of the key, or the pattern has no `*` and equals the key.
pub open spec fn spec_matches_pattern(k: Seq<char>, pat: Seq<char>) -> bool {
    if pat.len() > 0 && pat.last() == '*' {
        has_prefix(k, pat.drop_last())
    } else {
        k == pat
    }
}

/// The keys a pattern matches.
pub open spec fn pattern_key_set(pat: Seq<char>) -> Set<Seq<char>> {
    Set::new(|k: Seq<char>| spec_matches_pattern(k, pat))
}

/// Whether a key string matches a pattern string.
pub fn matches_pattern(s: &str, pat: &str) -> (r: bool)
    ensures
        r == spec_matches_pattern(s@, pat@),
{
    let np = pat.unicode_len();
    if np == 0 {
        return str_eq(s, pat);
    }
    if pat.get_char(np - 1) != '*' {
        return str_eq(s, pat);
    }
    let ns = s.unicode_len();
    if np - 1 > ns {
        return false;
    }
    let mut i: usize = 0;
    while i < np - 1
        invariant
            np == pat@.len(),
            ns == s@.len(),
            np >= 1,
            np - 1 <= ns,
            i <= np - 1,
            forall|j: int| 0 <= j < i ==> s@[j] == pat@[j],
        decreases np - 1 - i,
    {
        if s.get_char(i) != pat.get_char(i) {
            proof {
                assert(s@.subrange(0, pat@.drop_last().len() as int)[i as int] != pat@.drop_last()[
                i as int]);
            }
            return false;
        }
        i = i + 1;
    }
    proof {
        assert(s@.subrange(0, pat@.drop_last().len() as int) =~= pat@.drop_last());
    }
    true
}

/// No two entries share a key.
pub open spec fn unique_keys(s: Seq<CacheEntry>) -> bool {
    forall|i: int, j: int| 0 <= i < j < s.len() ==> s[i].key@ != s[j].key@
}

/// The map an entry list denotes.
pub open spec fn map_of(s: Seq<CacheEntry>) -> Map<Seq<char>, EntryView>
    decreases s.len(),
{
    if s.len() == 0 {
        Map::empty()
    } else {
        map_of(s.drop_last()).insert(s.last().key@, entry_view(s.last()))
    }
}

proof fn lemma_map_of_index(s: Seq<CacheEntry>, i: int)
    requires
        0 <= i < s.len(),
    ensures
        map_of(s).contains_key(s[i].key@),
        unique_keys(s) ==> map_of(s)[s[i].key@] == entry_view(s[i]),
    decreases s.len(),
{
    if i == s.len() - 1 {
    } else {
        lemma_map_of_index(s.drop_last(), i);
    }
}

proof fn lemma_map_of_absent(s: Seq<CacheEntry>, k: Seq<char>)
    requires
        forall|i: int| 0 <= i < s.len() ==> s[i].key@ != k,
    ensures
        !map_of(s).contains_key(k),
    decreases s.len(),
{
    if s.len() > 0 {
        lemma_map_of_absent(s.drop_last(), k);
    }
}

proof fn lemma_map_of_update(s: Seq<CacheEntry>, i: int, e: CacheEntry)
    requires
        unique_keys(s),
        0 <= i < s.len(),
        e.key@ == s[i].key@,
    ensures
        map_of(s.update(i, e)) =~= map_of(s).insert(e.key@, entry_view(e)),
    decreases s.len(),
{
    if i == s.len() - 1 {
        assert(s.update(i, e).drop_last() =~= s.drop_last());
        assert(s.update(i, e).last() == e);
    } else {
        assert(s.update(i, e).drop_last() =~= s.drop_last().update(i, e));
        lemma_map_of_update(s.drop_last(), i, e);
        assert(s.update(i, e).last() == s.last());
    }
}

/// Copies a byte vector.
pub fn clone_bytes(v: &Vec<u8>) -> (r: Vec<u8>)
    ensures
        r@ == v@,
{
    let mut out: Vec<u8> = Vec::new();
    let mut i: usize = 0;
    let n = v.len();
    while i < n
        invariant
            n == v@.len(),
            i <= n,
            out@ == v@.take(i as int),
        decreases n - i,
    {
        out.push(v[i]);
        proof {
            assert(out@ =~= v@.take(i as int + 1));
        }
        i = i + 1;
    }
    proof {
        assert(v@.take(n as int) =~= v@);
    }
    out
}

/// The tiered cache's fast layer, modelled as an in-process store.  Time is
/// passed in explicitly: every operation takes the caller's clock reading.
pub struct TileCache {
    pub entries: Vec<CacheEntry>,
    pub default_ttl: u64,
}

impl View for TileCache {
    type V = Map<Seq<char>, EntryView>;

    open spec fn view(&self) -> Map<Seq<char>, EntryView> {
        map_of(self.entries@)
    }
}

impl TileCache {
    pub open spec fn wf(self) -> bool {
        unique_keys(self.entries@)
    }

    pub fn new(default_ttl: u64) -> (r: TileCache)
        ensures
            r.wf(),
            r@ == Map::<Seq<char>, EntryView>::empty(),
            r.default_ttl == default_ttl,
    {
        let r = TileCache { entries: Vec::new(), default_ttl };
        proof {
            assert(r.entries@.len() == 0);
        }
        r
    }

    fn find_index(&self, key: &str) -> (r: Option<usize>)
        ensures
            r matches Some(i) ==> i < self.entries@.len() && self.entries@[i as int].key@ == key@,
            r is None ==> forall|i: int|
                0 <= i < self.entries@.len() ==> self.entries@[i].key@ != key@,
    {
        let mut i: usize = 0;
        let n = self.entries.len();
        while i < n
            invariant
                n == self.entries@.len(),
                i <= n,
                forall|j: int| 0 <= j < i ==> self.entries@[j].key@ != key@,
            decreases n - i,
        {
            if str_eq(self.entries[i].key.as_str(), key) {
                return Some(i);
            }
            i = i + 1;
        }
        None
    }

    /// Stores an entry under a key, replacing any entry already there.  The
    /// entry expires `ttl` seconds after `now` and carries the given content
    /// type and ETag.
    pub fn set_entry(
        &mut self,
        key: &str,
        data: Vec<u8>,
        content_type: String,
        etag: String,
        ttl: u64,
        now: u64,
    )
        requires
            old(self).wf(),
        ensures
            final(self).wf(),
            final(self).default_ttl == old(self).default_ttl,
            final(self)@ == spec_set(old(self)@, key@, data@, content_type@, etag@, ttl, now),
    {
        let expires_at = sat_add(now, ttl);
        let e = CacheEntry {
            key: String::from_str(key),
            data,
            content_type,
            etag,
            ttl,
            expires_at,
        };
        let ghost ev = entry_view(e);
        match self.find_index(key) {
            Some(i) => {
                proof {
                    lemma_map_of_update(self.entries@, i as int, e);
                }
                self.entries.remove(i);
                self.entries.insert(i, e);
                proof {
                    assert(self.entries@ =~= old(self).entries@.update(i as int, e));
                    assert forall|a: int, b: int|
                        0 <= a < b < self.entries@.len() implies self.entries@[a].key@
                        != self.entries@[b].key@ by {
                        assert(old(self).entries@[a].key@ != old(self).entries@[b].key@);
                    }
                }
            },
            None => {
                proof {
                    lemma_map_of_absent(self.entries@, key@);
                }
                self.entries.push(e);
                proof {
                    assert(self.entries@.drop_last() =~= old(self).entries@);
                    assert forall|a: int, b: int|
                        0 <= a < b < self.entries@.len() implies self.entries@[a].key@
                        != self.entries@[b].key@ by {
                        if b < self.entries@.len() - 1 {
                            assert(old(self).entries@[a].key@ != old(self).entries@[b].key@);
                        } else {
                            assert(old(self).entries@[a].key@ != key@);
                        }
                    }
                }
            },
        }
    }

    /// Serves a raw payload and refreshes its lifetime: a hit at `now` makes
    /// the entry expire `ttl` seconds after `now` again (sliding
    /// expiration).  An absent or expired entry is a miss and changes
    /// nothing.
    pub fn get(&mut self, key: &str, now: u64) -> (r: Option<Vec<u8>>)
        requires
            old(self).wf(),
        ensures
            final(self).wf(),
            final(self).default_ttl == old(self).default_ttl,
            r matches Some(v) ==> spec_get_result(old(self)@, key@, now) == Some(v@),
            r is None <==> spec_get_result(old(self)@, key@, now) is None,
            spec_live(old(self)@, key@, now) ==> final(self)@ == old(self)@.insert(
                key@,
                EntryView {
                    expires_at: spec_sat_add(now, old(self)@[key@].ttl as u64) as nat,
                    ..old(self)@[key@]
                },
            ),
            !spec_live(old(self)@, key@, now) ==> final(self)@ == old(self)@,
    {
        match self.find_index(key) {
            Some(i) => {
                proof {
                    lemma_map_of_index(self.entries@, i as int);
                }
                let live = now < self.entries[i].expires_at;
                if !live {
                    return None;
                }
                let e = &self.entries[i];
                let data = clone_bytes(&e.data);
                let refreshed = CacheEntry {
                    key: e.key.clone(),
                    data: clone_bytes(&e.data),
                    content_type: e.content_type.clone(),
                    etag: e.etag.clone(),
                    ttl: e.ttl,
                    expires_at: sat_add(now, e.ttl),
                };
                proof {
                    lemma_map_of_update(self.entries@, i as int, refreshed);
                }
                self.entries.remove(i);
                self.entries.insert(i, refreshed);
                proof {
                    assert(self.entries@ =~= old(self).entries@.update(i as int, refreshed));
                    assert forall|a: int, b: int|
                        0 <= a < b < self.entries@.len() implies self.entries@[a].key@
                        != self.entries@[b].key@ by {
                        assert(old(self).entries@[a].key@ != old(self).entries@[b].key@);
                    }
                    assert(final(self)@ =~= old(self)@.insert(
                        key@,
                        EntryView {
                            expires_at: spec_sat_add(now, old(self)@[key@].ttl as u64) as nat,
                            ..old(self)@[key@]
                        },
                    ));
                }
                Some(data)
            },
            None => {
                proof {
                    lemma_map_of_absent(self.entries@, key@);
                }
                None
            },
        }
    }

    /// Serves a cached tile and refreshes its lifetime, rebuilding the
    /// response around the requested key.
    pub fn get_tile(&mut self, cache_key: &str, now: u64) -> (r: Option<TileResponse>)
        requires
            old(self).wf(),
        ensures
            final(self).wf(),
            final(self).default_ttl == old(self).default_ttl,
            r matches Some(t) ==> spec_live(old(self)@, cache_key@, now) && t.data@ == old(
                self,
            )@[cache_key@].data && t.content_type@ == old(self)@[cache_key@].content_type
                && t.etag@ == old(self)@[cache_key@].etag && t.cache_key@ == cache_key@,
            r is None <==> !spec_live(old(self)@, cache_key@, now),
            spec_live(old(self)@, cache_key@, now) ==> final(self)@ == old(self)@.insert(
                cache_key@,
                EntryView {
                    expires_at: spec_sat_add(now, old(self)@[cache_key@].ttl as u64) as nat,
                    ..old(self)@[cache_key@]
                },
            ),
            !spec_live(old(self)@, cache_key@, now) ==> final(self)@ == old(self)@,
    {
        match self.find_index(cache_key) {
            Some(i) => {
                proof {
                    lemma_map_of_index(self.entries@, i as int);
                }
                let live = now < self.entries[i].expires_at;
                if !live {
                    return None;
                }
                let e = &self.entries[i];
                let response = TileResponse {
                    data: clone_bytes(&e.data),
                    content_type: e.content_type.clone(),
                    cache_key: String::from_str(cache_key),
                    etag: e.etag.clone(),
                };
                let refreshed = CacheEntry {
                    key: e.key.clone(),
                    data: clone_bytes(&e.data),
                    content_type: e.content_type.clone(),
                    etag: e.etag.clone(),
                    ttl: e.ttl,
                    expires_at: sat_add(now, e.ttl),
                };
                proof {
                    lemma_map_of_update(self.entries@, i as int, refreshed);
                }
                self.entries.remove(i);
                self.entries.insert(i, refreshed);
                proof {
                    assert(self.entries@ =~= old(self).entries@.update(i as int, refreshed));
                    assert forall|a: int, b: int|
                        0 <= a < b < self.entries@.len() implies self.entries@[a].key@
                        != self.entries@[b].key@ by {
                        assert(old(self).entries@[a].key@ != old(self).entries@[b].key@);
                    }
                    assert(final(self)@ =~= old(self)@.insert(
                        cache_key@,
                        EntryView {
                            expires_at: spec_sat_add(now, old(self)@[cache_key@].ttl as u64) as nat,
                            ..old(self)@[cache_key@]
                        },
                    ));
                }
                Some(response)
            },
            None => {
                proof {
                    lemma_map_of_absent(self.entries@, cache_key@);
                }
                None
            },
        }
    }

    /// Looks up a live entry's ETag without refreshing it; an absent or
    /// expired entry reports `NotFound`, distinct from a payload miss.
    pub fn get_etag_entry(&self, key: &str, now: u64) -> (r: Result<String, TileServiceError>)
        requires
            self.wf(),
        ensures
            r matches Ok(s) ==> spec_live(self@, key@, now) && s@ == self@[key@].etag,
            r is Err <==> !spec_live(self@, key@, now),
            r matches Err(e) ==> e matches TileServiceError::NotFound(_),
    {
        match self.find_index(key) {
            Some(i) => {
                proof {
                    lemma_map_of_index(self.entries@, i as int);
                }
                if now < self.entries[i].expires_at {
                    Ok(self.entries[i].etag.clone())
                } else {
                    Err(TileServiceError::NotFound(String::from_str(key)))
                }
            },
            None => {
                proof {
                    lemma_map_of_absent(self.entries@, key@);
                }
                Err(TileServiceError::NotFound(String::from_str(key)))
            },
        }
    }

    /// Removes every entry whose key matches the pattern and no other;
    /// a pattern ending in `*` removes every key that starts with the rest.
    pub fn invalidate_pattern(&mut self, pattern: &str)
        requires
            old(self).wf(),
        ensures
            final(self).wf(),
            final(self).default_ttl == old(self).default_ttl,
            final(self)@ == old(self)@.remove_keys(pattern_key_set(pattern@)),
    {
        let ghost src = self.entries@;
        let ghost matched = pattern_key_set(pattern@);
        let mut kept: Vec<CacheEntry> = Vec::new();
        let mut j: usize = 0;
        let n = self.entries.len();
        proof {
            assert(src.take(0) =~= Seq::<CacheEntry>::empty());
            assert(map_of(src.take(0)).remove_keys(matched) =~= Map::<Seq<char>,
                EntryView>::empty());
        }
        while j < n
            invariant
                unique_keys(src),
                n == src.len(),
                self.entries@ == src,
                matched == pattern_key_set(pattern@),
                j <= n,
                unique_keys(kept@),
                forall|a: int|
                    0 <= a < kept@.len() ==> exists|i: int|
                        0 <= i < j && (#[trigger] kept@[a].key@) == src[i].key@,
                map_of(kept@) == map_of(src.take(j as int)).remove_keys(matched),
            decreases n - j,
        {
            let e = &self.entries[j];
            let ghost prefix_map = map_of(src.take(j as int));
            proof {
                assert(src.take(j as int + 1).drop_last() =~= src.take(j as int));
                assert(src.take(j as int + 1).last() == src[j as int]);
            }
            if !matches_pattern(e.key.as_str(), pattern) {
                let copy = CacheEntry {
                    key: e.key.clone(),
                    data: clone_bytes(&e.data),
                    content_type: e.content_type.clone(),
                    etag: e.etag.clone(),
                    ttl: e.ttl,
                    expires_at: e.expires_at,
                };
                proof {
                    assert forall|a: int|
                        0 <= a < kept@.len() implies kept@[a].key@ != copy.key@ by {
                        let i = choose|i: int|
                            0 <= i < j && (#[trigger] kept@[a].key@) == src[i].key@;
                        assert(src[i].key@ != src[j as int].key@);
                    }
                }
                let ghost pre_kept = kept@;
                kept.push(copy);
                proof {
                    assert(kept@.drop_last() =~= pre_kept);
                    assert(kept@.last() == copy);
                    assert(map_of(kept@) == map_of(kept@.drop_last()).insert(
                        copy.key@,
                        entry_view(copy),
                    ));
                    assert(map_of(kept@) =~= map_of(src.take(j as int + 1)).remove_keys(matched));
                }
            } else {
                proof {
                    assert(map_of(src.take(j as int + 1)).remove_keys(matched) =~= prefix_map
                        .remove_keys(matched));
                }
            }
            j = j + 1;
        }
        proof {
            assert(src.take(n as int) =~= src);
        }
        self.entries = kept;
    }


    /// Drops every cached tile of one parent map, in both the payload and
    /// the ETag namespaces: everything under `tile:{game}:` and
    /// `etag:tile:{game}:` goes, and nothing else.
    pub fn invalidate_game_tiles(&mut self, game_id: &str)
        requires
            old(self).wf(),
        ensures
            final(self).wf(),
            final(self).default_ttl == old(self).default_ttl,
            final(self)@ == old(self)@.remove_keys(
                pattern_key_set("tile:"@ + game_id@ + ":*"@),
            ).remove_keys(pattern_key_set("etag:tile:"@ + game_id@ + ":*"@)),
    {
        let mut pattern = String::from_str("tile:");
        pattern.append(game_id);
        pattern.append(":*");
        proof {
            assert(pattern@ =~= "tile:"@ + game_id@ + ":*"@);
        }
        self.invalidate_pattern(pattern.as_str());
        let mut etag_pattern = String::from_str("etag:tile:");
        etag_pattern.append(game_id);
        etag_pattern.append(":*");
        proof {
            assert(etag_pattern@ =~= "etag:tile:"@ + game_id@ + ":*"@);
        }
        self.invalidate_pattern(etag_pattern.as_str());
    }
    /// How many entries the cache holds, live or not.
    pub fn len(&self) -> (r: usize)
        ensures
            r == self.entries@.len(),
    {
        self.entries.len()
    }
}



/// The companion key carrying a cached tile's ETag: `etag:{key}`.
pub open spec fn spec_etag_key(k: Seq<char>) -> Seq<char> {
    "etag:"@ + k
}

impl TileCache {
    /// Stores a produced tile under its cache key together with a
    /// companion ETag entry at `etag:{key}`, both with the same lifetime.
    pub fn set_tile(&mut self, cache_key: &str, tile: &TileResponse, ttl: u64, now: u64)
        requires
            old(self).wf(),
        ensures
            final(self).wf(),
            final(self).default_ttl == old(self).default_ttl,
            final(self)@ == spec_set(
                spec_set(
                    old(self)@,
                    cache_key@,
                    tile.data@,
                    tile.content_type@,
                    tile.etag@,
                    ttl,
                    now,
                ),
                spec_etag_key(cache_key@),
                Seq::<u8>::empty(),
                Seq::<char>::empty(),
                tile.etag@,
                ttl,
                now,
            ),
    {
        self.set_entry(
            cache_key,
            clone_bytes(&tile.data),
            tile.content_type.clone(),
            tile.etag.clone(),
            ttl,
            now,
        );
        let mut ek = String::from_str("etag:");
        ek.append(cache_key);
        proof {
            assert(ek@ =~= spec_etag_key(cache_key@));
        }
        let empty_data: Vec<u8> = Vec::new();
        proof {
            assert(empty_data@ =~= Seq::<u8>::empty());
        }
        self.set_entry(ek.as_str(), empty_data, String::new(), tile.etag.clone(), ttl, now);
    }

    /// Looks up a tile's ETag through its companion entry; an absent or
    /// expired companion reports `NotFound`.
    pub fn get_etag(&self, cache_key: &str, now: u64) -> (r: Result<String, TileServiceError>)
        requires
            self.wf(),
        ensures
            r matches Ok(s) ==> spec_live(self@, spec_etag_key(cache_key@), now) && s@
                == self@[spec_etag_key(cache_key@)].etag,
            r is Err <==> !spec_live(self@, spec_etag_key(cache_key@), now),
            r matches Err(e) ==> e matches TileServiceError::NotFound(_),
    {
        let mut ek = String::from_str("etag:");
        ek.append(cache_key);
        proof {
            assert(ek@ =~= spec_etag_key(cache_key@));
        }
        self.get_etag_entry(ek.as_str(), now)
    }
}

/// Storing a blob and reading it back within its lifetime returns the very
/// same bytes, and reading it after the lifetime has passed is a miss.
pub proof fn lemma_cache_round_trip(
    m: Map<Seq<char>, EntryView>,
    k: Seq<char>,
    data: Seq<u8>,
    content_type: Seq<char>,
    etag: Seq<char>,
    ttl: u64,
    now: u64,
    now2: u64,
)
    requires
        now + ttl <= u64::MAX,
    ensures
        now2 < now + ttl ==> spec_get_result(
            spec_set(m, k, data, content_type, etag, ttl, now),
            k,
            now2,
        ) == Some(data),
        now2 >= now + ttl ==> spec_get_result(
            spec_set(m, k, data, content_type, etag, ttl, now),
            k,
            now2,
        ) is None,
{
}

/// Invalidating one parent map's tiles removes exactly the keys of its
/// payload and ETag namespaces: a key under `tile:{game}:` or
/// `etag:tile:{game}:` is gone, and any other key keeps its entry.
pub proof fn lemma_invalidate_scope(m: Map<Seq<char>, EntryView>, game_id: Seq<char>, k: Seq<char>)
    ensures
        ({
            let tile_prefix = "tile:"@ + game_id + ":"@;
            let etag_prefix = "etag:tile:"@ + game_id + ":"@;
            let after = m.remove_keys(pattern_key_set("tile:"@ + game_id + ":*"@)).remove_keys(
                pattern_key_set("etag:tile:"@ + game_id + ":*"@),
            );
            &&& has_prefix(k, tile_prefix) ==> !after.contains_key(k)
            &&& has_prefix(k, etag_prefix) ==> !after.contains_key(k)
            &&& (!has_prefix(k, tile_prefix) && !has_prefix(k, etag_prefix)) ==> (
            after.contains_key(k) <==> m.contains_key(k)) && (m.contains_key(k)
                ==> after[k] == m[k])
        }),
{
    reveal_strlit("tile:");
    reveal_strlit("etag:tile:");
    reveal_strlit(":*");
    reveal_strlit(":");
    reveal_strlit("*");
    let tile_prefix = "tile:"@ + game_id + ":"@;
    let etag_prefix = "etag:tile:"@ + game_id + ":"@;
    let tile_pattern = "tile:"@ + game_id + ":*"@;
    let etag_pattern = "etag:tile:"@ + game_id + ":*"@;
    assert(tile_pattern.len() > 0 && tile_pattern.last() == '*');
    assert(etag_pattern.len() > 0 && etag_pattern.last() == '*');
    assert(tile_pattern.drop_last() =~= tile_prefix);
    assert(etag_pattern.drop_last() =~= etag_prefix);
}


/// Counters reported by a cache backend's introspection text.
#[derive(Clone, Copy, Debug, PartialEq, Eq, Structural)]
pub struct CacheStats {
    pub used_memory: u64,
    pub total_keys: u64,
}

/// The value carried by one introspection line: the decimal after the
/// first colon, if the line has one.
pub open spec fn spec_info_line_value(line: Seq<char>) -> Option<u64> {
    let fields = spec_split(line, ':');
    if fields.len() >= 2 {
        spec_parse_u64(fields[1])
    } else {
        None
    }
}

/// The value of the first line starting with the key, if any line does.
pub open spec fn spec_scan_info_lines(lines: Seq<Seq<char>>, key: Seq<char>) -> Option<u64>
    decreases lines.len(),
{
    if lines.len() == 0 {
        None
    } else if has_prefix(lines[0], key) {
        spec_info_line_value(lines[0])
    } else {
        spec_scan_info_lines(lines.drop_first(), key)
    }
}

/// What one counter in a backend's introspection text reads: the decimal
/// after the first colon of the first line that starts with the key.
pub open spec fn spec_parse_info(info: Seq<char>, key: Seq<char>) -> Option<u64> {
    spec_scan_info_lines(spec_split(info, '\n'), key)
}

/// Reads one counter out of a cache backend's line-oriented introspection
/// text.
pub fn parse_redis_info(info: &str, key: &str) -> (r: Option<u64>)
    ensures
        r == spec_parse_info(info@, key@),
{
    let lines = split_char(info, '\n');
    let ghost glines = spec_split(info@, '\n');
    let n = lines.len();
    let mut i: usize = 0;
    proof {
        assert(glines.skip(0) =~= glines);
    }
    while i < n
        invariant
            n == lines@.len(),
            n == glines.len(),
            forall|k: int| 0 <= k < n ==> (#[trigger] lines@[k])@ == glines[k],
            i <= n,
            spec_parse_info(info@, key@) == spec_scan_info_lines(glines.skip(i as int), key@),
        decreases n - i,
    {
        proof {
            assert(glines.skip(i as int)[0] == glines[i as int]);
            assert(glines.skip(i as int).drop_first() =~= glines.skip(i as int + 1));
        }
        if str_has_prefix(lines[i].as_str(), key) {
            let fields = split_char(lines[i].as_str(), ':');
            proof {
                assert(fields@.map_values(|p: String| p@) =~= spec_split(glines[i as int], ':'));
            }
            if fields.len() >= 2 {
                return parse_u64_dec(fields[1].as_str());
            }
            return None;
        }
        i = i + 1;
    }
    proof {
        assert(glines.skip(n as int) =~= Seq::<Seq<char>>::empty());
    }
    None
}

/// Treats a failed cache read as a miss: read trouble must never fail a
/// tile request, which falls back to the origin store or synthesis.
pub fn degrade_read_to_miss(r: Result<Option<TileResponse>, TileServiceError>) -> (out: Option<
    TileResponse,
>)
    ensures
        out == (match r {
            Ok(v) => v,
            Err(_) => None::<TileResponse>,
        }),
{
    match r {
        Ok(v) => v,
        Err(_) => None,
    }
}

/// Swallows a failed cache write: population is best-effort and the tile is
/// served regardless.
pub fn swallow_write_error(r: Result<(), TileServiceError>) -> (out: bool)
    ensures
        out == r is Ok,
{
    match r {
        Ok(()) => true,
        Err(_) => false,
    }
}

} // verus!
