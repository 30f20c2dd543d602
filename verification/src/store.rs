//! The durable origin store model: object keys to byte payloads, one
//! metadata row per generated tile with idempotent upsert, and one pyramid
//! summary per parent map.
//!
//! A deployment backs the object side with a remote object store and the
//! rows with a relational table; both exchange plain values with this model.

use vstd::prelude::*;
use vstd::string::StringExecFns;
use crate::cache::clone_bytes;
use crate::errors::TileServiceError;
use crate::models::{Bounds, TileMetadata as PyramidMetadata, ZoomLevel};
use crate::strutil::str_eq;
use crate::tile::TileMetadata;

verus! {

/// One stored object.
pub struct ObjectEntry {
    pub key: String,
    pub data: Vec<u8>,
}

/// The identity of a tile-metadata row.
pub ghost struct RecordKey {
    pub game_id: Seq<char>,
    pub zoom_level: int,
    pub tile_x: int,
    pub tile_y: int,
    pub format: Seq<char>,
}

/// The mathematical value of a tile-metadata row.
pub ghost struct RecordView {
    pub id: Seq<char>,
    pub file_size: int,
    pub content_hash: Seq<char>,
    pub created_at: int,
    pub last_accessed: Option<int>,
}

/// The mathematical value of a pyramid summary.
pub ghost struct PyramidView {
    pub map_id: Seq<char>,
    pub total_tiles: nat,
    pub zoom_levels: Seq<ZoomLevel>,
    pub bounds: Bounds,
    pub created_at: Seq<char>,
    pub format: Seq<char>,
}

pub open spec fn record_key(r: TileMetadata) -> RecordKey {
    RecordKey {
        game_id: r.game_id@,
        zoom_level: r.zoom_level as int,
        tile_x: r.tile_x as int,
        tile_y: r.tile_y as int,
        format: r.format@,
    }
}

pub open spec fn record_view(r: TileMetadata) -> RecordView {
    RecordView {
        id: r.id@,
        file_size: r.file_size as int,
        content_hash: r.content_hash@,
        created_at: r.created_at as int,
        last_accessed: match r.last_accessed {
            Some(t) => Some(t as int),
            None => None,
        },
    }
}

pub open spec fn pyramid_view(p: PyramidMetadata) -> PyramidView {
    PyramidView {
        map_id: p.map_id@,
        total_tiles: p.total_tiles as nat,
        zoom_levels: p.zoom_levels@,
        bounds: p.bounds,
        created_at: p.created_at@,
        format: p.format@,
    }
}

pub open spec fn unique_object_keys(s: Seq<ObjectEntry>) -> bool {
    forall|i: int, j: int| 0 <= i < j < s.len() ==> s[i].key@ != s[j].key@
}

pub open spec fn unique_record_keys(s: Seq<TileMetadata>) -> bool {
    forall|i: int, j: int| 0 <= i < j < s.len() ==> record_key(s[i]) != record_key(s[j])
}

pub open spec fn unique_pyramid_keys(s: Seq<(String, PyramidMetadata)>) -> bool {
    forall|i: int, j: int| 0 <= i < j < s.len() ==> s[i].0@ != s[j].0@
}

pub open spec fn object_map(s: Seq<ObjectEntry>) -> Map<Seq<char>, Seq<u8>>
    decreases s.len(),
{
    if s.len() == 0 {
        Map::empty()
    } else {
        object_map(s.drop_last()).insert(s.last().key@, s.last().data@)
    }
}

pub open spec fn record_map(s: Seq<TileMetadata>) -> Map<RecordKey, RecordView>
    decreases s.len(),
{
    if s.len() == 0 {
        Map::empty()
    } else {
        record_map(s.drop_last()).insert(record_key(s.last()), record_view(s.last()))
    }
}

pub open spec fn pyramid_map(s: Seq<(String, PyramidMetadata)>) -> Map<Seq<char>, PyramidView>
    decreases s.len(),
{
    if s.len() == 0 {
        Map::empty()
    } else {
        pyramid_map(s.drop_last()).insert(s.last().0@, pyramid_view(s.last().1))
    }
}

proof fn lemma_object_map_index(s: Seq<ObjectEntry>, i: int)
    requires
        0 <= i < s.len(),
    ensures
        object_map(s).contains_key(s[i].key@),
        unique_object_keys(s) ==> object_map(s)[s[i].key@] == s[i].data@,
    decreases s.len(),
{
    if i < s.len() - 1 {
        lemma_object_map_index(s.drop_last(), i);
    }
}

proof fn lemma_object_map_absent(s: Seq<ObjectEntry>, k: Seq<char>)
    requires
        forall|i: int| 0 <= i < s.len() ==> s[i].key@ != k,
    ensures
        !object_map(s).contains_key(k),
    decreases s.len(),
{
    if s.len() > 0 {
        lemma_object_map_absent(s.drop_last(), k);
    }
}

proof fn lemma_object_map_update(s: Seq<ObjectEntry>, i: int, e: ObjectEntry)
    requires
        unique_object_keys(s),
        0 <= i < s.len(),
        e.key@ == s[i].key@,
    ensures
        object_map(s.update(i, e)) =~= object_map(s).insert(e.key@, e.data@),
    decreases s.len(),
{
    if i == s.len() - 1 {
        assert(s.update(i, e).drop_last() =~= s.drop_last());
    } else {
        assert(s.update(i, e).drop_last() =~= s.drop_last().update(i, e));
        lemma_object_map_update(s.drop_last(), i, e);
        assert(s.update(i, e).last() == s.last());
    }
}

proof fn lemma_object_map_remove(s: Seq<ObjectEntry>, i: int)
    requires
        unique_object_keys(s),
        0 <= i < s.len(),
    ensures
        object_map(s.remove(i)) =~= object_map(s).remove(s[i].key@),
    decreases s.len(),
{
    if i == s.len() - 1 {
        assert(s.remove(i) =~= s.drop_last());
        assert forall|j: int| 0 <= j < s.drop_last().len() implies s.drop_last()[j].key@
            != s[i].key@ by {}
        lemma_object_map_absent(s.drop_last(), s[i].key@);
        assert(object_map(s.drop_last()) =~= object_map(s.drop_last()).insert(
            s[i].key@,
            s[i].data@,
        ).remove(s[i].key@));
    } else {
        assert(s.remove(i).drop_last() =~= s.drop_last().remove(i));
        lemma_object_map_remove(s.drop_last(), i);
        assert(s.remove(i).last() == s.last());
    }
}

proof fn lemma_record_map_index(s: Seq<TileMetadata>, i: int)
    requires
        0 <= i < s.len(),
    ensures
        record_map(s).contains_key(record_key(s[i])),
        unique_record_keys(s) ==> record_map(s)[record_key(s[i])] == record_view(s[i]),
    decreases s.len(),
{
    if i < s.len() - 1 {
        lemma_record_map_index(s.drop_last(), i);
    }
}

proof fn lemma_record_map_absent(s: Seq<TileMetadata>, k: RecordKey)
    requires
        forall|i: int| 0 <= i < s.len() ==> record_key(s[i]) != k,
    ensures
        !record_map(s).contains_key(k),
    decreases s.len(),
{
    if s.len() > 0 {
        lemma_record_map_absent(s.drop_last(), k);
    }
}

proof fn lemma_record_map_update(s: Seq<TileMetadata>, i: int, e: TileMetadata)
    requires
        unique_record_keys(s),
        0 <= i < s.len(),
        record_key(e) == record_key(s[i]),
    ensures
        record_map(s.update(i, e)) =~= record_map(s).insert(record_key(e), record_view(e)),
    decreases s.len(),
{
    if i == s.len() - 1 {
        assert(s.update(i, e).drop_last() =~= s.drop_last());
    } else {
        assert(s.update(i, e).drop_last() =~= s.drop_last().update(i, e));
        lemma_record_map_update(s.drop_last(), i, e);
        assert(s.update(i, e).last() == s.last());
    }
}

proof fn lemma_pyramid_map_index(s: Seq<(String, PyramidMetadata)>, i: int)
    requires
        0 <= i < s.len(),
    ensures
        pyramid_map(s).contains_key(s[i].0@),
        unique_pyramid_keys(s) ==> pyramid_map(s)[s[i].0@] == pyramid_view(s[i].1),
    decreases s.len(),
{
    if i < s.len() - 1 {
        lemma_pyramid_map_index(s.drop_last(), i);
    }
}

proof fn lemma_pyramid_map_absent(s: Seq<(String, PyramidMetadata)>, k: Seq<char>)
    requires
        forall|i: int| 0 <= i < s.len() ==> s[i].0@ != k,
    ensures
        !pyramid_map(s).contains_key(k),
    decreases s.len(),
{
    if s.len() > 0 {
        lemma_pyramid_map_absent(s.drop_last(), k);
    }
}

proof fn lemma_pyramid_map_update(s: Seq<(String, PyramidMetadata)>, i: int, e: (
    String,
    PyramidMetadata,
))
    requires
        unique_pyramid_keys(s),
        0 <= i < s.len(),
        e.0@ == s[i].0@,
    ensures
        pyramid_map(s.update(i, e)) =~= pyramid_map(s).insert(e.0@, pyramid_view(e.1)),
    decreases s.len(),
{
    if i == s.len() - 1 {
        assert(s.update(i, e).drop_last() =~= s.drop_last());
    } else {
        assert(s.update(i, e).drop_last() =~= s.drop_last().update(i, e));
        lemma_pyramid_map_update(s.drop_last(), i, e);
        assert(s.update(i, e).last() == s.last());
    }
}

/// The durable origin store: raw tile objects, per-tile metadata rows, and
/// per-map pyramid summaries.
pub struct OriginStore {
    pub objects: Vec<ObjectEntry>,
    pub records: Vec<TileMetadata>,
    pub pyramids: Vec<(String, PyramidMetadata)>,
}

impl OriginStore {
    pub open spec fn wf(self) -> bool {
        unique_object_keys(self.objects@) && unique_record_keys(self.records@)
            && unique_pyramid_keys(self.pyramids@)
    }

    /// The object side: keys to payloads.
    pub open spec fn objects_view(self) -> Map<Seq<char>, Seq<u8>> {
        object_map(self.objects@)
    }

    /// The metadata rows, keyed by (game, zoom, x, y, format).
    pub open spec fn records_view(self) -> Map<RecordKey, RecordView> {
        record_map(self.records@)
    }

    /// The pyramid summaries, keyed by their object key.
    pub open spec fn pyramids_view(self) -> Map<Seq<char>, PyramidView> {
        pyramid_map(self.pyramids@)
    }

    pub fn new() -> (r: OriginStore)
        ensures
            r.wf(),
            r.objects_view() == Map::<Seq<char>, Seq<u8>>::empty(),
            r.records_view() == Map::<RecordKey, RecordView>::empty(),
            r.pyramids_view() == Map::<Seq<char>, PyramidView>::empty(),
    {
        let r = OriginStore { objects: Vec::new(), records: Vec::new(), pyramids: Vec::new() };
        proof {
            assert(r.objects@.len() == 0 && r.records@.len() == 0 && r.pyramids@.len() == 0);
        }
        r
    }

    fn find_object(&self, key: &str) -> (r: Option<usize>)
        ensures
            r matches Some(i) ==> i < self.objects@.len() && self.objects@[i as int].key@ == key@,
            r is None ==> forall|i: int|
                0 <= i < self.objects@.len() ==> self.objects@[i].key@ != key@,
    {
        let mut i: usize = 0;
        let n = self.objects.len();
        while i < n
            invariant
                n == self.objects@.len(),
                i <= n,
                forall|j: int| 0 <= j < i ==> self.objects@[j].key@ != key@,
            decreases n - i,
        {
            if str_eq(self.objects[i].key.as_str(), key) {
                return Some(i);
            }
            i = i + 1;
        }
        None
    }

    /// Fetches an object's bytes; a missing key fails with `NotFound`.
    pub fn get(&self, key: &str) -> (r: Result<Vec<u8>, TileServiceError>)
        requires
            self.wf(),
        ensures
            r is Ok <==> self.objects_view().contains_key(key@),
            r matches Ok(v) ==> v@ == self.objects_view()[key@],
            r matches Err(e) ==> e matches TileServiceError::NotFound(_),
    {
        match self.find_object(key) {
            Some(i) => {
                proof {
                    lemma_object_map_index(self.objects@, i as int);
                }
                Ok(clone_bytes(&self.objects[i].data))
            },
            None => {
                proof {
                    lemma_object_map_absent(self.objects@, key@);
                }
                Err(TileServiceError::NotFound(String::from_str(key)))
            },
        }
    }

    /// Stores an object's bytes, replacing any object already at the key.
    pub fn put(&mut self, key: &str, data: &Vec<u8>)
        requires
            old(self).wf(),
        ensures
            final(self).wf(),
            final(self).objects_view() == old(self).objects_view().insert(key@, data@),
            final(self).records_view() == old(self).records_view(),
            final(self).pyramids_view() == old(self).pyramids_view(),
    {
        let e = ObjectEntry { key: String::from_str(key), data: clone_bytes(data) };
        match self.find_object(key) {
            Some(i) => {
                proof {
                    lemma_object_map_update(self.objects@, i as int, e);
                }
                self.objects.remove(i);
                self.objects.insert(i, e);
                proof {
                    assert(self.objects@ =~= old(self).objects@.update(i as int, e));
                    assert forall|a: int, b: int|
                        0 <= a < b < self.objects@.len() implies self.objects@[a].key@
                        != self.objects@[b].key@ by {
                        assert(old(self).objects@[a].key@ != old(self).objects@[b].key@);
                    }
                }
            },
            None => {
                proof {
                    lemma_object_map_absent(self.objects@, key@);
                }
                self.objects.push(e);
                proof {
                    assert(self.objects@.drop_last() =~= old(self).objects@);
                    assert forall|a: int, b: int|
                        0 <= a < b < self.objects@.len() implies self.objects@[a].key@
                        != self.objects@[b].key@ by {
                        if b < self.objects@.len() - 1 {
                            assert(old(self).objects@[a].key@ != old(self).objects@[b].key@);
                        } else {
                            assert(old(self).objects@[a].key@ != key@);
                        }
                    }
                }
            },
        }
    }

    /// Removes an object if present.
    pub fn delete(&mut self, key: &str)
        requires
            old(self).wf(),
        ensures
            final(self).wf(),
            final(self).objects_view() == old(self).objects_view().remove(key@),
            final(self).records_view() == old(self).records_view(),
            final(self).pyramids_view() == old(self).pyramids_view(),
    {
        match self.find_object(key) {
            Some(i) => {
                proof {
                    lemma_object_map_remove(self.objects@, i as int);
                }
                self.objects.remove(i);
                proof {
                    assert forall|a: int, b: int|
                        0 <= a < b < self.objects@.len() implies self.objects@[a].key@
                        != self.objects@[b].key@ by {
                        let sa: int = if a < i as int {
                            a
                        } else {
                            a + 1
                        };
                        let sb: int = if b < i as int {
                            b
                        } else {
                            b + 1
                        };
                        assert(old(self).objects@[sa].key@ != old(self).objects@[sb].key@);
                    }
                }
            },
            None => {
                proof {
                    lemma_object_map_absent(self.objects@, key@);
                    assert(old(self).objects_view().remove(key@) =~= old(self).objects_view());
                }
            },
        }
    }

    fn find_record(&self, rec: &TileMetadata) -> (r: Option<usize>)
        ensures
            r matches Some(i) ==> i < self.records@.len() && record_key(self.records@[i as int])
                == record_key(*rec),
            r is None ==> forall|i: int|
                0 <= i < self.records@.len() ==> record_key(self.records@[i]) != record_key(*rec),
    {
        let mut i: usize = 0;
        let n = self.records.len();
        while i < n
            invariant
                n == self.records@.len(),
                i <= n,
                forall|j: int| 0 <= j < i ==> record_key(self.records@[j]) != record_key(*rec),
            decreases n - i,
        {
            let row = &self.records[i];
            if str_eq(row.game_id.as_str(), rec.game_id.as_str()) && row.zoom_level
                == rec.zoom_level && row.tile_x == rec.tile_x && row.tile_y == rec.tile_y
                && str_eq(row.format.as_str(), rec.format.as_str()) {
                return Some(i);
            }
            i = i + 1;
        }
        None
    }

    /// Inserts or replaces the metadata row for one tile address: rows stay
    /// unique on (game, zoom, x, y, format), and a second upsert for the
    /// same address overwrites size, hash and timestamps rather than
    /// duplicating the row.
    pub fn upsert_metadata(&mut self, record: TileMetadata)
        requires
            old(self).wf(),
        ensures
            final(self).wf(),
            final(self).records_view() == old(self).records_view().insert(
                record_key(record),
                record_view(record),
            ),
            final(self).objects_view() == old(self).objects_view(),
            final(self).pyramids_view() == old(self).pyramids_view(),
    {
        match self.find_record(&record) {
            Some(i) => {
                proof {
                    lemma_record_map_update(self.records@, i as int, record);
                }
                self.records.remove(i);
                self.records.insert(i, record);
                proof {
                    assert(self.records@ =~= old(self).records@.update(
                        i as int,
                        self.records@[i as int],
                    ));
                    assert forall|a: int, b: int|
                        0 <= a < b < self.records@.len() implies record_key(self.records@[a])
                        != record_key(self.records@[b]) by {
                        assert(record_key(old(self).records@[a]) != record_key(
                            old(self).records@[b],
                        ));
                    }
                }
            },
            None => {
                proof {
                    lemma_record_map_absent(self.records@, record_key(record));
                }
                self.records.push(record);
                proof {
                    assert(self.records@.drop_last() =~= old(self).records@);
                    assert forall|a: int, b: int|
                        0 <= a < b < self.records@.len() implies record_key(self.records@[a])
                        != record_key(self.records@[b]) by {
                        if b < self.records@.len() - 1 {
                            assert(record_key(old(self).records@[a]) != record_key(
                                old(self).records@[b],
                            ));
                        }
                    }
                }
            },
        }
    }

    fn find_pyramid(&self, key: &str) -> (r: Option<usize>)
        ensures
            r matches Some(i) ==> i < self.pyramids@.len() && self.pyramids@[i as int].0@ == key@,
            r is None ==> forall|i: int|
                0 <= i < self.pyramids@.len() ==> self.pyramids@[i].0@ != key@,
    {
        let mut i: usize = 0;
        let n = self.pyramids.len();
        while i < n
            invariant
                n == self.pyramids@.len(),
                i <= n,
                forall|j: int| 0 <= j < i ==> self.pyramids@[j].0@ != key@,
            decreases n - i,
        {
            if str_eq(self.pyramids[i].0.as_str(), key) {
                return Some(i);
            }
            i = i + 1;
        }
        None
    }

    /// Stores a pyramid summary under its object key, replacing any summary
    /// already there.
    pub fn save_pyramid(&mut self, key: &str, meta: PyramidMetadata)
        requires
            old(self).wf(),
        ensures
            final(self).wf(),
            final(self).pyramids_view() == old(self).pyramids_view().insert(
                key@,
                pyramid_view(meta),
            ),
            final(self).objects_view() == old(self).objects_view(),
            final(self).records_view() == old(self).records_view(),
    {
        let e = (String::from_str(key), meta);
        match self.find_pyramid(key) {
            Some(i) => {
                proof {
                    lemma_pyramid_map_update(self.pyramids@, i as int, e);
                }
                self.pyramids.remove(i);
                self.pyramids.insert(i, e);
                proof {
                    assert(self.pyramids@ =~= old(self).pyramids@.update(
                        i as int,
                        self.pyramids@[i as int],
                    ));
                    assert forall|a: int, b: int|
                        0 <= a < b < self.pyramids@.len() implies self.pyramids@[a].0@
                        != self.pyramids@[b].0@ by {
                        assert(old(self).pyramids@[a].0@ != old(self).pyramids@[b].0@);
                    }
                }
            },
            None => {
                proof {
                    lemma_pyramid_map_absent(self.pyramids@, key@);
                }
                self.pyramids.push(e);
                proof {
                    assert(self.pyramids@.drop_last() =~= old(self).pyramids@);
                    assert forall|a: int, b: int|
                        0 <= a < b < self.pyramids@.len() implies self.pyramids@[a].0@
                        != self.pyramids@[b].0@ by {
                        if b < self.pyramids@.len() - 1 {
                            assert(old(self).pyramids@[a].0@ != old(self).pyramids@[b].0@);
                        }
                    }
                }
            },
        }
    }

    /// Fetches a pyramid summary; a missing key fails with `NotFound`.
    pub fn get_pyramid(&self, key: &str) -> (r: Result<&PyramidMetadata, TileServiceError>)
        requires
            self.wf(),
        ensures
            r is Ok <==> self.pyramids_view().contains_key(key@),
            r matches Ok(p) ==> pyramid_view(*p) == self.pyramids_view()[key@],
            r matches Err(e) ==> e matches TileServiceError::NotFound(_),
    {
        match self.find_pyramid(key) {
            Some(i) => {
                proof {
                    lemma_pyramid_map_index(self.pyramids@, i as int);
                }
                Ok(&self.pyramids[i].1)
            },
            None => {
                proof {
                    lemma_pyramid_map_absent(self.pyramids@, key@);
                }
                Err(TileServiceError::NotFound(String::from_str(key)))
            },
        }
    }

    /// How many metadata rows the store holds.
    pub fn record_count(&self) -> (r: usize)
        ensures
            r == self.records@.len(),
    {
        self.records.len()
    }

    /// How many objects the store holds.
    pub fn object_count(&self) -> (r: usize)
        ensures
            r == self.objects@.len(),
    {
        self.objects.len()
    }
}

/// Upserting a row for an address that already holds one converges on the
/// later write: re-running a generation never duplicates rows, and the last
/// writer's size, hash and timestamps win.
pub proof fn lemma_upsert_last_write_wins(
    m: Map<RecordKey, RecordView>,
    k: RecordKey,
    v1: RecordView,
    v2: RecordView,
)
    ensures
        m.insert(k, v1).insert(k, v2) == m.insert(k, v2),
        m.insert(k, v1).insert(k, v1) == m.insert(k, v1),
        m.insert(k, v1).dom() == m.insert(k, v1).insert(k, v2).dom(),
{
    assert(m.insert(k, v1).insert(k, v2) =~= m.insert(k, v2));
    assert(m.insert(k, v1).insert(k, v1) =~= m.insert(k, v1));
    assert(m.insert(k, v1).dom() =~= m.insert(k, v1).insert(k, v2).dom());
}

} // verus!
