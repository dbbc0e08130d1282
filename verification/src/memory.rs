//! A non-persistent store of lyrics and playlists in one map by identifier,
//! listed in order of title.
use std::collections::HashMap;
use vstd::prelude::*;

use crate::db::without_uuid;
use crate::error::ModelError;
use crate::model::{
    sort_by_title, sorted_by_title, to_summaries, HasSummary, Lyric, LyricPost, LyricPostView,
    Playlist, PlaylistPost, PlaylistPostView, Summary,
};
use crate::uuid::{is_v4, Uuid};

verus! {

broadcast use {vstd::std_specs::hash::group_hash_axioms, vstd::seq_lib::group_to_multiset_ensures};

/// A stored item: a lyric or a playlist, without its identifier.
pub enum Record {
    Lyric(LyricPost),
    Playlist(PlaylistPost),
}

/// A stored item as a value.
pub enum RecordView {
    Lyric(LyricPostView),
    Playlist(PlaylistPostView),
}

impl View for Record {
    type V = RecordView;

    open spec fn view(&self) -> RecordView {
        match self {
            Record::Lyric(p) => RecordView::Lyric(p@),
            Record::Playlist(p) => RecordView::Playlist(p@),
        }
    }
}

/// The keys of the lyric records.
pub open spec fn lyric_keys(records: Map<u128, RecordView>) -> Set<u128> {
    records.dom().filter(|k: u128| records[k] is Lyric)
}

/// The keys of the playlist records.
pub open spec fn playlist_keys(records: Map<u128, RecordView>) -> Set<u128> {
    records.dom().filter(|k: u128| records[k] is Playlist)
}

/// A record without `id` among the members of a playlist.
pub open spec fn strip_member(r: RecordView, id: Uuid) -> RecordView {
    match r {
        RecordView::Lyric(p) => RecordView::Lyric(p),
        RecordView::Playlist(p) => RecordView::Playlist(
            PlaylistPostView { members: without_uuid(p.members, id), ..p },
        ),
    }
}

/// The records after deleting lyric `id`: it is gone, and no playlist lists it.
pub open spec fn after_lyric_delete(records: Map<u128, RecordView>, id: Uuid) -> Map<
    u128,
    RecordView,
> {
    records.remove(id.0).map_values(|r: RecordView| strip_member(r, id))
}

/// Whether `l` is the lyric stored in `records` under its identifier.
pub open spec fn is_stored_lyric(records: Map<u128, RecordView>, l: Lyric) -> bool {
    &&& records.contains_key(l.id.0)
    &&& records[l.id.0] == RecordView::Lyric(LyricPostView { title: l.title@, parts: l.parts.deep_view() })
}

/// Whether `p` is the playlist stored in `records` under its identifier.
pub open spec fn is_stored_playlist(records: Map<u128, RecordView>, p: Playlist) -> bool {
    &&& records.contains_key(p.id.0)
    &&& records[p.id.0] == RecordView::Playlist(PlaylistPostView { title: p.title@, members: p.members@ })
}

/// Lyrics and playlists by identifier.
pub struct InMemoryDb {
    db: HashMap<u128, Record>,
}

impl InMemoryDb {
    /// The records by identifier value.
    pub closed spec fn records(&self) -> Map<u128, RecordView> {
        self.db@.map_values(|r: Record| r@)
    }

    /// An empty store.
    pub fn new() -> (db: InMemoryDb)
        ensures
            db.records() == Map::<u128, RecordView>::empty(),
    {
        let db = InMemoryDb { db: HashMap::new() };
        proof {
            assert(db.records() =~= Map::<u128, RecordView>::empty());
        }
        db
    }

    /// The stored lyrics, each once, in no particular order.
    fn lyric_entries(&self) -> (r: Vec<Lyric>)
        ensures
            r@.len() == lyric_keys(self.records()).len(),
            forall|i: int| 0 <= i < r@.len() ==> is_stored_lyric(self.records(), #[trigger] r@[i]),
            forall|k: u128| #[trigger]
                lyric_keys(self.records()).contains(k) ==> exists|i: int|
                    0 <= i < r@.len() && (#[trigger] r@[i]).id.0 == k,
    {
        let ghost m = self.db@;
        let ghost recs = self.records();
        let mut r: Vec<Lyric> = Vec::new();
        let ghost mut ks: Seq<u128> = Seq::empty();
        let ghost mut js: Seq<int> = Seq::empty();
        for kv in it: self.db.iter()
            invariant
                m == self.db@,
                recs == self.records(),
                it.seq().len() == m.dom().len(),
                it.seq().no_duplicates(),
                forall|j: int|
                    0 <= j < it.seq().len() ==> m.contains_key(*(#[trigger] it.seq()[j]).0)
                        && m[*it.seq()[j].0] == *it.seq()[j].1,
                forall|k: u128| #[trigger] m.contains_key(k) ==> it.seq().contains((&k, &m[k])),
                ks.len() == r@.len(),
                js.len() == ks.len(),
                forall|i: int| 0 <= i < r@.len() ==> (#[trigger] r@[i]).id.0 == ks[i],
                forall|i: int| 0 <= i < r@.len() ==> is_stored_lyric(recs, #[trigger] r@[i]),
                forall|i: int|
                    0 <= i < ks.len() ==> 0 <= #[trigger] js[i] < it.index() && *it.seq()[js[i]].0
                        == ks[i],
                ks.no_duplicates(),
                forall|k: u128| #[trigger]
                    lyric_keys(recs).contains(k) ==> ks.contains(k) || (exists|j: int|
                        it.index() <= j < it.seq().len() && #[trigger] it.seq()[j] == (&k, &m[k])),
        {
            let ghost idx = it.index();
            let (k, rec) = kv;
            let ghost old_ks = ks;
            let ghost old_js = js;
            proof {
                assert(m.contains_key(*k));
                assert(recs[*k] == rec@);
                assert forall|i: int| 0 <= i < ks.len() implies ks[i] != *k by {
                    let j = js[i];
                    if ks[i] == *k {
                        assert(m[*it.seq()[j].0] == *it.seq()[j].1);
                        assert(it.seq()[j] == it.seq()[idx as int]);
                    }
                }
            }
            match rec {
                Record::Lyric(post) => {
                    let l = Lyric {
                        id: Uuid(*k),
                        title: post.title.clone(),
                        parts: crate::parts::clone_parts(&post.parts),
                    };
                    r.push(l);
                    proof {
                        ks = ks.push(*k);
                        js = js.push(idx as int);
                        assert forall|k2: u128| #[trigger] lyric_keys(recs).contains(k2) implies ks.contains(k2)
                            || (exists|j: int|
                            idx + 1 <= j < it.seq().len() && #[trigger] it.seq()[j] == (&k2, &m[k2])) by {
                            if !ks.contains(k2) {
                                assert(!old_ks.contains(k2)) by {
                                    if old_ks.contains(k2) {
                                        let i = choose|i: int| 0 <= i < old_ks.len() && old_ks[i] == k2;
                                        assert(ks[i] == k2);
                                    }
                                }
                                let j = choose|j: int|
                                    idx <= j < it.seq().len() && #[trigger] it.seq()[j] == (&k2, &m[k2]);
                                assert(ks[ks.len() - 1] == *k);
                            }
                        }
                    }
                },
                Record::Playlist(_) => {
                    proof {
                        assert forall|k2: u128| #[trigger] lyric_keys(recs).contains(k2) implies ks.contains(k2)
                            || (exists|j: int|
                            idx + 1 <= j < it.seq().len() && #[trigger] it.seq()[j] == (&k2, &m[k2])) by {
                            if !ks.contains(k2) {
                                let j = choose|j: int|
                                    idx <= j < it.seq().len() && #[trigger] it.seq()[j] == (&k2, &m[k2]);
                                if j == idx {
                                    assert(recs[k2] is Lyric);
                                }
                            }
                        }
                    }
                },
            }
        }
        proof {
            assert(ks.to_set() =~= lyric_keys(recs)) by {
                assert forall|k: u128| ks.to_set().contains(k) implies lyric_keys(recs).contains(k) by {
                    let i = choose|i: int| 0 <= i < ks.len() && ks[i] == k;
                    assert(r@[i].id.0 == k);
                }
            }
            ks.unique_seq_to_set();
            assert forall|k: u128| #[trigger] lyric_keys(recs).contains(k) implies exists|i: int|
                0 <= i < r@.len() && (#[trigger] r@[i]).id.0 == k by {
                let i = choose|i: int| 0 <= i < ks.len() && ks[i] == k;
                assert(r@[i].id.0 == k);
            }
        }
        r
    }

    /// The stored playlists, each once, in no particular order.
    fn playlist_entries(&self) -> (r: Vec<Playlist>)
        ensures
            r@.len() == playlist_keys(self.records()).len(),
            forall|i: int| 0 <= i < r@.len() ==> is_stored_playlist(self.records(), #[trigger] r@[i]),
            forall|k: u128| #[trigger]
                playlist_keys(self.records()).contains(k) ==> exists|i: int|
                    0 <= i < r@.len() && (#[trigger] r@[i]).id.0 == k,
    {
        let ghost m = self.db@;
        let ghost recs = self.records();
        let mut r: Vec<Playlist> = Vec::new();
        let ghost mut ks: Seq<u128> = Seq::empty();
        let ghost mut js: Seq<int> = Seq::empty();
        for kv in it: self.db.iter()
            invariant
                m == self.db@,
                recs == self.records(),
                it.seq().len() == m.dom().len(),
                it.seq().no_duplicates(),
                forall|j: int|
                    0 <= j < it.seq().len() ==> m.contains_key(*(#[trigger] it.seq()[j]).0)
                        && m[*it.seq()[j].0] == *it.seq()[j].1,
                forall|k: u128| #[trigger] m.contains_key(k) ==> it.seq().contains((&k, &m[k])),
                ks.len() == r@.len(),
                js.len() == ks.len(),
                forall|i: int| 0 <= i < r@.len() ==> (#[trigger] r@[i]).id.0 == ks[i],
                forall|i: int| 0 <= i < r@.len() ==> is_stored_playlist(recs, #[trigger] r@[i]),
                forall|i: int|
                    0 <= i < ks.len() ==> 0 <= #[trigger] js[i] < it.index() && *it.seq()[js[i]].0
                        == ks[i],
                ks.no_duplicates(),
                forall|k: u128| #[trigger]
                    playlist_keys(recs).contains(k) ==> ks.contains(k) || (exists|j: int|
                        it.index() <= j < it.seq().len() && #[trigger] it.seq()[j] == (&k, &m[k])),
        {
            let ghost idx = it.index();
            let (k, rec) = kv;
            let ghost old_ks = ks;
            let ghost old_js = js;
            proof {
                assert(m.contains_key(*k));
                assert(recs[*k] == rec@);
                assert forall|i: int| 0 <= i < ks.len() implies ks[i] != *k by {
                    let j = js[i];
                    if ks[i] == *k {
                        assert(m[*it.seq()[j].0] == *it.seq()[j].1);
                        assert(it.seq()[j] == it.seq()[idx as int]);
                    }
                }
            }
            match rec {
                Record::Playlist(post) => {
                    let l = Playlist {
                        id: Uuid(*k),
                        title: post.title.clone(),
                        members: crate::model::clone_ids(&post.members),
                    };
                    r.push(l);
                    proof {
                        ks = ks.push(*k);
                        js = js.push(idx as int);
                        assert forall|k2: u128| #[trigger] playlist_keys(recs).contains(k2) implies ks.contains(k2)
                            || (exists|j: int|
                            idx + 1 <= j < it.seq().len() && #[trigger] it.seq()[j] == (&k2, &m[k2])) by {
                            if !ks.contains(k2) {
                                assert(!old_ks.contains(k2)) by {
                                    if old_ks.contains(k2) {
                                        let i = choose|i: int| 0 <= i < old_ks.len() && old_ks[i] == k2;
                                        assert(ks[i] == k2);
                                    }
                                }
                                let j = choose|j: int|
                                    idx <= j < it.seq().len() && #[trigger] it.seq()[j] == (&k2, &m[k2]);
                                assert(ks[ks.len() - 1] == *k);
                            }
                        }
                    }
                },
                Record::Lyric(_) => {
                    proof {
                        assert forall|k2: u128| #[trigger] playlist_keys(recs).contains(k2) implies ks.contains(k2)
                            || (exists|j: int|
                            idx + 1 <= j < it.seq().len() && #[trigger] it.seq()[j] == (&k2, &m[k2])) by {
                            if !ks.contains(k2) {
                                let j = choose|j: int|
                                    idx <= j < it.seq().len() && #[trigger] it.seq()[j] == (&k2, &m[k2]);
                                if j == idx {
                                    assert(recs[k2] is Playlist);
                                }
                            }
                        }
                    }
                },
            }
        }
        proof {
            assert(ks.to_set() =~= playlist_keys(recs)) by {
                assert forall|k: u128| ks.to_set().contains(k) implies playlist_keys(recs).contains(k) by {
                    let i = choose|i: int| 0 <= i < ks.len() && ks[i] == k;
                    assert(r@[i].id.0 == k);
                }
            }
            ks.unique_seq_to_set();
            assert forall|k: u128| #[trigger] playlist_keys(recs).contains(k) implies exists|i: int|
                0 <= i < r@.len() && (#[trigger] r@[i]).id.0 == k by {
                let i = choose|i: int| 0 <= i < ks.len() && ks[i] == k;
                assert(r@[i].id.0 == k);
            }
        }
        r
    }
}

/// `v` lists each lyric of `records` once, by identifier and title.
pub open spec fn lists_lyric_summaries(records: Map<u128, RecordView>, v: Seq<Summary>) -> bool {
    &&& v.len() == lyric_keys(records).len()
    &&& forall|i: int|
        0 <= i < v.len() ==> records.contains_key((#[trigger] v[i]).id.0) && records[v[i].id.0] is Lyric
            && v[i].title@ == records[v[i].id.0]->Lyric_0.title
    &&& forall|k: u128| #[trigger]
        lyric_keys(records).contains(k) ==> exists|i: int| 0 <= i < v.len() && (#[trigger] v[i]).id.0 == k
}

/// `v` lists each playlist of `records` once, by identifier and title.
pub open spec fn lists_playlist_summaries(records: Map<u128, RecordView>, v: Seq<Summary>) -> bool {
    &&& v.len() == playlist_keys(records).len()
    &&& forall|i: int|
        0 <= i < v.len() ==> records.contains_key((#[trigger] v[i]).id.0) && records[v[i].id.0] is Playlist
            && v[i].title@ == records[v[i].id.0]->Playlist_0.title
    &&& forall|k: u128| #[trigger]
        playlist_keys(records).contains(k) ==> exists|i: int| 0 <= i < v.len() && (#[trigger] v[i]).id.0 == k
}

impl InMemoryDb {
    /// The summaries of all lyrics, in order of title.
    pub fn lyric_list(&self) -> (r: Result<Vec<Summary>, ModelError>)
        ensures
            r matches Ok(v) && lists_lyric_summaries(self.records(), v@) && sorted_by_title(v@),
    {
        let entries = self.lyric_entries();
        let ghost ev = entries@;
        let sums = to_summaries(entries);
        let ghost sv = sums@;
        let sorted = sort_by_title(sums);
        proof {
            let recs = self.records();
            vstd::seq_lib::to_multiset_len(sorted@);
            vstd::seq_lib::to_multiset_len(sv);
            assert forall|i: int| 0 <= i < sorted@.len() implies recs.contains_key(
                (#[trigger] sorted@[i]).id.0,
            ) && recs[sorted@[i].id.0] is Lyric && sorted@[i].title@ == recs[sorted@[i].id.0]->Lyric_0.title by {
                assert(sorted@.contains(sorted@[i]));
                assert(sorted@.to_multiset().count(sorted@[i]) > 0);
                assert(sv.contains(sorted@[i]));
                let j = choose|j: int| 0 <= j < sv.len() && sv[j] == sorted@[i];
                assert(is_stored_lyric(recs, ev[j]));
                assert(sv[j]@ == ev[j].summary_view());
            }
            assert forall|k: u128| #[trigger] lyric_keys(recs).contains(k) implies exists|i: int|
                0 <= i < sorted@.len() && (#[trigger] sorted@[i]).id.0 == k by {
                let j = choose|j: int| 0 <= j < ev.len() && (#[trigger] ev[j]).id.0 == k;
                assert(sv[j]@ == ev[j].summary_view());
                assert(sv.contains(sv[j]));
                assert(sv.to_multiset().count(sv[j]) > 0);
                assert(sorted@.contains(sv[j]));
                let i = choose|i: int| 0 <= i < sorted@.len() && sorted@[i] == sv[j];
                assert(sorted@[i].id.0 == k);
            }
        }
        Ok(sorted)
    }

    /// All lyrics, in order of title.
    pub fn lyric_list_full(&self) -> (r: Result<Vec<Lyric>, ModelError>)
        ensures
            r matches Ok(v) && v@.len() == lyric_keys(self.records()).len() && sorted_by_title(v@)
                && (forall|i: int| 0 <= i < v@.len() ==> is_stored_lyric(self.records(), #[trigger] v@[i]))
                && (forall|k: u128| #[trigger]
                lyric_keys(self.records()).contains(k) ==> exists|i: int|
                    0 <= i < v@.len() && (#[trigger] v@[i]).id.0 == k),
    {
        let entries = self.lyric_entries();
        let ghost ev = entries@;
        let sorted = sort_by_title(entries);
        proof {
            let recs = self.records();
            vstd::seq_lib::to_multiset_len(sorted@);
            vstd::seq_lib::to_multiset_len(ev);
            assert forall|i: int| 0 <= i < sorted@.len() implies is_stored_lyric(recs, #[trigger] sorted@[i]) by {
                assert(sorted@.contains(sorted@[i]));
                assert(sorted@.to_multiset().count(sorted@[i]) > 0);
                assert(ev.contains(sorted@[i]));
            }
            assert forall|k: u128| #[trigger] lyric_keys(recs).contains(k) implies exists|i: int|
                0 <= i < sorted@.len() && (#[trigger] sorted@[i]).id.0 == k by {
                let j = choose|j: int| 0 <= j < ev.len() && (#[trigger] ev[j]).id.0 == k;
                assert(ev.contains(ev[j]));
                assert(ev.to_multiset().count(ev[j]) > 0);
                assert(sorted@.contains(ev[j]));
            }
        }
        Ok(sorted)
    }

    /// The summaries of all playlists, in order of title.
    pub fn playlist_list(&self) -> (r: Result<Vec<Summary>, ModelError>)
        ensures
            r matches Ok(v) && lists_playlist_summaries(self.records(), v@) && sorted_by_title(v@),
    {
        let entries = self.playlist_entries();
        let ghost ev = entries@;
        let sums = to_summaries(entries);
        let ghost sv = sums@;
        let sorted = sort_by_title(sums);
        proof {
            let recs = self.records();
            vstd::seq_lib::to_multiset_len(sorted@);
            vstd::seq_lib::to_multiset_len(sv);
            assert forall|i: int| 0 <= i < sorted@.len() implies recs.contains_key(
                (#[trigger] sorted@[i]).id.0,
            ) && recs[sorted@[i].id.0] is Playlist && sorted@[i].title@ == recs[sorted@[i].id.0]->Playlist_0.title by {
                assert(sorted@.contains(sorted@[i]));
                assert(sorted@.to_multiset().count(sorted@[i]) > 0);
                assert(sv.contains(sorted@[i]));
                let j = choose|j: int| 0 <= j < sv.len() && sv[j] == sorted@[i];
                assert(is_stored_playlist(recs, ev[j]));
                assert(sv[j]@ == ev[j].summary_view());
            }
            assert forall|k: u128| #[trigger] playlist_keys(recs).contains(k) implies exists|i: int|
                0 <= i < sorted@.len() && (#[trigger] sorted@[i]).id.0 == k by {
                let j = choose|j: int| 0 <= j < ev.len() && (#[trigger] ev[j]).id.0 == k;
                assert(sv[j]@ == ev[j].summary_view());
                assert(sv.contains(sv[j]));
                assert(sv.to_multiset().count(sv[j]) > 0);
                assert(sorted@.contains(sv[j]));
                let i = choose|i: int| 0 <= i < sorted@.len() && sorted@[i] == sv[j];
                assert(sorted@[i].id.0 == k);
            }
        }
        Ok(sorted)
    }

    /// All playlists, in order of title.
    pub fn playlist_list_full(&self) -> (r: Result<Vec<Playlist>, ModelError>)
        ensures
            r matches Ok(v) && v@.len() == playlist_keys(self.records()).len() && sorted_by_title(v@)
                && (forall|i: int| 0 <= i < v@.len() ==> is_stored_playlist(self.records(), #[trigger] v@[i]))
                && (forall|k: u128| #[trigger]
                playlist_keys(self.records()).contains(k) ==> exists|i: int|
                    0 <= i < v@.len() && (#[trigger] v@[i]).id.0 == k),
    {
        let entries = self.playlist_entries();
        let ghost ev = entries@;
        let sorted = sort_by_title(entries);
        proof {
            let recs = self.records();
            vstd::seq_lib::to_multiset_len(sorted@);
            vstd::seq_lib::to_multiset_len(ev);
            assert forall|i: int| 0 <= i < sorted@.len() implies is_stored_playlist(recs, #[trigger] sorted@[i]) by {
                assert(sorted@.contains(sorted@[i]));
                assert(sorted@.to_multiset().count(sorted@[i]) > 0);
                assert(ev.contains(sorted@[i]));
            }
            assert forall|k: u128| #[trigger] playlist_keys(recs).contains(k) implies exists|i: int|
                0 <= i < sorted@.len() && (#[trigger] sorted@[i]).id.0 == k by {
                let j = choose|j: int| 0 <= j < ev.len() && (#[trigger] ev[j]).id.0 == k;
                assert(ev.contains(ev[j]));
                assert(ev.to_multiset().count(ev[j]) > 0);
                assert(sorted@.contains(ev[j]));
            }
        }
        Ok(sorted)
    }
}


/// What a request to the in-memory store can fail with.
#[derive(Debug)]
pub enum MemoryDbError {
    /// No record of the asked kind under the identifier.
    NotFound,
    /// The new random identifier was taken already.
    Occupied,
}

/// A copy of a record with `id` left out of the members of a playlist.
fn strip_record(r: &Record, id: &Uuid) -> (out: Record)
    ensures
        out@ == strip_member(r@, *id),
{
    match r {
        Record::Lyric(p) => Record::Lyric(p.clone()),
        Record::Playlist(p) => Record::Playlist(
            PlaylistPost { title: p.title.clone(), members: crate::db::without_id(&p.members, id) },
        ),
    }
}

impl InMemoryDb {
    /// The lyric stored under `uuid`; `NotFound` where there is none, or a
    /// playlist is stored there.
    pub fn lyric_item(&self, uuid: Uuid) -> (r: Result<Lyric, MemoryDbError>)
        ensures
            match r {
                Ok(l) => self.records().contains_key(uuid.0) && self.records()[uuid.0]
                    == RecordView::Lyric(LyricPostView { title: l.title@, parts: l.parts.deep_view() })
                    && l.id == uuid,
                Err(e) => e is NotFound && !(self.records().contains_key(uuid.0)
                    && self.records()[uuid.0] is Lyric),
            },
    {
        match self.db.get(&uuid.0) {
            Some(Record::Lyric(post)) => Ok(
                Lyric { id: uuid, title: post.title.clone(), parts: crate::parts::clone_parts(&post.parts) },
            ),
            _ => Err(MemoryDbError::NotFound),
        }
    }

    /// Stores a posted lyric under `uuid`.  Where `uuid` was taken already,
    /// the new lyric still replaces what was there, and the answer is
    /// `Occupied`.
    pub fn lyric_post_at(&mut self, uuid: Uuid, lyric_post: LyricPost) -> (r: Result<Lyric, MemoryDbError>)
        ensures
            final(self).records() == old(self).records().insert(uuid.0, RecordView::Lyric(lyric_post@)),
            r is Ok <==> !old(self).records().contains_key(uuid.0),
            r matches Ok(l) ==> l.id == uuid && l.title@ == lyric_post.title@ && l.parts.deep_view()
                == lyric_post.parts.deep_view(),
            r matches Err(e) ==> e is Occupied,
    {
        let stored = Record::Lyric(lyric_post.clone());
        let previous = self.db.insert(uuid.0, stored);
        proof {
            assert(self.records() =~= old(self).records().insert(uuid.0, RecordView::Lyric(lyric_post@)));
        }
        match previous {
            Some(_) => Err(MemoryDbError::Occupied),
            None => Ok(Lyric { id: uuid, title: lyric_post.title, parts: lyric_post.parts }),
        }
    }

    /// Stores a posted lyric under a new random (version 4) identifier, as
    /// `lyric_post_at` does.
    pub fn lyric_post(&mut self, lyric_post: LyricPost) -> (r: Result<Lyric, MemoryDbError>)
        ensures
            match r {
                Ok(l) => is_v4(l.id.0) && !old(self).records().contains_key(l.id.0) && final(self).records() == old(self).records().insert(l.id.0, RecordView::Lyric(lyric_post@))
                    && l.title@ == lyric_post.title@ && l.parts.deep_view()
                    == lyric_post.parts.deep_view(),
                Err(e) => e is Occupied && exists|k: u128|
                    is_v4(k) && old(self).records().contains_key(k) && final(self).records() == old(
                        self,
                    ).records().insert(k, RecordView::Lyric(lyric_post@)),
            },
    {
        let uuid = Uuid::new_v4();
        let r = self.lyric_post_at(uuid, lyric_post);
        proof {
            if r is Err {
                assert(is_v4(uuid.0) && old(self).records().contains_key(uuid.0));
            }
        }
        r
    }

    /// Deletes what is stored under `uuid` and takes it out of every
    /// playlist; `NotFound` where nothing is stored there.
    pub fn lyric_delete(&mut self, uuid: Uuid) -> (r: Result<(), MemoryDbError>)
        ensures
            old(self).records().contains_key(uuid.0) ==> r is Ok && final(self).records()
                == after_lyric_delete(old(self).records(), uuid),
            !old(self).records().contains_key(uuid.0) ==> r is Err && r->Err_0 is NotFound
                && final(self).records() == old(self).records(),
    {
        match self.db.remove(&uuid.0) {
            None => {
                proof {
                    assert(self.records() =~= old(self).records());
                }
                Err(MemoryDbError::NotFound)
            },
            Some(_) => {
                let ghost m = self.db@;
                let ghost target = after_lyric_delete(old(self).records(), uuid);
                proof {
                    assert(m =~= old(self).db@.remove(uuid.0));
                }
                let mut updated: HashMap<u128, Record> = HashMap::new();
                for kv in it: self.db.iter()
                    invariant
                        m == self.db@,
                        target == after_lyric_delete(old(self).records(), uuid),
                        m == old(self).db@.remove(uuid.0),
                        it.seq().len() == m.dom().len(),
                        it.seq().no_duplicates(),
                        forall|j: int|
                            0 <= j < it.seq().len() ==> m.contains_key(*(#[trigger] it.seq()[j]).0)
                                && m[*it.seq()[j].0] == *it.seq()[j].1,
                        forall|k: u128| #[trigger] m.contains_key(k) ==> it.seq().contains((&k, &m[k])),
                        forall|k: u128| #[trigger]
                            updated@.contains_key(k) ==> m.contains_key(k) && updated@[k]@ == target[k],
                        forall|k: u128| #[trigger]
                            m.contains_key(k) ==> updated@.contains_key(k) || (exists|j: int|
                                it.index() <= j < it.seq().len() && #[trigger] it.seq()[j] == (&k, &m[k])),
                {
                    let ghost idx = it.index();
                    let (k, rec) = kv;
                    let out = strip_record(rec, &uuid);
                    proof {
                        assert(m.contains_key(*k));
                        assert(target.contains_key(*k));
                        assert(out@ == target[*k]);
                    }
                    updated.insert(*k, out);
                    proof {
                        assert forall|k2: u128| #[trigger] m.contains_key(k2) implies updated@.contains_key(k2)
                            || (exists|j: int|
                            idx + 1 <= j < it.seq().len() && #[trigger] it.seq()[j] == (&k2, &m[k2])) by {
                            if !updated@.contains_key(k2) {
                                let j = choose|j: int|
                                    idx <= j < it.seq().len() && #[trigger] it.seq()[j] == (&k2, &m[k2]);
                                assert(j != idx);
                            }
                        }
                    }
                }
                self.db = updated;
                proof {
                    assert(self.records() =~= target);
                }
                Ok(())
            },
        }
    }

    /// Replaces what is stored under `uuid` by the posted lyric;
    /// `NotFound`, and nothing changed, where nothing is stored there.
    pub fn lyric_put(&mut self, uuid: Uuid, lyric_post: LyricPost) -> (r: Result<Lyric, MemoryDbError>)
        ensures
            old(self).records().contains_key(uuid.0) ==> (r matches Ok(l) && l.id == uuid && l.title@
                == lyric_post.title@ && l.parts.deep_view() == lyric_post.parts.deep_view()
                && final(self).records() == old(self).records().insert(uuid.0, RecordView::Lyric(lyric_post@))),
            !old(self).records().contains_key(uuid.0) ==> r is Err && r->Err_0 is NotFound
                && final(self).records() == old(self).records(),
    {
        if !self.db.contains_key(&uuid.0) {
            return Err(MemoryDbError::NotFound);
        }
        let stored = Record::Lyric(lyric_post.clone());
        self.db.insert(uuid.0, stored);
        proof {
            assert(self.records() =~= old(self).records().insert(uuid.0, RecordView::Lyric(lyric_post@)));
        }
        Ok(Lyric { id: uuid, title: lyric_post.title, parts: lyric_post.parts })
    }

    /// The playlist stored under `uuid`; `NotFound` where there is none, or a
    /// lyric is stored there.
    pub fn playlist_item(&self, uuid: Uuid) -> (r: Result<Playlist, MemoryDbError>)
        ensures
            match r {
                Ok(p) => self.records().contains_key(uuid.0) && self.records()[uuid.0]
                    == RecordView::Playlist(PlaylistPostView { title: p.title@, members: p.members@ })
                    && p.id == uuid,
                Err(e) => e is NotFound && !(self.records().contains_key(uuid.0)
                    && self.records()[uuid.0] is Playlist),
            },
    {
        match self.db.get(&uuid.0) {
            Some(Record::Playlist(post)) => Ok(
                Playlist { id: uuid, title: post.title.clone(), members: crate::model::clone_ids(&post.members) },
            ),
            _ => Err(MemoryDbError::NotFound),
        }
    }

    /// Stores a posted playlist under `uuid`.  Where `uuid` was taken
    /// already, the new playlist still replaces what was there, and the
    /// answer is `Occupied`.
    pub fn playlist_post_at(&mut self, uuid: Uuid, playlist_post: PlaylistPost) -> (r: Result<
        Playlist,
        MemoryDbError,
    >)
        ensures
            final(self).records() == old(self).records().insert(uuid.0, RecordView::Playlist(playlist_post@)),
            r is Ok <==> !old(self).records().contains_key(uuid.0),
            r matches Ok(p) ==> p.id == uuid && p.title@ == playlist_post.title@ && p.members@
                == playlist_post.members@,
            r matches Err(e) ==> e is Occupied,
    {
        let stored = Record::Playlist(playlist_post.clone());
        let previous = self.db.insert(uuid.0, stored);
        proof {
            assert(self.records() =~= old(self).records().insert(uuid.0, RecordView::Playlist(playlist_post@)));
        }
        match previous {
            Some(_) => Err(MemoryDbError::Occupied),
            None => Ok(Playlist { id: uuid, title: playlist_post.title, members: playlist_post.members }),
        }
    }

    /// Stores a posted playlist under a new random (version 4) identifier,
    /// as `playlist_post_at` does.
    pub fn playlist_post(&mut self, playlist_post: PlaylistPost) -> (r: Result<Playlist, MemoryDbError>)
        ensures
            match r {
                Ok(p) => is_v4(p.id.0) && !old(self).records().contains_key(p.id.0) && final(self).records() == old(self).records().insert(p.id.0, RecordView::Playlist(playlist_post@))
                    && p.title@ == playlist_post.title@ && p.members@ == playlist_post.members@,
                Err(e) => e is Occupied && exists|k: u128|
                    is_v4(k) && old(self).records().contains_key(k) && final(self).records() == old(
                        self,
                    ).records().insert(k, RecordView::Playlist(playlist_post@)),
            },
    {
        let uuid = Uuid::new_v4();
        let r = self.playlist_post_at(uuid, playlist_post);
        proof {
            if r is Err {
                assert(is_v4(uuid.0) && old(self).records().contains_key(uuid.0));
            }
        }
        r
    }

    /// Deletes what is stored under `uuid`; `NotFound` where nothing is.
    pub fn playlist_delete(&mut self, uuid: Uuid) -> (r: Result<(), MemoryDbError>)
        ensures
            final(self).records() == old(self).records().remove(uuid.0),
            r is Ok <==> old(self).records().contains_key(uuid.0),
            r matches Err(e) ==> e is NotFound,
    {
        let removed = self.db.remove(&uuid.0);
        proof {
            assert(self.records() =~= old(self).records().remove(uuid.0));
        }
        match removed {
            Some(_) => Ok(()),
            None => Err(MemoryDbError::NotFound),
        }
    }

    /// Replaces what is stored under `uuid` by the posted playlist, where
    /// something is stored there; answers the playlist either way.
    pub fn playlist_put(&mut self, uuid: Uuid, playlist_post: PlaylistPost) -> (r: Result<Playlist, MemoryDbError>)
        ensures
            r matches Ok(p) && p.id == uuid && p.title@ == playlist_post.title@ && p.members@
                == playlist_post.members@,
            final(self).records() == if old(self).records().contains_key(uuid.0) {
                old(self).records().insert(uuid.0, RecordView::Playlist(playlist_post@))
            } else {
                old(self).records()
            },
    {
        if self.db.contains_key(&uuid.0) {
            let stored = Record::Playlist(playlist_post.clone());
            self.db.insert(uuid.0, stored);
            proof {
                assert(self.records() =~= old(self).records().insert(uuid.0, RecordView::Playlist(playlist_post@)));
            }
        }
        Ok(Playlist { id: uuid, title: playlist_post.title, members: playlist_post.members })
    }
}

impl Default for InMemoryDb {
    /// An empty store.
    fn default() -> (db: InMemoryDb)
        ensures
            db.records() == Map::<u128, RecordView>::empty(),
    {
        InMemoryDb::new()
    }
}

/// Law: after lyric `id` is deleted from the in-memory store, nothing is
/// stored under `id` and no playlist lists `id`.
pub proof fn law_memory_deleted_lyric_in_no_playlist(records: Map<u128, RecordView>, id: Uuid)
    ensures
        !after_lyric_delete(records, id).contains_key(id.0),
        forall|k: u128|
            #[trigger] after_lyric_delete(records, id).contains_key(k) && after_lyric_delete(
                records,
                id,
            )[k] is Playlist ==> !after_lyric_delete(records, id)[k]->Playlist_0.members.contains(id),
{
    let after = after_lyric_delete(records, id);
    assert forall|k: u128|
        #[trigger] after.contains_key(k) && after[k] is Playlist implies !after[k]->Playlist_0.members.contains(
        id,
    ) by {
        let ms = after[k]->Playlist_0.members;
        if ms.contains(id) {
            let i = choose|i: int| 0 <= i < ms.len() && ms[i] == id;
            crate::db::lemma_without_uuid(records[k]->Playlist_0.members, id, i);
        }
    }
}

/// Law: a lyric or playlist stored under an identifier (by posting or
/// putting) is what is read back under it, until it is deleted.
pub proof fn law_memory_read_after_write(records: Map<u128, RecordView>, k: u128, r: RecordView)
    ensures
        records.insert(k, r).contains_key(k),
        records.insert(k, r)[k] == r,
        !records.insert(k, r).remove(k).contains_key(k),
{
}

} // verus!
