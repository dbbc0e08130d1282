//! An in-memory database of lyrics and playlists, keyed by identifier, in
//! which every member of a playlist is a stored lyric.
use std::collections::HashMap;
use std::path::PathBuf;
use vstd::prelude::*;

use crate::error::ModelError;
use crate::model::{
    to_summaries, HasSummary, Lyric, LyricPost, LyricView, Playlist, PlaylistPost, PlaylistView,
    Summary,
};
use crate::uuid::{is_v4, uuid_text, Uuid};

verus! {

broadcast use vstd::std_specs::hash::group_hash_axioms;

/// A file system path, carried opaquely.
#[verifier::external_type_specification]
#[verifier::external_body]
pub struct ExPathBuf(PathBuf);

/// An item read from storage.
pub enum DataType {
    Lyric(Lyric),
    Playlist(Playlist),
}

/// Lyrics and playlists by identifier.
pub struct Db {
    lyrics: HashMap<u128, Lyric>,
    playlists: HashMap<u128, Playlist>,
    path: PathBuf,
    files: Vec<PathBuf>,
}

/// `s` without the identifiers equal to `id`, in order.
pub open spec fn without_uuid(s: Seq<Uuid>, id: Uuid) -> Seq<Uuid> {
    s.filter(other_than(id))
}

/// The test for an identifier other than `id`.
pub open spec fn other_than(id: Uuid) -> spec_fn(Uuid) -> bool {
    |m: Uuid| m != id
}

/// The test for an identifier of a stored lyric.
pub open spec fn stored_in(lyrics: Map<u128, LyricView>) -> spec_fn(Uuid) -> bool {
    |m: Uuid| lyrics.contains_key(m.0)
}

/// `p` without the members equal to `id`.
pub open spec fn without_member(p: PlaylistView, id: Uuid) -> PlaylistView {
    PlaylistView { members: without_uuid(p.members, id), ..p }
}

/// Every playlist without the members equal to `id`.
pub open spec fn remove_from_all(playlists: Map<u128, PlaylistView>, id: Uuid) -> Map<
    u128,
    PlaylistView,
> {
    playlists.map_values(|p: PlaylistView| without_member(p, id))
}

/// The members of `members` that are keys of `lyrics`, in order.
pub open spec fn valid_members(members: Seq<Uuid>, lyrics: Map<u128, LyricView>) -> Seq<Uuid> {
    members.filter(stored_in(lyrics))
}

impl Db {
    /// The lyrics, by identifier value.
    pub closed spec fn lyric_map(&self) -> Map<u128, LyricView> {
        self.lyrics@.map_values(|l: Lyric| l@)
    }

    /// The playlists, by identifier value.
    pub closed spec fn playlist_map(&self) -> Map<u128, PlaylistView> {
        self.playlists@.map_values(|p: Playlist| p@)
    }

    /// The storage path.
    pub closed spec fn storage_path(&self) -> PathBuf {
        self.path
    }

    /// The files read so far.
    pub closed spec fn read_files(&self) -> Seq<PathBuf> {
        self.files@
    }

    /// Every item is stored under its own identifier, and every member of a
    /// playlist is a stored lyric.
    pub open spec fn wf(&self) -> bool {
        &&& forall|k: u128| #[trigger]
            self.lyric_map().contains_key(k) ==> self.lyric_map()[k].id.0 == k
        &&& forall|k: u128| #[trigger]
            self.playlist_map().contains_key(k) ==> self.playlist_map()[k].id.0 == k
        &&& forall|k: u128, i: int| #[trigger]
            self.playlist_map().contains_key(k) && 0 <= i < self.playlist_map()[k].members.len()
                ==> self.lyric_map().contains_key(
                #[trigger] self.playlist_map()[k].members[i].0,
            )
    }

    /// An empty database for the storage at `path`.
    pub fn new(path: PathBuf) -> (db: Db)
        ensures
            db.wf(),
            db.lyric_map() == Map::<u128, LyricView>::empty(),
            db.playlist_map() == Map::<u128, PlaylistView>::empty(),
            db.storage_path() == path,
            db.read_files() == Seq::<PathBuf>::empty(),
    {
        let db = Db {
            lyrics: HashMap::new(),
            playlists: HashMap::new(),
            path,
            files: Vec::new(),
        };
        proof {
            assert(db.lyric_map() =~= Map::<u128, LyricView>::empty());
            assert(db.playlist_map() =~= Map::<u128, PlaylistView>::empty());
        }
        db
    }

    /// The storage path.
    pub fn path(&self) -> (p: &PathBuf)
        ensures
            *p == self.storage_path(),
    {
        &self.path
    }

    /// The files this database was read from.
    pub fn files(&self) -> (f: &Vec<PathBuf>)
        ensures
            f@ == self.read_files(),
    {
        &self.files
    }

    /// Records a file this database was read from.
    pub fn record_file(&mut self, file: PathBuf)
        requires
            old(self).wf(),
        ensures
            final(self).wf(),
            final(self).lyric_map() == old(self).lyric_map(),
            final(self).playlist_map() == old(self).playlist_map(),
            final(self).read_files() == old(self).read_files().push(file),
            final(self).storage_path() == old(self).storage_path(),
    {
        self.files.push(file);
        proof {
            assert(self.lyric_map() == old(self).lyric_map());
            assert(self.playlist_map() == old(self).playlist_map());
        }
    }

    /// All lyrics, each once, in no particular order.
    pub fn get_lyric_list(&self) -> (r: Vec<Lyric>)
        requires
            self.wf(),
        ensures
            r@.len() == self.lyric_map().dom().len(),
            forall|i: int|
                0 <= i < r@.len() ==> self.lyric_map().contains_key((#[trigger] r@[i]).id.0)
                    && r@[i]@ == self.lyric_map()[r@[i].id.0],
            forall|k: u128| #[trigger]
                self.lyric_map().contains_key(k) ==> exists|i: int|
                    0 <= i < r@.len() && (#[trigger] r@[i]).id.0 == k,
    {
        let mut r: Vec<Lyric> = Vec::new();
        let ghost m = self.lyrics@;
        proof {
            assert(self.lyric_map().dom() =~= m.dom());
        }
        for kv in it: self.lyrics.iter()
            invariant
                m == self.lyrics@,
                self.wf(),
                it.seq().len() == m.dom().len(),
                forall|j: int|
                    0 <= j < it.seq().len() ==> m.contains_key(*(#[trigger] it.seq()[j]).0)
                        && m[*it.seq()[j].0] == *it.seq()[j].1,
                forall|k: u128| #[trigger] m.contains_key(k) ==> it.seq().contains((&k, &m[k])),
                r@.len() == it.index(),
                r@.len() <= m.dom().len(),
                forall|j: int|
                    0 <= j < r@.len() ==> self.lyric_map().contains_key((#[trigger] r@[j]).id.0)
                        && r@[j]@ == self.lyric_map()[r@[j].id.0],
                forall|k: u128| #[trigger]
                    m.contains_key(k) ==> (exists|j: int| 0 <= j < r@.len() && (#[trigger] r@[j]).id.0 == k)
                        || (exists|j: int|
                        it.index() <= j < it.seq().len() && #[trigger] it.seq()[j] == (&k, &m[k])),
        {
            let ghost idx = it.index();
            proof {
                let k = *it.seq()[idx].0;
                assert(m.contains_key(k));
                assert(self.lyric_map().contains_key(k));
            }
            let ghost old_r = r@;
            r.push(kv.1.clone());
            proof {
                assert(r@[idx]@ == (*it.seq()[idx].1)@);
                assert forall|k: u128| #[trigger] m.contains_key(k) implies (exists|j: int|
                    0 <= j < r@.len() && (#[trigger] r@[j]).id.0 == k) || (exists|j: int|
                    idx + 1 <= j < it.seq().len() && #[trigger] it.seq()[j] == (&k, &m[k])) by {
                    if exists|j: int| 0 <= j < old_r.len() && (#[trigger] old_r[j]).id.0 == k {
                        let j = choose|j: int| 0 <= j < old_r.len() && (#[trigger] old_r[j]).id.0 == k;
                        assert(r@[j] == old_r[j]);
                    } else {
                        let j = choose|j: int|
                            idx <= j < it.seq().len() && #[trigger] it.seq()[j] == (&k, &m[k]);
                        if j == idx {
                            assert(self.lyric_map()[k].id.0 == k);
                            assert(r@[idx].id.0 == k);
                        }
                    }
                }
            }
        }
        r
    }

    /// The lyric with this identifier, if any.
    pub fn get_lyric(&self, id: &Uuid) -> (r: Option<Lyric>)
        requires
            self.wf(),
        ensures
            r is Some <==> self.lyric_map().contains_key(id.0),
            r matches Some(l) ==> l@ == self.lyric_map()[id.0],
    {
        match self.lyrics.get(&id.0) {
            Some(l) => Some(l.clone()),
            None => None,
        }
    }

    /// Stores a lyric under its identifier, replacing any lyric stored there.
    pub fn add_lyric(&mut self, lyric: &Lyric)
        requires
            old(self).wf(),
        ensures
            final(self).wf(),
            final(self).lyric_map() == old(self).lyric_map().insert(lyric.id.0, lyric@),
            final(self).playlist_map() == old(self).playlist_map(),
    {
        let l = lyric.clone();
        self.lyrics.insert(lyric.id.0, l);
        proof {
            assert(self.lyric_map() =~= old(self).lyric_map().insert(lyric.id.0, lyric@));
            assert(self.playlist_map() == old(self).playlist_map());
        }
    }

    /// Stores a posted lyric under a new random identifier, and returns it.
    pub fn add_lyric_post(&mut self, lyric_post: &LyricPost) -> (r: Lyric)
        requires
            old(self).wf(),
        ensures
            final(self).wf(),
            is_v4(r.id.0),
            r.title@ == lyric_post.title@,
            r.parts.deep_view() == lyric_post.parts.deep_view(),
            final(self).lyric_map() == old(self).lyric_map().insert(r.id.0, r@),
            final(self).playlist_map() == old(self).playlist_map(),
    {
        let post = lyric_post.clone();
        let lyric = Lyric { id: Uuid::new_v4(), title: post.title, parts: post.parts };
        self.add_lyric(&lyric);
        lyric
    }

    /// Removes a lyric from the members of every playlist.
    pub fn _remove_lyric_from_playlists(&mut self, lyric_id: &Uuid)
        requires
            old(self).wf(),
        ensures
            final(self).lyric_map() == old(self).lyric_map(),
            final(self).playlist_map() == remove_from_all(old(self).playlist_map(), *lyric_id),
            final(self).storage_path() == old(self).storage_path(),
            final(self).read_files() == old(self).read_files(),
    {
        let ghost m = self.playlists@;
        let ghost target = old(self).playlist_map().map_values(
            |p: PlaylistView| without_member(p, *lyric_id),
        );
        let mut updated: HashMap<u128, Playlist> = HashMap::new();
        for kv in it: self.playlists.iter()
            invariant
                m == self.playlists@,
                target == self.playlist_map().map_values(
                    |p: PlaylistView| without_member(p, *lyric_id),
                ),
                it.seq().len() == m.dom().len(),
                it.seq().no_duplicates(),
                forall|j: int|
                    0 <= j < it.seq().len() ==> m.contains_key(*(#[trigger] it.seq()[j]).0)
                        && m[*it.seq()[j].0] == *it.seq()[j].1,
                forall|k: u128| #[trigger] m.contains_key(k) ==> it.seq().contains((&k, &m[k])),
                forall|k: u128| #[trigger]
                    updated@.contains_key(k) ==> m.contains_key(k) && updated@[k]@ == target[k],
                forall|k: u128| #[trigger]
                    m.contains_key(k) ==> updated@.contains_key(k) || (exists|j: int|
                        it.index() <= j < it.seq().len() && #[trigger] it.seq()[j] == (&k, &m[k])),
        {
            let ghost idx = it.index();
            let (k, p) = kv;
            let members = without_id(&p.members, lyric_id);
            let q = Playlist { id: p.id, title: p.title.clone(), members };
            proof {
                assert(m.contains_key(*k));
                assert(self.playlist_map()[*k] == m[*k]@);
                assert(q@ == target[*k]);
            }
            updated.insert(*k, q);
            proof {
                assert forall|k2: u128| #[trigger] m.contains_key(k2) implies updated@.contains_key(k2)
                    || (exists|j: int|
                    idx + 1 <= j < it.seq().len() && #[trigger] it.seq()[j] == (&k2, &m[k2])) by {
                    if !updated@.contains_key(k2) {
                        let j = choose|j: int|
                            idx <= j < it.seq().len() && #[trigger] it.seq()[j] == (&k2, &m[k2]);
                        assert(j != idx);
                    }
                }
            }
        }
        self.playlists = updated;
        proof {
            assert(self.playlist_map() =~= target);
            assert(self.lyric_map() == old(self).lyric_map());
        }
    }
}

/// `members` without `id`, in order.
pub fn without_id(members: &Vec<Uuid>, id: &Uuid) -> (r: Vec<Uuid>)
    ensures
        r@ == without_uuid(members@, *id),
{
    let mut r: Vec<Uuid> = Vec::new();
    let mut i: usize = 0;
    while i < members.len()
        invariant
            i <= members@.len(),
            r@ == without_uuid(members@.take(i as int), *id),
        decreases members.len() - i,
    {
        proof {
            assert(members@.take(i + 1).drop_last() =~= members@.take(i as int));
            reveal_with_fuel(Seq::filter, 1);
        }
        if members[i].0 != id.0 {
            r.push(members[i]);
        }
        i = i + 1;
    }
    proof {
        assert(members@.take(members@.len() as int) =~= members@);
    }
    r
}

pub proof fn lemma_without_uuid(s: Seq<Uuid>, id: Uuid, i: int)
    requires
        0 <= i < without_uuid(s, id).len(),
    ensures
        without_uuid(s, id)[i] != id,
        s.contains(without_uuid(s, id)[i]),
{
    s.lemma_filter_pred(other_than(id), i);
    assert(s.filter(other_than(id)).contains(without_uuid(s, id)[i]));
    s.lemma_filter_contains_rev(other_than(id), without_uuid(s, id)[i]);
}

pub proof fn lemma_valid_members(s: Seq<Uuid>, lyrics: Map<u128, LyricView>, i: int)
    requires
        0 <= i < valid_members(s, lyrics).len(),
    ensures
        lyrics.contains_key(valid_members(s, lyrics)[i].0),
{
    s.lemma_filter_pred(stored_in(lyrics), i);
}

impl Db {
    /// Deletes a lyric and removes it from every playlist; an error when no
    /// lyric has this identifier (the playlists are cleaned all the same).
    pub fn delete_lyric(&mut self, id: &Uuid) -> (r: Result<(), ModelError>)
        requires
            old(self).wf(),
        ensures
            final(self).wf(),
            r is Ok <==> old(self).lyric_map().contains_key(id.0),
            r matches Err(e) ==> e matches ModelError::NoKey(s) && s@ == uuid_text(id.0),
            final(self).lyric_map() == old(self).lyric_map().remove(id.0),
            final(self).playlist_map() == remove_from_all(old(self).playlist_map(), *id),
    {
        self._remove_lyric_from_playlists(id);
        let removed = self.lyrics.remove(&id.0);
        proof {
            assert(self.lyric_map() =~= old(self).lyric_map().remove(id.0));
            let pm = self.playlist_map();
            let opm = old(self).playlist_map();
            assert forall|k: u128, i: int| #[trigger]
                pm.contains_key(k) && 0 <= i < pm[k].members.len()
                    implies self.lyric_map().contains_key(#[trigger] pm[k].members[i].0) by {
                lemma_without_uuid(opm[k].members, *id, i);
                let m = pm[k].members[i];
                let j = choose|j: int| 0 <= j < opm[k].members.len() && opm[k].members[j] == m;
                assert(old(self).lyric_map().contains_key(opm[k].members[j].0));
            }
        }
        match removed {
            Some(_) => Ok(()),
            None => Err(ModelError::NoKey(id.to_string())),
        }
    }

    /// Replaces the stored lyric with the same identifier; an error when
    /// there is none.
    pub fn update_lyric(&mut self, lyric: &Lyric) -> (r: Result<Lyric, ModelError>)
        requires
            old(self).wf(),
        ensures
            final(self).wf(),
            r is Ok <==> old(self).lyric_map().contains_key(lyric.id.0),
            r matches Ok(l) ==> l@ == lyric@,
            r matches Err(e) ==> e matches ModelError::NoKey(s) && s@ == uuid_text(lyric.id.0),
            final(self).lyric_map() == if r is Ok {
                old(self).lyric_map().insert(lyric.id.0, lyric@)
            } else {
                old(self).lyric_map()
            },
            final(self).playlist_map() == old(self).playlist_map(),
    {
        if self.lyrics.contains_key(&lyric.id.0) {
            self.add_lyric(lyric);
            Ok(lyric.clone())
        } else {
            Err(ModelError::NoKey(lyric.id.to_string()))
        }
    }

    /// All playlists, each once, in no particular order.
    pub fn get_playlist_list(&self) -> (r: Vec<Playlist>)
        requires
            self.wf(),
        ensures
            r@.len() == self.playlist_map().dom().len(),
            forall|i: int|
                0 <= i < r@.len() ==> self.playlist_map().contains_key((#[trigger] r@[i]).id.0)
                    && r@[i]@ == self.playlist_map()[r@[i].id.0],
            forall|k: u128| #[trigger]
                self.playlist_map().contains_key(k) ==> exists|i: int|
                    0 <= i < r@.len() && (#[trigger] r@[i]).id.0 == k,
    {
        let mut r: Vec<Playlist> = Vec::new();
        let ghost m = self.playlists@;
        proof {
            assert(self.playlist_map().dom() =~= m.dom());
        }
        for kv in it: self.playlists.iter()
            invariant
                m == self.playlists@,
                self.wf(),
                it.seq().len() == m.dom().len(),
                forall|j: int|
                    0 <= j < it.seq().len() ==> m.contains_key(*(#[trigger] it.seq()[j]).0)
                        && m[*it.seq()[j].0] == *it.seq()[j].1,
                forall|k: u128| #[trigger] m.contains_key(k) ==> it.seq().contains((&k, &m[k])),
                r@.len() == it.index(),
                r@.len() <= m.dom().len(),
                forall|j: int|
                    0 <= j < r@.len() ==> self.playlist_map().contains_key((#[trigger] r@[j]).id.0)
                        && r@[j]@ == self.playlist_map()[r@[j].id.0],
                forall|k: u128| #[trigger]
                    m.contains_key(k) ==> (exists|j: int| 0 <= j < r@.len() && (#[trigger] r@[j]).id.0 == k)
                        || (exists|j: int|
                        it.index() <= j < it.seq().len() && #[trigger] it.seq()[j] == (&k, &m[k])),
        {
            let ghost idx = it.index();
            proof {
                let k = *it.seq()[idx].0;
                assert(m.contains_key(k));
                assert(self.playlist_map().contains_key(k));
            }
            let ghost old_r = r@;
            r.push(kv.1.clone());
            proof {
                assert(r@[idx]@ == (*it.seq()[idx].1)@);
                assert forall|k: u128| #[trigger] m.contains_key(k) implies (exists|j: int|
                    0 <= j < r@.len() && (#[trigger] r@[j]).id.0 == k) || (exists|j: int|
                    idx + 1 <= j < it.seq().len() && #[trigger] it.seq()[j] == (&k, &m[k])) by {
                    if exists|j: int| 0 <= j < old_r.len() && (#[trigger] old_r[j]).id.0 == k {
                        let j = choose|j: int| 0 <= j < old_r.len() && (#[trigger] old_r[j]).id.0 == k;
                        assert(r@[j] == old_r[j]);
                    } else {
                        let j = choose|j: int|
                            idx <= j < it.seq().len() && #[trigger] it.seq()[j] == (&k, &m[k]);
                        if j == idx {
                            assert(self.playlist_map()[k].id.0 == k);
                            assert(r@[idx].id.0 == k);
                        }
                    }
                }
            }
        }
        r
    }

    /// The playlist with this identifier, if any.
    pub fn get_playlist(&self, uuid: &Uuid) -> (r: Option<Playlist>)
        requires
            self.wf(),
        ensures
            r is Some <==> self.playlist_map().contains_key(uuid.0),
            r matches Some(p) ==> p@ == self.playlist_map()[uuid.0],
    {
        match self.playlists.get(&uuid.0) {
            Some(p) => Some(p.clone()),
            None => None,
        }
    }

    /// The members that are stored lyrics, in order.
    pub fn _valid_members(&self, members: &[Uuid]) -> (r: Vec<Uuid>)
        requires
            self.wf(),
        ensures
            r@ == valid_members(members@, self.lyric_map()),
    {
        let ghost lm = self.lyric_map();
        let mut r: Vec<Uuid> = Vec::new();
        let mut i: usize = 0;
        while i < members.len()
            invariant
                i <= members@.len(),
                lm == self.lyric_map(),
                r@ == valid_members(members@.take(i as int), lm),
            decreases members.len() - i,
        {
            proof {
                assert(members@.take(i + 1).drop_last() =~= members@.take(i as int));
                reveal_with_fuel(Seq::filter, 1);
            }
            if self.lyrics.contains_key(&members[i].0) {
                r.push(members[i]);
            }
            i = i + 1;
        }
        proof {
            assert(members@.take(members@.len() as int) =~= members@);
        }
        r
    }

    /// Stores a playlist under its identifier, keeping only the members that
    /// are stored lyrics; the playlist passed in is changed in the same way.
    pub fn add_playlist(&mut self, playlist: &mut Playlist) -> (r: Playlist)
        requires
            old(self).wf(),
        ensures
            final(self).wf(),
            final(playlist)@ == (PlaylistView {
                members: valid_members(old(playlist).members@, old(self).lyric_map()),
                ..old(playlist)@
            }),
            r@ == final(playlist)@,
            final(self).playlist_map() == old(self).playlist_map().insert(
                old(playlist).id.0,
                final(playlist)@,
            ),
            final(self).lyric_map() == old(self).lyric_map(),
    {
        playlist.members = self._valid_members(playlist.members.as_slice());
        self.store_playlist(playlist);
        playlist.clone()
    }

    fn store_playlist(&mut self, playlist: &Playlist)
        requires
            old(self).wf(),
            forall|i: int|
                0 <= i < playlist.members@.len() ==> old(self).lyric_map().contains_key(
                    #[trigger] playlist.members@[i].0,
                ),
        ensures
            final(self).wf(),
            final(self).playlist_map() == old(self).playlist_map().insert(
                playlist.id.0,
                playlist@,
            ),
            final(self).lyric_map() == old(self).lyric_map(),
    {
        self.playlists.insert(playlist.id.0, playlist.clone());
        proof {
            assert(self.playlist_map() =~= old(self).playlist_map().insert(playlist.id.0, playlist@));
            assert(self.lyric_map() == old(self).lyric_map());
        }
    }

    /// Stores a posted playlist under a new random identifier, keeping only
    /// the members that are stored lyrics, and returns it.
    pub fn add_playlist_post(&mut self, playlist_post: &PlaylistPost) -> (r: Playlist)
        requires
            old(self).wf(),
        ensures
            final(self).wf(),
            is_v4(r.id.0),
            r.title@ == playlist_post.title@,
            r.members@ == valid_members(playlist_post.members@, old(self).lyric_map()),
            final(self).playlist_map() == old(self).playlist_map().insert(r.id.0, r@),
            final(self).lyric_map() == old(self).lyric_map(),
    {
        let members = self._valid_members(playlist_post.members.as_slice());
        let playlist = Playlist {
            id: Uuid::new_v4(),
            title: playlist_post.title.clone(),
            members,
        };
        proof {
            assert forall|i: int| 0 <= i < playlist.members@.len() implies old(self).lyric_map().contains_key(
                #[trigger] playlist.members@[i].0,
            ) by {
                lemma_valid_members(playlist_post.members@, old(self).lyric_map(), i);
            }
        }
        self.store_playlist(&playlist);
        playlist
    }

    /// Deletes a playlist; an error when no playlist has this identifier.
    pub fn delete_playlist(&mut self, id: &Uuid) -> (r: Result<(), ModelError>)
        requires
            old(self).wf(),
        ensures
            final(self).wf(),
            r is Ok <==> old(self).playlist_map().contains_key(id.0),
            r matches Err(e) ==> e matches ModelError::NoKey(s) && s@ == uuid_text(id.0),
            final(self).playlist_map() == old(self).playlist_map().remove(id.0),
            final(self).lyric_map() == old(self).lyric_map(),
    {
        let removed = self.playlists.remove(&id.0);
        proof {
            assert(self.playlist_map() =~= old(self).playlist_map().remove(id.0));
            assert(self.lyric_map() == old(self).lyric_map());
        }
        match removed {
            Some(_) => Ok(()),
            None => Err(ModelError::NoKey(id.to_string())),
        }
    }

    /// Replaces the stored playlist with the same identifier, keeping only
    /// the members that are stored lyrics; an error when there is none.
    pub fn update_playlist(&mut self, playlist_update: &Playlist) -> (r: Result<
        Playlist,
        ModelError,
    >)
        requires
            old(self).wf(),
        ensures
            final(self).wf(),
            r is Ok <==> old(self).playlist_map().contains_key(playlist_update.id.0),
            r matches Ok(p) ==> p@ == (PlaylistView {
                members: valid_members(playlist_update.members@, old(self).lyric_map()),
                ..playlist_update@
            }),
            r matches Err(e) ==> e matches ModelError::NoKey(s) && s@ == uuid_text(
                playlist_update.id.0,
            ),
            final(self).playlist_map() == match r {
                Ok(p) => old(self).playlist_map().insert(playlist_update.id.0, p@),
                Err(_) => old(self).playlist_map(),
            },
            final(self).lyric_map() == old(self).lyric_map(),
    {
        let mut playlist = playlist_update.clone();
        playlist.members = self._valid_members(playlist_update.members.as_slice());
        if self.playlists.contains_key(&playlist.id.0) {
            proof {
                assert forall|i: int| 0 <= i < playlist.members@.len() implies old(self).lyric_map().contains_key(
                    #[trigger] playlist.members@[i].0,
                ) by {
                    lemma_valid_members(playlist_update.members@, old(self).lyric_map(), i);
                }
            }
            self.store_playlist(&playlist);
            Ok(playlist)
        } else {
            Err(ModelError::NoKey(playlist.id.to_string()))
        }
    }

    /// Removes all lyrics and playlists.
    pub fn clear(&mut self)
        requires
            old(self).wf(),
        ensures
            final(self).wf(),
            final(self).lyric_map() == Map::<u128, LyricView>::empty(),
            final(self).playlist_map() == Map::<u128, PlaylistView>::empty(),
            final(self).storage_path() == old(self).storage_path(),
            final(self).read_files() == old(self).read_files(),
    {
        self.lyrics.clear();
        self.playlists.clear();
        proof {
            assert(self.lyric_map() =~= Map::<u128, LyricView>::empty());
            assert(self.playlist_map() =~= Map::<u128, PlaylistView>::empty());
        }
    }
}

/// Law: after a lyric is deleted, no playlist lists it.
pub proof fn law_deleted_lyric_in_no_playlist(playlists: Map<u128, PlaylistView>, id: Uuid)
    ensures
        forall|k: u128, i: int|
            remove_from_all(playlists, id).contains_key(k) && 0 <= i < remove_from_all(
                playlists,
                id,
            )[k].members.len() ==> #[trigger] remove_from_all(playlists, id)[k].members[i] != id,
{
    assert forall|k: u128, i: int|
        remove_from_all(playlists, id).contains_key(k) && 0 <= i < remove_from_all(
            playlists,
            id,
        )[k].members.len() implies #[trigger] remove_from_all(playlists, id)[k].members[i]
        != id by {
        lemma_without_uuid(playlists[k].members, id, i);
    }
}

/// Law: a lyric read back after it was stored is the lyric stored, and after
/// its deletion there is none (the maps `add_lyric`, `delete_lyric` and
/// `get_lyric` speak of).
pub proof fn law_lyric_read_after_write(lyrics: Map<u128, LyricView>, l: LyricView)
    ensures
        lyrics.insert(l.id.0, l).contains_key(l.id.0),
        lyrics.insert(l.id.0, l)[l.id.0] == l,
        !lyrics.insert(l.id.0, l).remove(l.id.0).contains_key(l.id.0),
{
}

/// Law: a playlist read back after it was stored is the playlist stored, with
/// only its members that are stored lyrics.
pub proof fn law_playlist_read_after_write(
    playlists: Map<u128, PlaylistView>,
    lyrics: Map<u128, LyricView>,
    p: PlaylistView,
)
    ensures
        ({
            let stored = PlaylistView { members: valid_members(p.members, lyrics), ..p };
            &&& playlists.insert(p.id.0, stored)[p.id.0] == stored
            &&& forall|i: int|
                0 <= i < stored.members.len() ==> lyrics.contains_key(
                    (#[trigger] stored.members[i]).0,
                )
        }),
{
    let stored = PlaylistView { members: valid_members(p.members, lyrics), ..p };
    assert forall|i: int| 0 <= i < stored.members.len() implies lyrics.contains_key(
        (#[trigger] stored.members[i]).0,
    ) by {
        lemma_valid_members(p.members, lyrics, i);
    }
}

/// A database behind the store interface: reads answer `NoKey` for missing
/// items, and storing replaces an item that is there.
pub struct RepoWrapper {
    inner: Db,
}

impl RepoWrapper {
    /// The database within.
    pub closed spec fn db(&self) -> Db {
        self.inner
    }

    /// An empty store for the storage at `path`.
    pub fn new(path: PathBuf) -> (r: RepoWrapper)
        ensures
            r.db().wf(),
            r.db().lyric_map() == Map::<u128, LyricView>::empty(),
            r.db().playlist_map() == Map::<u128, PlaylistView>::empty(),
            r.db().storage_path() == path,
            r.db().read_files() == Seq::<PathBuf>::empty(),
    {
        RepoWrapper { inner: Db::new(path) }
    }

    /// All lyrics, each once.
    pub fn get_lyrics(&self) -> (r: Result<Vec<Lyric>, ModelError>)
        requires
            self.db().wf(),
        ensures
            r matches Ok(v) && v@.len() == self.db().lyric_map().dom().len() && (forall|i: int|
                0 <= i < v@.len() ==> self.db().lyric_map().contains_key((#[trigger] v@[i]).id.0)
                    && v@[i]@ == self.db().lyric_map()[v@[i].id.0]) && (forall|k: u128| #[trigger]
                self.db().lyric_map().contains_key(k) ==> exists|i: int|
                    0 <= i < v@.len() && (#[trigger] v@[i]).id.0 == k),
    {
        let v = self.inner.get_lyric_list();
        proof {
            assert(self.db() == self.inner);
        }
        Ok(v)
    }

    /// The summaries of all lyrics, each once.
    pub fn get_lyric_summaries(&self) -> (r: Result<Vec<Summary>, ModelError>)
        requires
            self.db().wf(),
        ensures
            r matches Ok(v) && v@.len() == self.db().lyric_map().dom().len() && (forall|i: int|
                0 <= i < v@.len() ==> self.db().lyric_map().contains_key((#[trigger] v@[i]).id.0)
                    && v@[i].title@ == self.db().lyric_map()[v@[i].id.0].title) && (forall|k: u128|
                #[trigger] self.db().lyric_map().contains_key(k) ==> exists|i: int|
                    0 <= i < v@.len() && (#[trigger] v@[i]).id.0 == k),
    {
        let lyrics = self.inner.get_lyric_list();
        let ghost lv = lyrics@;
        let sums = to_summaries(lyrics);
        proof {
            assert forall|i: int| 0 <= i < sums@.len() implies self.db().lyric_map().contains_key(
                (#[trigger] sums@[i]).id.0,
            ) && sums@[i].title@ == self.db().lyric_map()[sums@[i].id.0].title by {
                assert(sums@[i]@ == lv[i].summary_view());
            }
            assert forall|k: u128| #[trigger] self.db().lyric_map().contains_key(k) implies exists|i: int|
                0 <= i < sums@.len() && (#[trigger] sums@[i]).id.0 == k by {
                let i = choose|i: int| 0 <= i < lv.len() && (#[trigger] lv[i]).id.0 == k;
                assert(sums@[i]@ == lv[i].summary_view());
            }
        }
        Ok(sums)
    }

    /// The lyric with this identifier; `NoKey` where there is none.
    pub fn get_lyric(&self, id: Uuid) -> (r: Result<Lyric, ModelError>)
        requires
            self.db().wf(),
        ensures
            r is Ok <==> self.db().lyric_map().contains_key(id.0),
            r matches Ok(l) ==> l@ == self.db().lyric_map()[id.0],
            r matches Err(e) ==> e matches ModelError::NoKey(s) && s@ == uuid_text(id.0),
    {
        match self.inner.get_lyric(&id) {
            Some(l) => Ok(l),
            None => Err(ModelError::NoKey(id.to_string())),
        }
    }

    /// Deletes a lyric and takes it out of every playlist; `NoKey` where
    /// there is none.
    pub fn delete_lyric(&mut self, id: Uuid) -> (r: Result<(), ModelError>)
        requires
            old(self).db().wf(),
        ensures
            final(self).db().wf(),
            r is Ok <==> old(self).db().lyric_map().contains_key(id.0),
            r matches Err(e) ==> e matches ModelError::NoKey(s) && s@ == uuid_text(id.0),
            final(self).db().lyric_map() == old(self).db().lyric_map().remove(id.0),
            final(self).db().playlist_map() == remove_from_all(old(self).db().playlist_map(), id),
    {
        self.inner.delete_lyric(&id)
    }

    /// Replaces the lyric with the lyric's identifier; `NoKey` where there
    /// is none.
    pub fn upsert_lyric(&mut self, lyric: Lyric) -> (r: Result<Lyric, ModelError>)
        requires
            old(self).db().wf(),
        ensures
            final(self).db().wf(),
            r is Ok <==> old(self).db().lyric_map().contains_key(lyric.id.0),
            r matches Ok(l) ==> l@ == lyric@,
            r matches Err(e) ==> e matches ModelError::NoKey(s) && s@ == uuid_text(lyric.id.0),
            final(self).db().lyric_map() == if r is Ok {
                old(self).db().lyric_map().insert(lyric.id.0, lyric@)
            } else {
                old(self).db().lyric_map()
            },
            final(self).db().playlist_map() == old(self).db().playlist_map(),
    {
        self.inner.update_lyric(&lyric)
    }

    /// All playlists, each once.
    pub fn get_playlists(&self) -> (r: Result<Vec<Playlist>, ModelError>)
        requires
            self.db().wf(),
        ensures
            r matches Ok(v) && v@.len() == self.db().playlist_map().dom().len() && (forall|i: int|
                0 <= i < v@.len() ==> self.db().playlist_map().contains_key((#[trigger] v@[i]).id.0)
                    && v@[i]@ == self.db().playlist_map()[v@[i].id.0]) && (forall|k: u128| #[trigger]
                self.db().playlist_map().contains_key(k) ==> exists|i: int|
                    0 <= i < v@.len() && (#[trigger] v@[i]).id.0 == k),
    {
        let v = self.inner.get_playlist_list();
        proof {
            assert(self.db() == self.inner);
        }
        Ok(v)
    }

    /// The summaries of all playlists, each once.
    pub fn get_playlist_summaries(&self) -> (r: Result<Vec<Summary>, ModelError>)
        requires
            self.db().wf(),
        ensures
            r matches Ok(v) && v@.len() == self.db().playlist_map().dom().len() && (forall|i: int|
                0 <= i < v@.len() ==> self.db().playlist_map().contains_key((#[trigger] v@[i]).id.0)
                    && v@[i].title@ == self.db().playlist_map()[v@[i].id.0].title) && (forall|k: u128|
                #[trigger] self.db().playlist_map().contains_key(k) ==> exists|i: int|
                    0 <= i < v@.len() && (#[trigger] v@[i]).id.0 == k),
    {
        let playlists = self.inner.get_playlist_list();
        let ghost pv = playlists@;
        let sums = to_summaries(playlists);
        proof {
            assert forall|i: int| 0 <= i < sums@.len() implies self.db().playlist_map().contains_key(
                (#[trigger] sums@[i]).id.0,
            ) && sums@[i].title@ == self.db().playlist_map()[sums@[i].id.0].title by {
                assert(sums@[i]@ == pv[i].summary_view());
            }
            assert forall|k: u128| #[trigger] self.db().playlist_map().contains_key(k) implies exists|i: int|
                0 <= i < sums@.len() && (#[trigger] sums@[i]).id.0 == k by {
                let i = choose|i: int| 0 <= i < pv.len() && (#[trigger] pv[i]).id.0 == k;
                assert(sums@[i]@ == pv[i].summary_view());
            }
        }
        Ok(sums)
    }

    /// The playlist with this identifier; `NoKey` where there is none.
    pub fn get_playlist(&self, id: Uuid) -> (r: Result<Playlist, ModelError>)
        requires
            self.db().wf(),
        ensures
            r is Ok <==> self.db().playlist_map().contains_key(id.0),
            r matches Ok(p) ==> p@ == self.db().playlist_map()[id.0],
            r matches Err(e) ==> e matches ModelError::NoKey(s) && s@ == uuid_text(id.0),
    {
        match self.inner.get_playlist(&id) {
            Some(p) => Ok(p),
            None => Err(ModelError::NoKey(id.to_string())),
        }
    }

    /// Deletes a playlist; `NoKey` where there is none.
    pub fn delete_playlist(&mut self, id: Uuid) -> (r: Result<(), ModelError>)
        requires
            old(self).db().wf(),
        ensures
            final(self).db().wf(),
            r is Ok <==> old(self).db().playlist_map().contains_key(id.0),
            r matches Err(e) ==> e matches ModelError::NoKey(s) && s@ == uuid_text(id.0),
            final(self).db().playlist_map() == old(self).db().playlist_map().remove(id.0),
            final(self).db().lyric_map() == old(self).db().lyric_map(),
    {
        self.inner.delete_playlist(&id)
    }

    /// Replaces the playlist with the playlist's identifier, keeping only the
    /// members that are stored lyrics; `NoKey` where there is none.
    pub fn upsert_playlist(&mut self, playlist: Playlist) -> (r: Result<Playlist, ModelError>)
        requires
            old(self).db().wf(),
        ensures
            final(self).db().wf(),
            r is Ok <==> old(self).db().playlist_map().contains_key(playlist.id.0),
            r matches Ok(p) ==> p@ == (PlaylistView {
                members: valid_members(playlist.members@, old(self).db().lyric_map()),
                ..playlist@
            }),
            r matches Err(e) ==> e matches ModelError::NoKey(s) && s@ == uuid_text(playlist.id.0),
            final(self).db().playlist_map() == match r {
                Ok(p) => old(self).db().playlist_map().insert(playlist.id.0, p@),
                Err(_) => old(self).db().playlist_map(),
            },
            final(self).db().lyric_map() == old(self).db().lyric_map(),
    {
        self.inner.update_playlist(&playlist)
    }

    /// Stops the store; there is nothing to stop.
    pub fn stop(&self) -> (r: Result<(), ModelError>)
        ensures
            r is Ok,
    {
        Ok(())
    }
}

} // verus!
