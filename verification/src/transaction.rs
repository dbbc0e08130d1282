//! Changes to a store, as they are logged: which requests change the store,
//! the change that each makes, and replaying logged changes on a store.
use vstd::prelude::*;

use crate::db::{remove_from_all, valid_members, without_member, RepoWrapper};
use crate::error::ModelError;
use crate::model::{Lyric, LyricView, Playlist, PlaylistView};
use crate::uuid::{uuid_text, Uuid};

verus! {

/// A change to a store.
#[derive(Debug)]
pub enum Transaction {
    LyricDelete(Uuid),
    LyricUpsert(Lyric),
    PlaylistDelete(Uuid),
    PlaylistUpsert(Playlist),
}

/// A change as a value.
pub enum TransactionView {
    LyricDelete(Uuid),
    LyricUpsert(LyricView),
    PlaylistDelete(Uuid),
    PlaylistUpsert(PlaylistView),
}

impl View for Transaction {
    type V = TransactionView;

    open spec fn view(&self) -> TransactionView {
        match self {
            Transaction::LyricDelete(id) => TransactionView::LyricDelete(*id),
            Transaction::LyricUpsert(l) => TransactionView::LyricUpsert(l@),
            Transaction::PlaylistDelete(id) => TransactionView::PlaylistDelete(*id),
            Transaction::PlaylistUpsert(p) => TransactionView::PlaylistUpsert(p@),
        }
    }
}

/// A request to a store.
#[derive(Debug)]
pub enum RequestNew {
    LyricSummaries,
    LyricList,
    LyricItem(Uuid),
    LyricDelete(Uuid),
    LyricPost(Lyric),
    PlaylistSummaries,
    PlaylistList,
    PlaylistItem(Uuid),
    PlaylistDelete(Uuid),
    PlaylistPost(Playlist),
}

/// The change that a request makes, if it makes one: deleting and posting
/// do; listing and reading do not.
pub open spec fn change_of(r: &RequestNew) -> Option<TransactionView> {
    match r {
        RequestNew::LyricDelete(id) => Some(TransactionView::LyricDelete(*id)),
        RequestNew::LyricPost(l) => Some(TransactionView::LyricUpsert(l@)),
        RequestNew::PlaylistDelete(id) => Some(TransactionView::PlaylistDelete(*id)),
        RequestNew::PlaylistPost(p) => Some(TransactionView::PlaylistUpsert(p@)),
        _ => None,
    }
}

/// The change that a request makes, to be logged, if it makes one.
pub fn optional_transaction(request: &RequestNew) -> (r: Option<Transaction>)
    ensures
        match r {
            Some(t) => change_of(request) == Some(t@),
            None => change_of(request) is None,
        },
{
    match request {
        RequestNew::LyricDelete(id) => Some(Transaction::LyricDelete(*id)),
        RequestNew::LyricPost(l) => Some(Transaction::LyricUpsert(l.clone())),
        RequestNew::PlaylistDelete(id) => Some(Transaction::PlaylistDelete(*id)),
        RequestNew::PlaylistPost(p) => Some(Transaction::PlaylistUpsert(p.clone())),
        _ => None,
    }
}

/// The lyrics and playlists of a store after one change, and the
/// identifier that the change did not find, if any.  Deleting a lyric that
/// is not there still takes it out of every playlist; storing an item
/// replaces one that is there, and a stored playlist keeps only its members
/// that are stored lyrics.
pub open spec fn apply_change(
    lyrics: Map<u128, LyricView>,
    playlists: Map<u128, PlaylistView>,
    t: TransactionView,
) -> (Map<u128, LyricView>, Map<u128, PlaylistView>, Option<Uuid>) {
    match t {
        TransactionView::LyricDelete(id) => (
            lyrics.remove(id.0),
            remove_from_all(playlists, id),
            if lyrics.contains_key(id.0) {
                None
            } else {
                Some(id)
            },
        ),
        TransactionView::LyricUpsert(l) => if lyrics.contains_key(l.id.0) {
            (lyrics.insert(l.id.0, l), playlists, None)
        } else {
            (lyrics, playlists, Some(l.id))
        },
        TransactionView::PlaylistDelete(id) => (
            lyrics,
            playlists.remove(id.0),
            if playlists.contains_key(id.0) {
                None
            } else {
                Some(id)
            },
        ),
        TransactionView::PlaylistUpsert(p) => if playlists.contains_key(p.id.0) {
            (
                lyrics,
                playlists.insert(p.id.0, PlaylistView { members: valid_members(p.members, lyrics), ..p }),
                None,
            )
        } else {
            (lyrics, playlists, Some(p.id))
        },
    }
}

/// The store after replaying `ts` in order, up to and including the first
/// change that does not find its item, and that item's identifier.
pub open spec fn replay_changes(
    lyrics: Map<u128, LyricView>,
    playlists: Map<u128, PlaylistView>,
    ts: Seq<TransactionView>,
) -> (Map<u128, LyricView>, Map<u128, PlaylistView>, Option<Uuid>)
    decreases ts.len(),
{
    if ts.len() == 0 {
        (lyrics, playlists, None)
    } else {
        let (l2, p2, missing) = apply_change(lyrics, playlists, ts[0]);
        match missing {
            None => replay_changes(l2, p2, ts.drop_first()),
            Some(id) => (l2, p2, Some(id)),
        }
    }
}

/// Replays logged changes on a store, in order, and stops at the first
/// change that does not find its item, answering `NoKey` with its
/// identifier.
pub fn replay(repo: &mut RepoWrapper, ts: Vec<Transaction>) -> (r: Result<(), ModelError>)
    requires
        old(repo).db().wf(),
    ensures
        final(repo).db().wf(),
        ({
            let (l, p, missing) = replay_changes(
                old(repo).db().lyric_map(),
                old(repo).db().playlist_map(),
                ts@.map_values(|t: Transaction| t@),
            );
            &&& final(repo).db().lyric_map() == l
            &&& final(repo).db().playlist_map() == p
            &&& match missing {
                None => r is Ok,
                Some(id) => r matches Err(ModelError::NoKey(s)) && s@ == uuid_text(id.0),
            }
        }),
{
    let ghost tv = ts@.map_values(|t: Transaction| t@);
    let ghost n = tv.len();
    proof {
        assert(tv.subrange(0, n as int) =~= tv);
    }
    for t in it: ts
        invariant
            tv == it.seq().map_values(|t: Transaction| t@),
            n == tv.len(),
            repo.db().wf(),
            replay_changes(old(repo).db().lyric_map(), old(repo).db().playlist_map(), tv)
                == replay_changes(
                repo.db().lyric_map(),
                repo.db().playlist_map(),
                tv.subrange(it.index() as int, n as int),
            ),
    {
        let ghost k = it.index();
        let ghost rest = tv.subrange(k as int, n as int);
        let ghost lm = repo.db().lyric_map();
        let ghost pm = repo.db().playlist_map();
        proof {
            assert(rest.drop_first() =~= tv.subrange(k + 1, n as int));
            assert(rest[0] == t@);
        }
        let done = match t {
            Transaction::LyricDelete(id) => repo.delete_lyric(id),
            Transaction::LyricUpsert(lyric) => match repo.upsert_lyric(lyric) {
                Ok(_) => Ok(()),
                Err(e) => Err(e),
            },
            Transaction::PlaylistDelete(id) => repo.delete_playlist(id),
            Transaction::PlaylistUpsert(playlist) => match repo.upsert_playlist(playlist) {
                Ok(_) => Ok(()),
                Err(e) => Err(e),
            },
        };
        proof {
            let (l2, p2, missing) = apply_change(lm, pm, t@);
            assert(repo.db().lyric_map() == l2);
            assert(repo.db().playlist_map() == p2);
            assert(done is Ok <==> missing is None);
        }
        if done.is_err() {
            return done;
        }
    }
    proof {
        assert(tv.subrange(n as int, n as int) =~= Seq::<TransactionView>::empty());
    }
    Ok(())
}

proof fn lemma_replay_single(
    lyrics: Map<u128, LyricView>,
    playlists: Map<u128, PlaylistView>,
    t: TransactionView,
)
    ensures
        replay_changes(lyrics, playlists, seq![t]) == apply_change(lyrics, playlists, t),
{
    let ts = seq![t];
    assert(ts[0] == t);
    assert(ts.drop_first() =~= Seq::<TransactionView>::empty());
    let (l2, p2, m) = apply_change(lyrics, playlists, t);
    assert(replay_changes(l2, p2, Seq::<TransactionView>::empty()) == (l2, p2, None::<Uuid>));
}

/// Law: replaying a single change does what the change says.  An update of
/// a stored lyric leaves that lyric stored and nothing else changed; an
/// update of a missing lyric changes nothing and names it; deleting a lyric
/// removes it and takes it out of every playlist; deleting a playlist
/// removes it; an update of a stored playlist stores it with its stored
/// lyrics as members.
pub proof fn law_replay_one_change(
    lyrics: Map<u128, LyricView>,
    playlists: Map<u128, PlaylistView>,
    l: LyricView,
    p: PlaylistView,
    id: Uuid,
)
    ensures
        ({
            let (l2, p2, missing) = replay_changes(lyrics, playlists, seq![TransactionView::LyricUpsert(l)]);
            &&& lyrics.contains_key(l.id.0) ==> missing is None && l2.contains_key(l.id.0) && l2[l.id.0]
                == l && (forall|k: u128| k != l.id.0 ==> l2.contains_key(k) == lyrics.contains_key(k)
                && (#[trigger] l2[k] == lyrics[k] || !lyrics.contains_key(k))) && p2 == playlists
            &&& !lyrics.contains_key(l.id.0) ==> missing == Some(l.id) && l2 == lyrics && p2 == playlists
        }),
        ({
            let (l2, p2, missing) = replay_changes(lyrics, playlists, seq![TransactionView::LyricDelete(id)]);
            &&& !l2.contains_key(id.0)
            &&& (missing is None) == lyrics.contains_key(id.0)
            &&& forall|k: u128| #[trigger] p2.contains_key(k) ==> playlists.contains_key(k) && !p2[k].members.contains(id)
        }),
        ({
            let (l2, p2, missing) = replay_changes(lyrics, playlists, seq![TransactionView::PlaylistDelete(id)]);
            &&& !p2.contains_key(id.0) && l2 == lyrics
            &&& (missing is None) == playlists.contains_key(id.0)
        }),
        ({
            let (l2, p2, missing) = replay_changes(lyrics, playlists, seq![TransactionView::PlaylistUpsert(p)]);
            &&& playlists.contains_key(p.id.0) ==> missing is None && p2.contains_key(p.id.0) && p2[p.id.0].id
                == p.id && p2[p.id.0].title == p.title && (forall|i: int|
                0 <= i < p2[p.id.0].members.len() ==> lyrics.contains_key(
                    (#[trigger] p2[p.id.0].members[i]).0,
                ) && p.members.contains(p2[p.id.0].members[i])) && l2 == lyrics
            &&& !playlists.contains_key(p.id.0) ==> missing == Some(p.id) && p2 == playlists
        }),
{
    lemma_replay_single(lyrics, playlists, TransactionView::LyricUpsert(l));
    lemma_replay_single(lyrics, playlists, TransactionView::LyricDelete(id));
    lemma_replay_single(lyrics, playlists, TransactionView::PlaylistDelete(id));
    lemma_replay_single(lyrics, playlists, TransactionView::PlaylistUpsert(p));
    let (l2, p2, missing) = replay_changes(lyrics, playlists, seq![TransactionView::LyricDelete(id)]);
    assert forall|k: u128| #[trigger] p2.contains_key(k) implies playlists.contains_key(k)
        && !p2[k].members.contains(id) by {
        assert(p2 == remove_from_all(playlists, id));
        assert(p2[k] == without_member(playlists[k], id));
        if p2[k].members.contains(id) {
            let i = choose|i: int| 0 <= i < p2[k].members.len() && p2[k].members[i] == id;
            crate::db::lemma_without_uuid(playlists[k].members, id, i);
        }
    }
    if playlists.contains_key(p.id.0) {
        let stored = valid_members(p.members, lyrics);
        assert forall|i: int| 0 <= i < stored.len() implies lyrics.contains_key((#[trigger] stored[i]).0)
            && p.members.contains(stored[i]) by {
            crate::db::lemma_valid_members(p.members, lyrics, i);
            p.members.lemma_filter_contains_rev(crate::db::stored_in(lyrics), stored[i]);
            assert(p.members.filter(crate::db::stored_in(lyrics)).contains(stored[i]));
        }
    }
}

/// Law: replaying two logs one after the other is replaying them joined,
/// where the first finds every item.
pub proof fn law_replay_concat(
    lyrics: Map<u128, LyricView>,
    playlists: Map<u128, PlaylistView>,
    ts1: Seq<TransactionView>,
    ts2: Seq<TransactionView>,
)
    requires
        replay_changes(lyrics, playlists, ts1).2 is None,
    ensures
        replay_changes(lyrics, playlists, ts1 + ts2) == replay_changes(
            replay_changes(lyrics, playlists, ts1).0,
            replay_changes(lyrics, playlists, ts1).1,
            ts2,
        ),
    decreases ts1.len(),
{
    if ts1.len() == 0 {
        assert(ts1 + ts2 =~= ts2);
    } else {
        let (l2, p2, m) = apply_change(lyrics, playlists, ts1[0]);
        assert((ts1 + ts2)[0] == ts1[0]);
        assert((ts1 + ts2).drop_first() =~= ts1.drop_first() + ts2);
        law_replay_concat(l2, p2, ts1.drop_first(), ts2);
    }
}

} // verus!
