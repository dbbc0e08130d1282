//! The decisions of the file store: which playlist members are valid, what
//! deleting a lyric changes in the playlists, and what a store description
//! names.
use vstd::prelude::*;

use crate::db::{without_id, without_uuid};
use crate::error::ModelError;
use crate::model::{Playlist, PlaylistView};
use crate::uuid::{uuid_text, Uuid};

verus! {

/// Where a file store keeps its files.
#[derive(Debug)]
pub struct FileRepoConfig {
    pub path: String,
}

/// The index of the first member of `members` that is not in `ids`, if any.
pub open spec fn first_invalid(members: Seq<Uuid>, ids: Seq<Uuid>) -> Option<int> {
    if exists|i: int| 0 <= i < members.len() && !ids.contains(#[trigger] members[i]) {
        Some(
            choose|i: int|
                0 <= i < members.len() && !ids.contains(#[trigger] members[i]) && forall|j: int|
                    0 <= j < i ==> ids.contains(#[trigger] members[j]),
        )
    } else {
        None
    }
}

proof fn lemma_first_invalid(members: Seq<Uuid>, ids: Seq<Uuid>, k: int)
    requires
        0 <= k < members.len(),
        !ids.contains(members[k]),
        forall|j: int| 0 <= j < k ==> ids.contains(#[trigger] members[j]),
    ensures
        first_invalid(members, ids) == Some(k),
{
    let c = choose|i: int|
        0 <= i < members.len() && !ids.contains(#[trigger] members[i]) && forall|j: int|
            0 <= j < i ==> ids.contains(#[trigger] members[j]);
    assert(0 <= c < members.len() && !ids.contains(members[c]) && forall|j: int|
        0 <= j < c ==> ids.contains(#[trigger] members[j]));
    if c < k {
        assert(ids.contains(members[c]));
    }
    if k < c {
        assert(ids.contains(members[k]));
    }
}

/// Whether `id` is one of `ids`.
fn contains_id(ids: &[Uuid], id: &Uuid) -> (b: bool)
    ensures
        b == ids@.contains(*id),
{
    let mut i: usize = 0;
    while i < ids.len()
        invariant
            i <= ids@.len(),
            forall|j: int| 0 <= j < i ==> ids@[j] != *id,
        decreases ids.len() - i,
    {
        if ids[i].0 == id.0 {
            proof {
                assert(ids@[i as int] == *id);
            }
            return true;
        }
        i = i + 1;
    }
    false
}

/// Checks that every member of the playlist is one of the lyrics `lyric_ids`;
/// the first that is not is named in the error, with the playlist.
pub fn check_members(playlist: &Playlist, lyric_ids: &[Uuid]) -> (r: Result<(), ModelError>)
    ensures
        match first_invalid(playlist.members@, lyric_ids@) {
            None => r is Ok,
            Some(k) => r matches Err(ModelError::PlaylistInvalidMember(p, m)) && p@ == uuid_text(
                playlist.id.0,
            ) && m@ == uuid_text(playlist.members@[k].0),
        },
{
    let mut i: usize = 0;
    while i < playlist.members.len()
        invariant
            i <= playlist.members@.len(),
            forall|j: int| 0 <= j < i ==> lyric_ids@.contains(#[trigger] playlist.members@[j]),
        decreases playlist.members.len() - i,
    {
        if !contains_id(lyric_ids, &playlist.members[i]) {
            proof {
                lemma_first_invalid(playlist.members@, lyric_ids@, i as int);
            }
            return Err(
                ModelError::PlaylistInvalidMember(
                    playlist.id.to_string(),
                    playlist.members[i].to_string(),
                ),
            );
        }
        i = i + 1;
    }
    proof {
        assert(!(exists|i: int|
            0 <= i < playlist.members@.len() && !lyric_ids@.contains(#[trigger] playlist.members@[i])));
    }
    Ok(())
}

/// The playlists of `ps` that list `id`, each without `id`, in order.
pub open spec fn playlists_changed_by_delete(ps: Seq<PlaylistView>, id: Uuid) -> Seq<PlaylistView>
    decreases ps.len(),
{
    if ps.len() == 0 {
        Seq::<PlaylistView>::empty()
    } else {
        let rest = playlists_changed_by_delete(ps.drop_last(), id);
        let p = ps.last();
        if p.members.contains(id) {
            rest.push(PlaylistView { members: without_uuid(p.members, id), ..p })
        } else {
            rest
        }
    }
}

/// What deleting lyric `id` asks to write back: every playlist that lists
/// `id`, without it.  Playlists that do not list it are left alone.
pub fn playlists_after_lyric_delete(playlists: Vec<Playlist>, id: &Uuid) -> (r: Vec<Playlist>)
    ensures
        r@.map_values(|p: Playlist| p@) == playlists_changed_by_delete(
            playlists@.map_values(|p: Playlist| p@),
            *id,
        ),
{
    let ghost pv = playlists@.map_values(|p: Playlist| p@);
    let mut r: Vec<Playlist> = Vec::new();
    let mut i: usize = 0;
    proof {
        assert(pv.take(0) =~= Seq::<PlaylistView>::empty());
        assert(r@.map_values(|p: Playlist| p@) =~= Seq::<PlaylistView>::empty());
    }
    while i < playlists.len()
        invariant
            i <= playlists@.len(),
            pv == playlists@.map_values(|p: Playlist| p@),
            r@.map_values(|p: Playlist| p@) == playlists_changed_by_delete(pv.take(i as int), *id),
        decreases playlists.len() - i,
    {
        proof {
            assert(pv.take(i + 1).drop_last() =~= pv.take(i as int));
            assert(pv.take(i + 1).last() == playlists@[i as int]@);
        }
        let p = &playlists[i];
        if contains_id(p.members.as_slice(), id) {
            let q = Playlist { id: p.id, title: p.title.clone(), members: without_id(&p.members, id) };
            let ghost before = r@;
            r.push(q);
            proof {
                assert(r@.map_values(|p: Playlist| p@) =~= before.map_values(|p: Playlist| p@).push(
                    q@,
                ));
            }
        }
        i = i + 1;
    }
    proof {
        assert(pv.take(playlists@.len() as int) =~= pv);
    }
    r
}

/// The kinds of store that a store description can name.
#[derive(Debug, PartialEq, Eq, Clone, Copy)]
pub enum RepoKind {
    File,
    Postgres,
    Redis,
    Memory,
}

/// The prefix that names a kind of store.
pub open spec fn kind_prefix(k: RepoKind) -> Seq<char> {
    match k {
        RepoKind::File => seq!['f', 'i', 'l', 'e', ':'],
        RepoKind::Postgres => seq!['p', 'o', 's', 't', 'g', 'r', 'e', 's', ':'],
        RepoKind::Redis => seq!['r', 'e', 'd', 'i', 's', ':'],
        RepoKind::Memory => seq!['m', 'e', 'm', 'o', 'r', 'y', ':'],
    }
}

/// The kind of store that a description starts with, tried in the order
/// file, postgres, redis, memory.
pub open spec fn kind_of_description(s: Seq<char>) -> Option<RepoKind> {
    if kind_prefix(RepoKind::File).is_prefix_of(s) {
        Some(RepoKind::File)
    } else if kind_prefix(RepoKind::Postgres).is_prefix_of(s) {
        Some(RepoKind::Postgres)
    } else if kind_prefix(RepoKind::Redis).is_prefix_of(s) {
        Some(RepoKind::Redis)
    } else if kind_prefix(RepoKind::Memory).is_prefix_of(s) {
        Some(RepoKind::Memory)
    } else {
        None
    }
}

/// `s` without its first `p.len()` chars, where `p` starts it.
fn strip_prefix(s: &Vec<char>, p: &str) -> (r: Option<String>)
    ensures
        p@.is_prefix_of(s@) ==> (r matches Some(t) && t@ == s@.skip(p@.len() as int)),
        !p@.is_prefix_of(s@) ==> r is None,
{
    let pv = crate::text::chars_of(p);
    if pv.len() > s.len() {
        return None;
    }
    let mut i: usize = 0;
    while i < pv.len()
        invariant
            i <= pv@.len() <= s@.len(),
            pv@ == p@,
            forall|j: int| 0 <= j < i ==> pv@[j] == s@[j],
        decreases pv.len() - i,
    {
        if pv[i] != s[i] {
            return None;
        }
        i = i + 1;
    }
    proof {
        assert(p@ =~= s@.subrange(0, p@.len() as int));
        assert(s@.subrange(pv@.len() as int, s@.len() as int) =~= s@.skip(p@.len() as int));
    }
    Some(crate::text::string_from_chars(s, pv.len(), s.len()))
}

/// Splits a store description into the kind of store it names and the rest,
/// the description of that store; an argument error where it names none.
pub fn repo_config_parts(s: &str) -> (r: Result<(RepoKind, String), ModelError>)
    ensures
        match kind_of_description(s@) {
            Some(k) => r matches Ok((kind, rest)) && kind == k && rest@ == s@.skip(
                kind_prefix(k).len() as int,
            ),
            None => r matches Err(ModelError::Argument(m)) && m@ == "Invalid argument"@,
        },
{
    let v = crate::text::chars_of(s);
    proof {
        reveal_strlit("file:");
        reveal_strlit("postgres:");
        reveal_strlit("redis:");
        reveal_strlit("memory:");
        assert("file:"@ =~= kind_prefix(RepoKind::File));
        assert("postgres:"@ =~= kind_prefix(RepoKind::Postgres));
        assert("redis:"@ =~= kind_prefix(RepoKind::Redis));
        assert("memory:"@ =~= kind_prefix(RepoKind::Memory));
    }
    if let Some(rest) = strip_prefix(&v, "file:") {
        return Ok((RepoKind::File, rest));
    }
    if let Some(rest) = strip_prefix(&v, "postgres:") {
        return Ok((RepoKind::Postgres, rest));
    }
    if let Some(rest) = strip_prefix(&v, "redis:") {
        return Ok((RepoKind::Redis, rest));
    }
    if let Some(rest) = strip_prefix(&v, "memory:") {
        return Ok((RepoKind::Memory, rest));
    }
    Err(ModelError::Argument("Invalid argument".to_owned()))
}

/// Law: no playlist written back after lyric `id` is deleted lists `id`,
/// and each is one that listed it.
pub proof fn law_changed_playlists_do_not_list_deleted(ps: Seq<PlaylistView>, id: Uuid)
    ensures
        forall|i: int|
            0 <= i < playlists_changed_by_delete(ps, id).len() ==> !(#[trigger] playlists_changed_by_delete(
                ps,
                id,
            )[i]).members.contains(id),
        playlists_changed_by_delete(ps, id).len() <= ps.len(),
    decreases ps.len(),
{
    if ps.len() > 0 {
        law_changed_playlists_do_not_list_deleted(ps.drop_last(), id);
        let p = ps.last();
        if p.members.contains(id) {
            let w = without_uuid(p.members, id);
            if w.contains(id) {
                let j = choose|j: int| 0 <= j < w.len() && w[j] == id;
                crate::db::lemma_without_uuid(p.members, id, j);
            }
        }
    }
}

/// A playlist without `id` among its members.
pub open spec fn strip_playlist(p: PlaylistView, id: Uuid) -> PlaylistView {
    PlaylistView { members: without_uuid(p.members, id), ..p }
}

/// Law: deleting lyric `id` writes back every playlist that lists it, with
/// the same identifier and title and its members without `id`, and writes
/// back nothing else.
pub proof fn law_delete_rewrites_every_listing_playlist(ps: Seq<PlaylistView>, id: Uuid)
    ensures
        forall|i: int|
            #![trigger ps[i]]
            0 <= i < ps.len() && ps[i].members.contains(id) ==> exists|j: int|
                #![trigger playlists_changed_by_delete(ps, id)[j]]
                0 <= j < playlists_changed_by_delete(ps, id).len() && playlists_changed_by_delete(ps, id)[j]
                    == strip_playlist(ps[i], id),
        forall|j: int|
            #![trigger playlists_changed_by_delete(ps, id)[j]]
            0 <= j < playlists_changed_by_delete(ps, id).len() ==> exists|i: int|
                #![trigger ps[i]]
                0 <= i < ps.len() && ps[i].members.contains(id) && playlists_changed_by_delete(ps, id)[j]
                    == strip_playlist(ps[i], id),
    decreases ps.len(),
{
    if ps.len() > 0 {
        let d = ps.drop_last();
        law_delete_rewrites_every_listing_playlist(d, id);
        let rd = playlists_changed_by_delete(d, id);
        let r = playlists_changed_by_delete(ps, id);
        let p = ps.last();
        assert(ps[ps.len() - 1] == p);
        if p.members.contains(id) {
            assert(r == rd.push(strip_playlist(p, id)));
        } else {
            assert(r == rd);
        }
        assert forall|i: int| #![trigger ps[i]] 0 <= i < ps.len() && ps[i].members.contains(id) implies exists|j: int|
            #![trigger r[j]]
            0 <= j < r.len() && r[j] == strip_playlist(ps[i], id) by {
            if i < ps.len() - 1 {
                assert(d[i] == ps[i]);
                let j = choose|j: int| #![trigger rd[j]] 0 <= j < rd.len() && rd[j] == strip_playlist(d[i], id);
                assert(r[j] == rd[j]);
            } else {
                assert(r[r.len() - 1] == strip_playlist(p, id));
            }
        }
        assert forall|j: int| #![trigger r[j]] 0 <= j < r.len() implies exists|i: int|
            #![trigger ps[i]]
            0 <= i < ps.len() && ps[i].members.contains(id) && r[j] == strip_playlist(ps[i], id) by {
            if j < rd.len() {
                let i = choose|i: int| #![trigger d[i]] 0 <= i < d.len() && d[i].members.contains(id) && rd[j]
                    == strip_playlist(d[i], id);
                assert(ps[i] == d[i]);
                assert(r[j] == rd[j]);
            } else {
                assert(r[j] == strip_playlist(p, id));
            }
        }
    }
}

} // verus!
