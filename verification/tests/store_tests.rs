use std::path::PathBuf;

use lipl::db::{without_id, Db, RepoWrapper};
use lipl::error::ModelError;
use lipl::memory::{InMemoryDb, MemoryDbError};
use lipl::model::{new_lyric, new_playlist, Lyric, LyricPost, Playlist, PlaylistPost};
use lipl::transaction::{replay, Transaction};
use lipl::uuid::Uuid;

fn lyric_post(title: &str) -> LyricPost {
    LyricPost { title: title.to_owned(), parts: vec![vec!["Regel".to_owned()]] }
}

#[test]
fn post_playlist() {
    let mut db = InMemoryDb::new();

    let playlist_post = PlaylistPost {
        title: "Alle 13 goed".to_owned(),
        members: vec![],
    };

    let playlist = db.playlist_post(playlist_post).unwrap();

    let playlists = db.playlist_list().unwrap();
    assert_eq!(playlists[0].title, "Alle 13 goed".to_owned());
    assert_eq!(playlists[0].id, playlist.id);
}

#[test]
fn memory_lyric_item_after_post() {
    let mut db = InMemoryDb::new();
    let lyric = db.lyric_post(lyric_post("Een")).unwrap();
    let read = db.lyric_item(lyric.id).unwrap();
    assert_eq!(read.title, "Een");
    assert_eq!(read.parts, vec![vec!["Regel".to_owned()]]);
    assert!(matches!(db.playlist_item(lyric.id), Err(MemoryDbError::NotFound)));
}

#[test]
fn memory_lists_sorted_by_title() {
    let mut db = InMemoryDb::new();
    db.lyric_post(lyric_post("Zomer")).unwrap();
    db.lyric_post(lyric_post("Avond")).unwrap();
    db.lyric_post(lyric_post("Middag")).unwrap();
    let titles: Vec<String> = db.lyric_list().unwrap().into_iter().map(|s| s.title).collect();
    assert_eq!(titles, vec!["Avond", "Middag", "Zomer"]);
    let full: Vec<String> = db.lyric_list_full().unwrap().into_iter().map(|l| l.title).collect();
    assert_eq!(full, vec!["Avond", "Middag", "Zomer"]);
    assert!(db.playlist_list().unwrap().is_empty());
}

#[test]
fn memory_lyric_delete_strips_playlists() {
    let mut db = InMemoryDb::new();
    let a = db.lyric_post(lyric_post("A")).unwrap();
    let b = db.lyric_post(lyric_post("B")).unwrap();
    let p = db
        .playlist_post(PlaylistPost { title: "P".to_owned(), members: vec![a.id, b.id, a.id] })
        .unwrap();
    db.lyric_delete(a.id).unwrap();
    assert!(matches!(db.lyric_item(a.id), Err(MemoryDbError::NotFound)));
    assert_eq!(db.playlist_item(p.id).unwrap().members, vec![b.id]);
    assert!(matches!(db.lyric_delete(a.id), Err(MemoryDbError::NotFound)));
}

#[test]
fn memory_put_needs_existing_lyric() {
    let mut db = InMemoryDb::new();
    let id = Uuid::new_v4();
    assert!(matches!(db.lyric_put(id, lyric_post("X")), Err(MemoryDbError::NotFound)));
    let l = db.lyric_post(lyric_post("X")).unwrap();
    let put = db.lyric_put(l.id, lyric_post("Y")).unwrap();
    assert_eq!(put.id, l.id);
    assert_eq!(db.lyric_item(l.id).unwrap().title, "Y");
}

#[test]
fn memory_playlist_put_and_delete() {
    let mut db = InMemoryDb::default();
    let id = Uuid::new_v4();
    let answered = db
        .playlist_put(id, PlaylistPost { title: "Niet er".to_owned(), members: vec![] })
        .unwrap();
    assert_eq!(answered.id, id);
    assert!(matches!(db.playlist_item(id), Err(MemoryDbError::NotFound)));
    let p = db.playlist_post(PlaylistPost { title: "Wel".to_owned(), members: vec![] }).unwrap();
    db.playlist_put(p.id, PlaylistPost { title: "Anders".to_owned(), members: vec![] }).unwrap();
    assert_eq!(db.playlist_item(p.id).unwrap().title, "Anders");
    db.playlist_delete(p.id).unwrap();
    assert!(matches!(db.playlist_delete(p.id), Err(MemoryDbError::NotFound)));
}

#[test]
fn db_delete_lyric_removes_it_from_playlists() {
    let mut db = Db::new(PathBuf::from("/tmp/lyrics"));
    let a = new_lyric("A", "een\n\ntwee");
    let b = new_lyric("B", "drie");
    db.add_lyric(&a);
    db.add_lyric(&b);
    let mut p = new_playlist("P", vec![a.id, b.id]);
    let stored = db.add_playlist(&mut p);
    assert_eq!(stored.members, vec![a.id, b.id]);
    db.delete_lyric(&a.id).unwrap();
    assert!(db.get_lyric(&a.id).is_none());
    assert_eq!(db.get_playlist(&p.id).unwrap().members, vec![b.id]);
    assert!(db.delete_lyric(&a.id).is_err());
}

#[test]
fn db_playlist_keeps_only_stored_members() {
    let mut db = Db::new(PathBuf::from("/tmp/lyrics"));
    let a = new_lyric("A", "een");
    db.add_lyric(&a);
    let unknown = Uuid::new_v4();
    let stored = db.add_playlist_post(&PlaylistPost { title: "P".to_owned(), members: vec![unknown, a.id] });
    assert_eq!(stored.members, vec![a.id]);
    assert_eq!(db.get_playlist_list().len(), 1);
}

#[test]
fn db_update_needs_existing_items() {
    let mut db = Db::new(PathBuf::from("/tmp/lyrics"));
    let l = Lyric { id: Uuid::new_v4(), title: "L".to_owned(), parts: vec![] };
    assert!(db.update_lyric(&l).is_err());
    db.add_lyric(&l);
    let changed = Lyric { id: l.id, title: "M".to_owned(), parts: vec![] };
    assert_eq!(db.update_lyric(&changed).unwrap().title, "M");
    let p = Playlist { id: Uuid::new_v4(), title: "P".to_owned(), members: vec![] };
    assert!(db.update_playlist(&p).is_err());
    assert!(db.delete_playlist(&p.id).is_err());
    db.clear();
    assert!(db.get_lyric_list().is_empty());
}

#[test]
fn without_id_drops_every_copy() {
    let a = Uuid::new_v4();
    let b = Uuid::new_v4();
    assert_eq!(without_id(&vec![a, b, a], &a), vec![b]);
}

#[test]
fn repo_wrapper_answers_no_key() {
    let mut repo = RepoWrapper::new(PathBuf::from("/tmp/lyrics"));
    let id = Uuid::new_v4();
    match repo.get_lyric(id) {
        Err(ModelError::NoKey(s)) => assert_eq!(s, id.to_string()),
        _ => panic!("expected NoKey"),
    }
    let l = Lyric { id, title: "L".to_owned(), parts: vec![] };
    assert!(repo.upsert_lyric(l).is_err());
    assert!(repo.get_lyrics().unwrap().is_empty());
    assert!(repo.get_playlist_summaries().unwrap().is_empty());
    assert!(repo.delete_playlist(id).is_err());
    assert!(repo.stop().is_ok());
}

#[test]
fn memory_post_at_taken_id_is_occupied() {
    let mut db = InMemoryDb::new();
    let id = Uuid::new_v4();
    let l = db.lyric_post_at(id, lyric_post("Een")).unwrap();
    assert_eq!(l.id, id);
    assert!(matches!(db.lyric_post_at(id, lyric_post("Twee")), Err(MemoryDbError::Occupied)));
    assert_eq!(db.lyric_item(id).unwrap().title, "Twee");
    let p = db
        .playlist_post_at(Uuid::new_v4(), PlaylistPost { title: "P".to_owned(), members: vec![] })
        .unwrap();
    assert!(matches!(
        db.playlist_post_at(p.id, PlaylistPost { title: "Q".to_owned(), members: vec![] }),
        Err(MemoryDbError::Occupied)
    ));
    assert_eq!(db.playlist_item(p.id).unwrap().title, "Q");
}

#[test]
fn posted_ids_are_version_4() {
    let mut db = InMemoryDb::new();
    let l = db.lyric_post(lyric_post("Een")).unwrap();
    assert_eq!((l.id.inner() >> 76) & 0xf, 4);
    assert_eq!((l.id.inner() >> 62) & 0x3, 2);
    let mut store = Db::new(PathBuf::from("/tmp/lyrics"));
    let a = store.add_lyric_post(&lyric_post("A"));
    assert_eq!((a.id.inner() >> 76) & 0xf, 4);
    assert!(store.files().is_empty());
    assert_eq!(store.path(), &PathBuf::from("/tmp/lyrics"));
}

#[test]
fn replay_applies_changes_until_first_missing() {
    let mut repo = RepoWrapper::new(PathBuf::from("/tmp/lyrics"));
    let missing = Uuid::new_v4();
    let ts = vec![
        Transaction::PlaylistDelete(missing),
        Transaction::LyricDelete(Uuid::new_v4()),
    ];
    match replay(&mut repo, ts) {
        Err(ModelError::NoKey(s)) => assert_eq!(s, missing.to_string()),
        _ => panic!("expected NoKey"),
    }
    assert!(replay(&mut repo, vec![]).is_ok());
}
