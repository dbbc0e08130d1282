use lipl::model::{Lyric, LyricPost, Playlist, PlaylistPost, Summary};
use lipl::tags::{lyric_meta_tag, Etag};
use lipl::uuid::Uuid;

fn lyric() -> Lyric {
    Lyric {
        id: "T2NPjHifDf1E1UfZZA6TDB".parse::<Uuid>().unwrap(),
        title: "Hertog Jan".to_owned(),
        parts: vec![],
    }
}

fn uuid() -> Uuid {
    "T2NPjHifDf1E1UfZZA6TDB".parse::<Uuid>().unwrap()
}

fn lyric_post() -> LyricPost {
    LyricPost {
        title: "Hertog Jan".to_owned(),
        parts: vec![],
    }
}

fn playlist() -> Playlist {
    Playlist {
        id: "T2NPjHifDf1E1UfZZA6TDB".parse::<Uuid>().unwrap(),
        title: "Alles".to_owned(),
        members: vec![],
    }
}

fn playlist_post() -> PlaylistPost {
    PlaylistPost {
        title: "Alles".to_owned(),
        members: vec![],
    }
}

#[test]
fn etag_lyric() {
    let lyric = lyric();
    assert_eq!(
        lyric.etag().unwrap(),
        "\"35-108998711609601653534695633279211267062\""
    );
}

#[test]
fn etag_uuid() {
    let uuid = uuid();
    assert_eq!(
        uuid.etag().unwrap(),
        "\"23-149721190323184319769187372888878724744\""
    );
}

#[test]
fn etag_lyric_post() {
    let lyric_post = lyric_post();
    assert_eq!(
        lyric_post.etag().unwrap(),
        "\"12-126345003074275575362181332723693993837\""
    );
}

#[test]
fn etag_playlist() {
    let playlist = playlist();
    assert_eq!(
        playlist.etag().unwrap(),
        "\"30-185034181396151291232188877551098360080\""
    );
}

#[test]
fn etag_playlist_post() {
    let playlist_post = playlist_post();
    assert_eq!(
        playlist_post.etag().unwrap(),
        "\"7-154128550217482494187732339974478968840\""
    );
}

#[test]
fn etag_summary_counts_identifier_and_title() {
    let summary = Summary { id: uuid(), title: "Alles".to_owned() };
    let tag = summary.etag().unwrap();
    assert!(tag.starts_with("\"29-"));
    assert!(tag.ends_with('"'));
}

#[test]
fn etag_differs_with_content() {
    let mut other = lyric();
    other.title = "Hertog Jan!".to_owned();
    assert!(other.etag().unwrap().starts_with("\"36-"));
    assert_ne!(other.etag(), lyric().etag());
}

#[test]
fn etag_long_count_uses_two_length_bytes() {
    let long_title = "x".repeat(200);
    let post = LyricPost { title: long_title, parts: vec![] };
    assert!(post.etag().unwrap().starts_with("\"203-"));
}

#[test]
fn meta_tag_counts_lengths_as_eight_bytes() {
    let tag = lyric_meta_tag(&lyric());
    assert!(tag.starts_with("\"56-"));
}
