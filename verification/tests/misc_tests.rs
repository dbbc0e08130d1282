use lipl::convert::{convert_vec, to_ok, try_convert_vec};
use lipl::error::ModelError;
use lipl::ext::VecExt;
use lipl::file_repo::{check_members, playlists_after_lyric_delete, repo_config_parts, RepoKind};
use lipl::lyric_file::lyricpost_from_lines;
use lipl::model::{
    by_title, ids, new_lyric, sort_by_title, to_summaries, Lyric, LyricPost, Playlist, RepoDb,
    Summary,
};
use lipl::service::{error_status, key_from_path, ListQuery};
use lipl::transaction::{optional_transaction, RequestNew, Transaction};
use lipl::uuid::Uuid;
use std::cmp::Ordering;

const ID1: &str = "FyAvpSWaLQmcDaYZxwXe44";
const ID2: &str = "GF5kHMvngVyALVcj7imopi";

fn id(s: &str) -> Uuid {
    s.parse::<Uuid>().unwrap()
}

#[test]
fn uuid_text_roundtrip() {
    let u = Uuid::new_v4();
    assert_eq!(u.to_string().parse::<Uuid>().unwrap(), u);
    assert_eq!(id(ID1).to_string(), ID1);
}

#[test]
fn uuid_parse_errors() {
    assert!(matches!("0OIl".parse::<Uuid>(), Err(ModelError::Bs58DecodeError)));
    assert!(matches!("abc".parse::<Uuid>(), Err(ModelError::UuidError(_))));
}

#[test]
fn uuid_new_v4_has_version_bits() {
    let u = Uuid::new_v4();
    assert_eq!((u.inner() >> 76) & 0xf, 4);
    assert_eq!((u.inner() >> 62) & 0x3, 2);
    assert_eq!(u.as_bytes().len(), 16);
}

#[test]
fn check_members_names_first_unknown_member() {
    let p = Playlist { id: id(ID1), title: "P".to_owned(), members: vec![id(ID1), id(ID2)] };
    assert!(check_members(&p, &[id(ID1), id(ID2)]).is_ok());
    match check_members(&p, &[id(ID1)]) {
        Err(ModelError::PlaylistInvalidMember(pl, m)) => {
            assert_eq!(pl, ID1);
            assert_eq!(m, ID2);
        }
        _ => panic!("expected an invalid member"),
    }
}

#[test]
fn playlists_after_delete_lists_only_changed() {
    let a = Playlist { id: id(ID1), title: "A".to_owned(), members: vec![id(ID1), id(ID2)] };
    let b = Playlist { id: id(ID2), title: "B".to_owned(), members: vec![id(ID2)] };
    let changed = playlists_after_lyric_delete(vec![a, b], &id(ID1));
    assert_eq!(changed.len(), 1);
    assert_eq!(changed[0].title, "A");
    assert_eq!(changed[0].members, vec![id(ID2)]);
}

#[test]
fn repo_config_prefixes() {
    let (k, rest) = repo_config_parts("file:/var/lyrics").unwrap();
    assert_eq!(k, RepoKind::File);
    assert_eq!(rest, "/var/lyrics");
    assert_eq!(repo_config_parts("postgres:host=x").unwrap().0, RepoKind::Postgres);
    assert_eq!(repo_config_parts("redis:").unwrap().0, RepoKind::Redis);
    assert_eq!(repo_config_parts("memory:sample").unwrap().1, "sample");
    match repo_config_parts("ftp:x") {
        Err(ModelError::Argument(m)) => assert_eq!(m, "Invalid argument"),
        _ => panic!("expected an argument error"),
    }
}

#[test]
fn key_from_last_path_segment() {
    let path = format!("/api/v1/lyric/{ID1}");
    assert_eq!(key_from_path(&path).unwrap().id, id(ID1));
    assert!(key_from_path("/api/v1/lyric/").is_none());
    assert!(key_from_path("/api/v1/lyric/not-an-id").is_none());
    assert_eq!(key_from_path(ID2).unwrap().id, id(ID2));
}

#[test]
fn list_query_full_only_when_true() {
    assert!(ListQuery { full: Some(true) }.wants_full());
    assert!(!ListQuery { full: Some(false) }.wants_full());
    assert!(!ListQuery { full: None }.wants_full());
}

#[test]
fn error_status_codes() {
    assert_eq!(error_status(&ModelError::NoKey("x".to_owned())), 404);
    assert_eq!(error_status(&ModelError::Occupied), 500);
}

#[test]
fn transactions_of_requests() {
    assert!(matches!(
        optional_transaction(&RequestNew::LyricDelete(id(ID1))),
        Some(Transaction::LyricDelete(u)) if u == id(ID1)
    ));
    let l = Lyric { id: id(ID2), title: "L".to_owned(), parts: vec![] };
    assert!(matches!(
        optional_transaction(&RequestNew::LyricPost(l)),
        Some(Transaction::LyricUpsert(x)) if x.title == "L"
    ));
    assert!(optional_transaction(&RequestNew::LyricList).is_none());
    assert!(optional_transaction(&RequestNew::PlaylistItem(id(ID1))).is_none());
}

#[test]
fn convert_helpers() {
    fn double(x: u8) -> u16 {
        (x as u16) * 2
    }
    assert_eq!(convert_vec(double, vec![1u8, 2, 3]), vec![2u16, 4, 6]);
    fn half(x: u8) -> Result<u8, ModelError> {
        if x % 2 == 0 { Ok(x / 2) } else { Err(ModelError::Occupied) }
    }
    assert_eq!(try_convert_vec(half, vec![2u8, 4]).unwrap(), vec![1u8, 2]);
    assert!(try_convert_vec(half, vec![2u8, 3]).is_err());
    assert_eq!(to_ok(5u8).unwrap(), 5);
}

#[test]
fn vec_ext_operations() {
    assert_eq!(vec![1u8, 2, 1, 3].without(&1), vec![2u8, 3]);
    assert_eq!(vec![1u8].add_one(2), vec![1u8, 2]);
}

#[test]
fn lyric_file_with_front_matter() {
    let lines: Vec<String> = vec!["---", "title: Molen", "---", "", "  Een  ", "Twee", "", "Drie"]
        .into_iter()
        .map(String::from)
        .collect();
    let read = lyricpost_from_lines(&lines);
    assert_eq!(read.frontmatter, Some("title: Molen\n".to_owned()));
    assert_eq!(
        read.parts,
        vec![vec!["Een".to_owned(), "Twee".to_owned()], vec!["Drie".to_owned()]]
    );
    let post = read.into_lyric_post(Some("Molen".to_owned()));
    assert_eq!(post.title, "Molen");
}

#[test]
fn lyric_file_without_front_matter_keeps_dashes() {
    let lines: Vec<String> = vec!["Een", "---"].into_iter().map(String::from).collect();
    let read = lyricpost_from_lines(&lines);
    assert_eq!(read.frontmatter, None);
    assert_eq!(read.parts, vec![vec!["Een".to_owned(), "---".to_owned()]]);
    assert_eq!(read.into_lyric_post(None).title, "");
}

#[test]
fn summaries_and_ordering() {
    let a = new_lyric("B", "x");
    let b = new_lyric("A", "y");
    assert_eq!(by_title(&a, &b), Ordering::Greater);
    let sorted = sort_by_title(vec![a, b]);
    assert_eq!(sorted[0].title, "A");
    let sums = to_summaries(sorted);
    assert_eq!(sums[1].title, "B");
    let s = Summary { id: id(ID1), title: "T".to_owned() };
    assert_eq!(s.to_string(), format!("{ID1}: T"));
    assert_eq!(ids(vec![s]), vec![id(ID1)]);
}

#[test]
fn repo_db_find_and_overview() {
    let l = Lyric { id: id(ID1), title: "Daar bij die molen".to_owned(), parts: vec![vec!["a".to_owned()]] };
    let p = Playlist { id: id(ID2), title: "Alles".to_owned(), members: vec![id(ID1)] };
    let db = RepoDb::from_lists(vec![l], vec![p]);
    assert_eq!(db.find_lyric_by_title("Daar bij die molen").unwrap().title, "Daar bij die molen");
    assert!(db.find_lyric_by_title("Elders").is_none());
    assert_eq!(db.to_string(), "Lyrics:\n - Daar bij die molen, 1 parts\n\nPlaylists:\n - Alles");
}

#[test]
fn lyric_post_from_title_text() {
    let p = LyricPost::from_title_text("T", "a\n\nb");
    assert_eq!(p.parts, vec![vec!["a".to_owned()], vec!["b".to_owned()]]);
}

#[test]
fn test_daar_bij_die_molen() {
    let molen = Lyric {
        id: id(ID1),
        title: "Daar bij die molen".to_owned(),
        parts: vec![vec!["Daar bij die molen, die mooie molen".to_owned()]],
    };
    let other = Lyric { id: id(ID2), title: "Hertog Jan".to_owned(), parts: vec![] };
    let db = RepoDb::from_lists(vec![other, molen], vec![]);
    assert_eq!(
        db.find_lyric_by_title("Daar bij die molen").unwrap().title,
        "Daar bij die molen".to_owned(),
    );
}

#[test]
fn sort_by_title_keeps_equal_titles_in_order() {
    let a = Summary { id: id(ID1), title: "Zelfde".to_owned() };
    let b = Summary { id: id(ID2), title: "Anders".to_owned() };
    let c = Summary { id: id(ID2), title: "Zelfde".to_owned() };
    let sorted = sort_by_title(vec![a, b, c]);
    assert_eq!(sorted[0].title, "Anders");
    assert_eq!(sorted[1].id, id(ID1));
    assert_eq!(sorted[2].id, id(ID2));
}

#[test]
fn try_convert_vec_gives_first_error() {
    fn check(x: u8) -> Result<u8, ModelError> {
        if x < 10 { Ok(x) } else { Err(ModelError::UuidError(x as usize)) }
    }
    match try_convert_vec(check, vec![1u8, 12, 15]) {
        Err(ModelError::UuidError(n)) => assert_eq!(n, 12),
        _ => panic!("expected the first error"),
    }
}

#[test]
fn read_frontmatter_between_separators() {
    let text = "intro\n---\n  ---  \ntitle: Molen\nauthor: x\n---\nEen\n";
    assert_eq!(lipl::lyric_file::read_frontmatter(text), "title: Molen\nauthor: x");
    assert_eq!(lipl::lyric_file::read_frontmatter("geen kop"), "");
}
