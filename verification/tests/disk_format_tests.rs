use lipl::disk_format::LyricMeta;
use lipl::model::{Lyric, LyricPost, PlaylistPost};
use lipl::uuid::Uuid;

fn hertog_jan_lyric() -> Lyric {
    Lyric {
        id: "T2NPjHifDf1E1UfZZA6TDB".parse::<Uuid>().unwrap(),
        title: "Hertog Jan".to_owned(),
        parts: vec![
            vec![
                "Toen den hertog Jan kwam varen".to_owned(),
                "Te peerd parmant, al triumfant".to_owned(),
                "Na zevenhonderd jaren".to_owned(),
                "Hoe zong men 't allen kant".to_owned(),
                "Harba lorifa, zong den Hertog, harba lorifa,".to_owned(),
                "Na zevenhonderd jaren".to_owned(),
                "In dit edel Brabants land".to_owned(),
            ],
            vec![
                "Hij kwam van over 't water".to_owned(),
                "Den Scheldevloed, aan wal te voet".to_owned(),
                "'t Antwerpen op de straten".to_owned(),
                "Zilv'ren veren op zijn hoed".to_owned(),
                "Harba lorifa, zong den Hertog, harba lorifa".to_owned(),
                "'t Antwerpen op de straten".to_owned(),
                "Lere leerzen aan zijn voet".to_owned(),
            ],
            vec![
                "Och Turnhout, stedeke schone".to_owned(),
                "Zijn uw ruitjes groen, maar uw hertjes koen".to_owned(),
                "Laat den Hertog binnen komen".to_owned(),
                "In dit zomers vrolijk seizoen".to_owned(),
                "Harba lorifa, zong den Hertog, harba lorifa".to_owned(),
                "Laat den Hertog binnen komen".to_owned(),
                "Hij heeft een peerd van doen".to_owned(),
            ],
            vec![
                "Hij heeft een peerd gekregen".to_owned(),
                "Een schoon wit peerd, een schimmelpeerd".to_owned(),
                "Daar is hij opgestegen".to_owned(),
                "Dien ridder onverveerd".to_owned(),
                "Harba lorifa, zong den Hertog, harba lorifa".to_owned(),
                "Daar is hij opgestegen".to_owned(),
                "En hij reed naar Valkensweerd".to_owned(),
            ],
            vec![
                "In Valkensweerd daar zaten".to_owned(),
                "Al in de kast, de zilverkast".to_owned(),
                "De guldenkoning zijn platen".to_owned(),
                "Die wierd' aaneen gelast".to_owned(),
                "Harba lorifa, zong den Hertog, harba lorifa".to_owned(),
                "De guldenkoning zijn platen".to_owned(),
                "Toen had hij een harnas".to_owned(),
            ],
            vec![
                "Rooise boeren, komt naar buiten".to_owned(),
                "Met de grote trom, met de kleine trom".to_owned(),
                "Trompetten en cornetten en de fluiten".to_owned(),
                "Want den Hertog komt weerom".to_owned(),
                "Harba lorifa, zong den Hertog, harba lorifa".to_owned(),
                "Trompetten en cornetten en de fluiten".to_owned(),
                "In dit Brabants Hertogdom".to_owned(),
            ],
            vec![
                "Wij reden allemaal samen".to_owned(),
                "Op Oirschot aan, door een Kanidasselaan".to_owned(),
                "En Jan riep: \"In Geus name!\"".to_owned(),
                "Hier heb ik meer gestaan.".to_owned(),
                "Harba lorifa, zong den Hertog, harba lorifa".to_owned(),
                "En Jan riep: \"In Geus name!\"".to_owned(),
                "Reikt mij mijn standaard aan!".to_owned(),
            ],
            vec![
                "De standaard was de gouwe".to_owned(),
                "Die waaide dan, die draaide dan".to_owned(),
                "Die droeg de leeuw met klauwen".to_owned(),
                "Wij zongen alleman".to_owned(),
                "Harba lorifa, zong den Hertog, harba lorifa".to_owned(),
                "Die droeg de leeuw met klauwen".to_owned(),
                "Ja, de Leeuw van Hertog Jan".to_owned(),
            ],
            vec![
                "Hij is in Den Bosch gekomen".to_owned(),
                "Al in de nacht, niemand die 't zag".to_owned(),
                "En op Sint Jan geklommen".to_owned(),
                "Daar ging hij staan op wacht".to_owned(),
                "Harba lorifa, zong den Hertog, harba lorifa".to_owned(),
                "En op Sint Jan geklommen".to_owned(),
                "Daar staat hij dag en nacht".to_owned(),
            ],
        ],
    }
}

const HERTOG_JAN_TITLE: &str = "Hertog Jan";
const HERTOG_JAN_ID: &str = "T2NPjHifDf1E1UfZZA6TDB";
const PLAYLIST_TEXT: &str = "\ntitle = \"Kerst\"\nmembers = [\"FyAvpSWaLQmcDaYZxwXe44\",  \"GF5kHMvngVyALVcj7imopi\", \"SdbM6j9uCtNiGRUW1hiTz5\"]\n";
const PLAYLIST_TITLE: &str = "Kerst";
const PLAYLIST_MEMBER1: &str = "FyAvpSWaLQmcDaYZxwXe44";
const PLAYLIST_MEMBER2: &str = "GF5kHMvngVyALVcj7imopi";
const PLAYLIST_MEMBER3: &str = "SdbM6j9uCtNiGRUW1hiTz5";

#[test]
fn playlist_post_parse() {
    let playlist_post: PlaylistPost = PLAYLIST_TEXT.parse().unwrap();
    assert_eq!(playlist_post.title, PLAYLIST_TITLE.to_owned());
    assert_eq!(playlist_post.members.len(), 3);
    assert_eq!(
        playlist_post.members[0].to_string(),
        PLAYLIST_MEMBER1.to_owned()
    );
    assert_eq!(
        playlist_post.members[1].to_string(),
        PLAYLIST_MEMBER2.to_owned()
    );
    assert_eq!(
        playlist_post.members[2].to_string(),
        PLAYLIST_MEMBER3.to_owned()
    );
}

#[test]
fn lyric_post_parse() {
    let hertog_jan = hertog_jan_lyric().to_string();
    let lyric_post = hertog_jan.parse::<LyricPost>().unwrap();

    assert_eq!(lyric_post.title, HERTOG_JAN_TITLE.to_owned());
    assert_eq!(lyric_post.parts.len(), 9);
}

#[test]
fn lyric_post_parse_equals_display() {
    let lyric_post: LyricPost = hertog_jan_lyric().to_string().parse().unwrap();
    let uuid = HERTOG_JAN_ID.to_owned().parse::<Uuid>().unwrap();
    let lyric = Lyric::from_post(Some(uuid), lyric_post);
    assert_eq!(
        lyric.to_string().as_str(),
        hertog_jan_lyric().to_string().as_str()
    );
}

#[test]
fn lyric_meta_parse() {
    let lyric_meta: LyricMeta = hertog_jan_lyric().to_string().parse().unwrap();
    assert_eq!(lyric_meta.title, HERTOG_JAN_TITLE.to_owned());
    assert_eq!(
        lyric_meta.hash1,
        Some("\"2530-189459479300553739784561073837696755448\"".to_owned())
    );
    assert_eq!(
        lyric_meta.hash2,
        Some("\"2530-189459479300553739784561073837696755448\"".to_owned())
    );
}

#[test]
fn stored_lyric_text_starts_with_metadata_block() {
    let text = hertog_jan_lyric().to_string();
    assert!(text.starts_with("+++\ntitle = \"Hertog Jan\"\n"));
    assert!(text.contains("+++\n\nToen den hertog Jan kwam varen  \nTe peerd parmant"));
}

#[test]
fn lyric_post_parse_takes_title_from_last_metadata_block() {
    let text = "+++\ntitle = \"Een\"\n+++\n\nRegel\n\n+++\ntitle = \"Twee\"\n+++";
    let lyric_post: LyricPost = text.parse().unwrap();
    assert_eq!(lyric_post.title, "Twee");
    assert_eq!(lyric_post.parts, vec![vec!["Regel".to_owned()]]);
}

#[test]
fn lyric_post_parse_without_metadata() {
    let lyric_post: LyricPost = "  Regel een  \nRegel twee\n\n\nDrie".parse().unwrap();
    assert_eq!(lyric_post.title, "");
    assert_eq!(
        lyric_post.parts,
        vec![
            vec!["Regel een".to_owned(), "Regel twee".to_owned()],
            vec!["Drie".to_owned()]
        ]
    );
}

#[test]
fn lyric_post_parse_fails_on_bad_metadata() {
    assert!("+++\ntitle = 12\n+++\n\nRegel".parse::<LyricPost>().is_err());
    assert!("+++\nnot toml at all\n+++".parse::<LyricPost>().is_err());
}

#[test]
fn lyric_meta_parse_without_hashes() {
    let meta: LyricMeta = "\n\n+++\ntitle = \"Alleen\"\n+++\n\nRegel".parse().unwrap();
    assert_eq!(meta.title, "Alleen");
    assert_eq!(meta.hash1, None);
    assert_eq!(meta.hash2, None);
}

#[test]
fn lyric_meta_parse_needs_a_title() {
    assert!("+++\nhash1 = \"x\"\n+++".parse::<LyricMeta>().is_err());
}

#[test]
fn playlist_post_parse_rejects_bad_member() {
    let text = "title = \"Kerst\"\nmembers = [\"not-base58-0OIl\"]\n";
    assert!(text.parse::<PlaylistPost>().is_err());
    let missing = "title = \"Kerst\"\n";
    assert!(missing.parse::<PlaylistPost>().is_err());
}

#[test]
fn playlist_post_parse_empty_members() {
    let p: PlaylistPost = "title = \"Leeg\"\nmembers = []\n".parse().unwrap();
    assert_eq!(p.title, "Leeg");
    assert!(p.members.is_empty());
}

#[test]
fn stored_lyric_reads_back_with_quotes_in_title() {
    let lyric = Lyric {
        id: HERTOG_JAN_ID.parse::<Uuid>().unwrap(),
        title: "It's \"x\"".to_owned(),
        parts: vec![
            vec!["a b".to_owned(), "c".to_owned()],
            vec!["d".to_owned()],
        ],
    };
    let text = lyric.to_string();
    let post: LyricPost = text.parse().unwrap();
    assert_eq!(post.title, lyric.title);
    assert_eq!(post.parts, lyric.parts);
    let meta: LyricMeta = text.parse().unwrap();
    assert_eq!(meta.title, lyric.title);
    assert_eq!(meta.hash1, Some(lipl::tags::lyric_meta_tag(&lyric)));
    assert_eq!(meta.hash2, meta.hash1);
}

#[test]
fn stored_lyric_reads_back_with_escapes_in_title() {
    let lyric = Lyric {
        id: HERTOG_JAN_ID.parse::<Uuid>().unwrap(),
        title: "a\\b\tc".to_owned(),
        parts: vec![],
    };
    let post: LyricPost = lyric.to_string().parse().unwrap();
    assert_eq!(post.title, lyric.title);
    assert!(post.parts.is_empty());
}
