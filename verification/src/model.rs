//! Lyrics, playlists and their summaries.
use vstd::prelude::*;

use std::cmp::Ordering;

use crate::parts::{clone_parts, to_parts, to_parts_spec};
use crate::text::{
    compare_text, decimal, decimal_text, join_spec, lemma_text_order_antisym, lemma_text_order_eq,
    lemma_text_order_refl, lemma_text_order_trans,
    push_str, text_order,
};
use crate::uuid::{is_v4, uuid_text, Uuid};

verus! {

/// A lyric: an identifier, a title and parts of lines.
#[derive(Debug)]
pub struct Lyric {
    pub id: Uuid,
    pub title: String,
    pub parts: Vec<Vec<String>>,
}

/// A lyric without its identifier, as posted.
#[derive(Debug, Default)]
pub struct LyricPost {
    pub title: String,
    pub parts: Vec<Vec<String>>,
}

/// A playlist: an identifier, a title and the identifiers of its lyrics.
#[derive(Debug)]
pub struct Playlist {
    pub id: Uuid,
    pub title: String,
    pub members: Vec<Uuid>,
}

/// A playlist without its identifier, as posted.
#[derive(Debug)]
pub struct PlaylistPost {
    pub title: String,
    pub members: Vec<Uuid>,
}

/// The identifier and title of a lyric or playlist.
#[derive(Debug)]
pub struct Summary {
    pub id: Uuid,
    pub title: String,
}

/// A lyric as a value.
pub struct LyricView {
    pub id: Uuid,
    pub title: Seq<char>,
    pub parts: Seq<Seq<Seq<char>>>,
}

/// A posted lyric as a value.
pub struct LyricPostView {
    pub title: Seq<char>,
    pub parts: Seq<Seq<Seq<char>>>,
}

/// A playlist as a value.
pub struct PlaylistView {
    pub id: Uuid,
    pub title: Seq<char>,
    pub members: Seq<Uuid>,
}

/// A posted playlist as a value.
pub struct PlaylistPostView {
    pub title: Seq<char>,
    pub members: Seq<Uuid>,
}

/// A summary as a value.
pub struct SummaryView {
    pub id: Uuid,
    pub title: Seq<char>,
}

impl View for Lyric {
    type V = LyricView;

    open spec fn view(&self) -> LyricView {
        LyricView { id: self.id, title: self.title@, parts: self.parts.deep_view() }
    }
}

impl View for LyricPost {
    type V = LyricPostView;

    open spec fn view(&self) -> LyricPostView {
        LyricPostView { title: self.title@, parts: self.parts.deep_view() }
    }
}

impl View for Playlist {
    type V = PlaylistView;

    open spec fn view(&self) -> PlaylistView {
        PlaylistView { id: self.id, title: self.title@, members: self.members@ }
    }
}

impl View for PlaylistPost {
    type V = PlaylistPostView;

    open spec fn view(&self) -> PlaylistPostView {
        PlaylistPostView { title: self.title@, members: self.members@ }
    }
}

impl View for Summary {
    type V = SummaryView;

    open spec fn view(&self) -> SummaryView {
        SummaryView { id: self.id, title: self.title@ }
    }
}

/// A copy of a list of identifiers.
pub fn clone_ids(ids: &Vec<Uuid>) -> (r: Vec<Uuid>)
    ensures
        r@ == ids@,
{
    let mut r: Vec<Uuid> = Vec::new();
    let mut i: usize = 0;
    while i < ids.len()
        invariant
            i <= ids@.len(),
            r@ == ids@.take(i as int),
        decreases ids.len() - i,
    {
        r.push(ids[i]);
        proof {
            assert(r@ =~= ids@.take(i + 1));
        }
        i = i + 1;
    }
    proof {
        assert(ids@.take(ids@.len() as int) =~= ids@);
    }
    r
}

impl Clone for Lyric {
    fn clone(&self) -> (r: Self)
        ensures
            r@ == self@,
    {
        Lyric { id: self.id, title: self.title.clone(), parts: clone_parts(&self.parts) }
    }
}

impl Clone for LyricPost {
    fn clone(&self) -> (r: Self)
        ensures
            r@ == self@,
    {
        LyricPost { title: self.title.clone(), parts: clone_parts(&self.parts) }
    }
}

impl Clone for Playlist {
    fn clone(&self) -> (r: Self)
        ensures
            r@ == self@,
    {
        Playlist { id: self.id, title: self.title.clone(), members: clone_ids(&self.members) }
    }
}

impl Clone for PlaylistPost {
    fn clone(&self) -> (r: Self)
        ensures
            r@ == self@,
    {
        PlaylistPost { title: self.title.clone(), members: clone_ids(&self.members) }
    }
}

impl Clone for Summary {
    fn clone(&self) -> (r: Self)
        ensures
            r@ == self@,
    {
        Summary { id: self.id, title: self.title.clone() }
    }
}

/// Anything with an identifier and a title.
pub trait HasSummary {
    /// The identifier and title.
    spec fn summary_view(&self) -> SummaryView;

    /// The identifier and title, as a summary.
    fn summary(&self) -> (s: Summary)
        ensures
            s@ == self.summary_view(),
    ;
}

impl HasSummary for Lyric {
    open spec fn summary_view(&self) -> SummaryView {
        SummaryView { id: self.id, title: self.title@ }
    }

    fn summary(&self) -> (s: Summary) {
        Summary { id: self.id, title: self.title.clone() }
    }
}

impl HasSummary for Playlist {
    open spec fn summary_view(&self) -> SummaryView {
        SummaryView { id: self.id, title: self.title@ }
    }

    fn summary(&self) -> (s: Summary) {
        Summary { id: self.id, title: self.title.clone() }
    }
}

impl HasSummary for Summary {
    open spec fn summary_view(&self) -> SummaryView {
        self@
    }

    fn summary(&self) -> (s: Summary) {
        self.clone()
    }
}

/// Orders two items by title, char by char.
pub fn by_title<T: HasSummary>(a: &T, b: &T) -> (r: Ordering)
    ensures
        (r == Ordering::Less) == (text_order(a.summary_view().title, b.summary_view().title) < 0),
        (r == Ordering::Equal) == (text_order(a.summary_view().title, b.summary_view().title)
            == 0),
        (r == Ordering::Greater) == (text_order(a.summary_view().title, b.summary_view().title)
            > 0),
{
    let sa = a.summary();
    let sb = b.summary();
    let c = compare_text(sa.title.as_str(), sb.title.as_str());
    if c < 0 {
        Ordering::Less
    } else if c == 0 {
        Ordering::Equal
    } else {
        Ordering::Greater
    }
}

/// Law: `by_title` orders two items as equal exactly when their titles
/// are equal, whatever their identifiers; swapping the items reverses the
/// order; and the order is transitive.
pub proof fn law_by_title<T: HasSummary>(a: T, b: T, c: T)
    ensures
        (text_order(a.summary_view().title, b.summary_view().title) == 0) <==> a.summary_view().title
            == b.summary_view().title,
        text_order(a.summary_view().title, b.summary_view().title) == -text_order(
            b.summary_view().title,
            a.summary_view().title,
        ),
        text_order(a.summary_view().title, b.summary_view().title) <= 0 && text_order(
            b.summary_view().title,
            c.summary_view().title,
        ) <= 0 ==> text_order(a.summary_view().title, c.summary_view().title) <= 0,
{
    let (ta, tb, tc) = (a.summary_view().title, b.summary_view().title, c.summary_view().title);
    lemma_text_order_refl(ta);
    lemma_text_order_antisym(ta, tb);
    if text_order(ta, tb) == 0 {
        lemma_text_order_eq(ta, tb);
    }
    if text_order(ta, tb) <= 0 && text_order(tb, tc) <= 0 {
        lemma_text_order_trans(ta, tb, tc);
    }
}

/// The summary of an item.
pub fn to_summary<T: HasSummary>(t: &T) -> (s: Summary)
    ensures
        s@ == t.summary_view(),
{
    t.summary()
}

/// The summaries of a list, in order.
pub fn to_summaries<T: HasSummary>(list: Vec<T>) -> (r: Vec<Summary>)
    ensures
        r@.len() == list@.len(),
        forall|i: int| 0 <= i < list@.len() ==> (#[trigger] r@[i])@ == list@[i].summary_view(),
{
    let mut r: Vec<Summary> = Vec::new();
    let mut i: usize = 0;
    while i < list.len()
        invariant
            i <= list@.len(),
            r@.len() == i,
            forall|k: int| 0 <= k < i ==> (#[trigger] r@[k])@ == list@[k].summary_view(),
        decreases list.len() - i,
    {
        r.push(to_summary(&list[i]));
        i = i + 1;
    }
    r
}

/// The identifiers of a list, in order.
pub fn ids<T: HasSummary>(list: Vec<T>) -> (r: Vec<Uuid>)
    ensures
        r@.len() == list@.len(),
        forall|i: int| 0 <= i < list@.len() ==> #[trigger] r@[i] == list@[i].summary_view().id,
{
    let mut r: Vec<Uuid> = Vec::new();
    let mut i: usize = 0;
    while i < list.len()
        invariant
            i <= list@.len(),
            r@.len() == i,
            forall|k: int| 0 <= k < i ==> #[trigger] r@[k] == list@[k].summary_view().id,
        decreases list.len() - i,
    {
        r.push(list[i].summary().id);
        i = i + 1;
    }
    r
}

impl Lyric {
    /// A lyric from a posted lyric, with the given identifier or a new random one.
    pub fn from_post(id: Option<Uuid>, post: LyricPost) -> (l: Lyric)
        ensures
            id matches Some(u) ==> l.id == u,
            id is None ==> is_v4(l.id.0),
            l.title@ == post.title@,
            l.parts.deep_view() == post.parts.deep_view(),
    {
        let id = match id {
            Some(u) => u,
            None => Uuid::new_v4(),
        };
        Lyric { id, title: post.title, parts: post.parts }
    }
}

impl LyricPost {
    /// The posted form of a lyric: its title and parts.
    pub fn from_lyric(lyric: Lyric) -> (p: LyricPost)
        ensures
            p.title@ == lyric.title@,
            p.parts.deep_view() == lyric.parts.deep_view(),
    {
        LyricPost { title: lyric.title, parts: lyric.parts }
    }

    /// A posted lyric from a title and a text split into parts.
    pub fn from_title_text(title: &str, text: &str) -> (p: LyricPost)
        ensures
            p.title@ == title@,
            p.parts.deep_view() == to_parts_spec(text@),
    {
        LyricPost { title: title.to_owned(), parts: to_parts(text) }
    }
}

impl Playlist {
    /// A playlist from a posted playlist, with the given identifier or a new random one.
    pub fn from_post(id: Option<Uuid>, post: PlaylistPost) -> (p: Playlist)
        ensures
            id matches Some(u) ==> p.id == u,
            id is None ==> is_v4(p.id.0),
            p.title@ == post.title@,
            p.members@ == post.members@,
    {
        let id = match id {
            Some(u) => u,
            None => Uuid::new_v4(),
        };
        Playlist { id, title: post.title, members: post.members }
    }
}

impl PlaylistPost {
    /// The posted form of a playlist: its title and members.
    pub fn from_playlist(p: Playlist) -> (r: PlaylistPost)
        ensures
            r.title@ == p.title@,
            r.members@ == p.members@,
    {
        PlaylistPost { title: p.title, members: p.members }
    }
}

/// The text of a summary: `"<id>: <title>"`.
pub open spec fn summary_text(s: SummaryView) -> Seq<char> {
    uuid_text(s.id.0) + seq![':', ' '] + s.title
}

impl Summary {
    /// The text of the summary: its identifier, a colon and its title.
    pub fn to_string(&self) -> (r: String)
        ensures
            r@ == summary_text(self@),
    {
        let mut r = self.id.to_string();
        push_str(&mut r, ": ");
        push_str(&mut r, self.title.as_str());
        proof {
            reveal_strlit(": ");
            assert(r@ =~= summary_text(self@));
        }
        r
    }
}

/// New lyric with a random identifier, a title and a text split into parts.
pub fn new_lyric(title: &str, text: &str) -> (l: Lyric)
    ensures
        is_v4(l.id.0),
        l.title@ == title@,
        l.parts.deep_view() == to_parts_spec(text@),
{
    Lyric { id: Uuid::new_v4(), title: title.to_owned(), parts: to_parts(text) }
}

/// New playlist with a random identifier, a title and members.
pub fn new_playlist(title: &str, members: Vec<Uuid>) -> (p: Playlist)
    ensures
        is_v4(p.id.0),
        p.title@ == title@,
        p.members@ == members@,
{
    Playlist { id: Uuid::new_v4(), title: title.to_owned(), members }
}

/// All lyrics and playlists.
#[derive(Debug)]
pub struct RepoDb {
    pub lyrics: Vec<Lyric>,
    pub playlists: Vec<Playlist>,
}

impl Default for RepoDb {
    fn default() -> (r: RepoDb)
        ensures
            r.lyrics@.len() == 0,
            r.playlists@.len() == 0,
    {
        RepoDb { lyrics: Vec::new(), playlists: Vec::new() }
    }
}

/// The line of a lyric in the overview: `" - <title>, <n> parts"`.
pub open spec fn lyric_overview_line(l: LyricView) -> Seq<char> {
    seq![' ', '-', ' '] + l.title + seq![',', ' '] + decimal(l.parts.len()) + seq![
        ' ',
        'p',
        'a',
        'r',
        't',
        's',
    ]
}

/// The line of a playlist in the overview: `" - <title>"`.
pub open spec fn playlist_overview_line(p: PlaylistView) -> Seq<char> {
    seq![' ', '-', ' '] + p.title
}

/// Law: a lyric's line in the overview names it and counts its parts,
/// whatever the lines in them: `" - <title>, <number of parts> parts"`; the
/// overview of a database of one lyric and no playlist is that line between
/// the headings.
pub proof fn law_overview_counts_parts(l: LyricView)
    ensures
        lyric_overview_line(l) == seq![' ', '-', ' '] + l.title + seq![',', ' '] + decimal(l.parts.len())
            + seq![' ', 'p', 'a', 'r', 't', 's'],
        overview_spec(seq![l], Seq::<PlaylistView>::empty()) == seq!['L', 'y', 'r', 'i', 'c', 's', ':', '\n']
            + seq![' ', '-', ' '] + l.title + seq![',', ' '] + decimal(l.parts.len()) + seq![
            ' ',
            'p',
            'a',
            'r',
            't',
            's',
            '\n',
            '\n',
            'P',
            'l',
            'a',
            'y',
            'l',
            'i',
            's',
            't',
            's',
            ':',
        ],
{
    let lines = seq![seq!['L', 'y', 'r', 'i', 'c', 's', ':']] + seq![l].map_values(
        |x: LyricView| lyric_overview_line(x),
    ) + seq![Seq::<char>::empty(), seq!['P', 'l', 'a', 'y', 'l', 'i', 's', 't', 's', ':']]
        + Seq::<PlaylistView>::empty().map_values(|p: PlaylistView| playlist_overview_line(p));
    let h = seq!['L', 'y', 'r', 'i', 'c', 's', ':'];
    let e = Seq::<char>::empty();
    let pl = seq!['P', 'l', 'a', 'y', 'l', 'i', 's', 't', 's', ':'];
    let ll = lyric_overview_line(l);
    assert(lines =~= seq![h, ll, e, pl]);
    assert(seq![h, ll, e, pl].drop_last() =~= seq![h, ll, e]);
    assert(seq![h, ll, e].drop_last() =~= seq![h, ll]);
    assert(seq![h, ll].drop_last() =~= seq![h]);
    assert(join_spec(seq![h], seq!['\n']) == h);
    assert(join_spec(seq![h, ll], seq!['\n']) == h + seq!['\n'] + ll);
    assert(join_spec(seq![h, ll, e], seq!['\n']) == h + seq!['\n'] + ll + seq!['\n'] + e);
    assert(join_spec(seq![h, ll, e, pl], seq!['\n']) == h + seq!['\n'] + ll + seq!['\n'] + e + seq!['\n'] + pl);
    assert(overview_spec(seq![l], Seq::<PlaylistView>::empty()) =~= seq!['L', 'y', 'r', 'i', 'c', 's', ':', '\n']
        + seq![' ', '-', ' '] + l.title + seq![',', ' '] + decimal(l.parts.len()) + seq![
        ' ', 'p', 'a', 'r', 't', 's', '\n', '\n', 'P', 'l', 'a', 'y', 'l', 'i', 's', 't', 's', ':',
    ]);
}

/// The overview of a database: `Lyrics:`, a line per lyric, an empty line,
/// `Playlists:`, a line per playlist; lines joined by newlines.
pub open spec fn overview_spec(lyrics: Seq<LyricView>, playlists: Seq<PlaylistView>) -> Seq<char> {
    join_spec(
        seq![seq!['L', 'y', 'r', 'i', 'c', 's', ':']] + lyrics.map_values(
            |l: LyricView| lyric_overview_line(l),
        ) + seq![Seq::<char>::empty(), seq!['P', 'l', 'a', 'y', 'l', 'i', 's', 't', 's', ':']]
            + playlists.map_values(|p: PlaylistView| playlist_overview_line(p)),
        seq!['\n'],
    )
}

impl RepoDb {
    /// A database of these lyrics and playlists.
    pub fn from_lists(lyrics: Vec<Lyric>, playlists: Vec<Playlist>) -> (r: RepoDb)
        ensures
            r.lyrics@ == lyrics@,
            r.playlists@ == playlists@,
    {
        RepoDb { lyrics, playlists }
    }

    /// The first lyric with this title, if any.
    pub fn find_lyric_by_title(&self, title: &str) -> (r: Option<Lyric>)
        ensures
            r is None <==> forall|i: int| 0 <= i < self.lyrics@.len() ==> self.lyrics@[i].title@
                != title@,
            r matches Some(l) ==> exists|i: int|
                0 <= i < self.lyrics@.len() && l@ == self.lyrics@[i]@ && self.lyrics@[i].title@
                    == title@ && forall|k: int| 0 <= k < i ==> self.lyrics@[k].title@ != title@,
    {
        let wanted = title.to_owned();
        let mut i: usize = 0;
        while i < self.lyrics.len()
            invariant
                i <= self.lyrics@.len(),
                wanted@ == title@,
                forall|k: int| 0 <= k < i ==> self.lyrics@[k].title@ != title@,
            decreases self.lyrics.len() - i,
        {
            if self.lyrics[i].title == wanted {
                let l = self.lyrics[i].clone();
                return Some(l);
            }
            i = i + 1;
        }
        None
    }

    /// An overview of the database: the lyrics with their number of parts,
    /// then the playlists.
    pub fn to_string(&self) -> (r: String)
        ensures
            r@ == overview_spec(
                self.lyrics@.map_values(|l: Lyric| l@),
                self.playlists@.map_values(|p: Playlist| p@),
            ),
    {
        let ghost lines = seq![seq!['L', 'y', 'r', 'i', 'c', 's', ':']] + self.lyrics@.map_values(
            |l: Lyric| l@,
        ).map_values(|l: LyricView| lyric_overview_line(l)) + seq![
            Seq::<char>::empty(),
            seq!['P', 'l', 'a', 'y', 'l', 'i', 's', 't', 's', ':'],
        ] + self.playlists@.map_values(|p: Playlist| p@).map_values(
            |p: PlaylistView| playlist_overview_line(p),
        );
        let mut out: Vec<String> = Vec::new();
        let mut head = String::new();
        push_str(&mut head, "Lyrics:");
        proof {
            reveal_strlit("Lyrics:");
        }
        let ghost hv = head@;
        out.push(head);
        proof {
            assert(out.deep_view() =~= seq![hv]);
            assert(hv =~= seq!['L', 'y', 'r', 'i', 'c', 's', ':']);
            assert(lines.take(1) =~= seq![hv]);
        }
        let mut i: usize = 0;
        while i < self.lyrics.len()
            invariant
                i <= self.lyrics@.len(),
                out.deep_view() == lines.take(1 + i),
                lines == seq![seq!['L', 'y', 'r', 'i', 'c', 's', ':']] + self.lyrics@.map_values(
                    |l: Lyric| l@,
                ).map_values(|l: LyricView| lyric_overview_line(l)) + seq![
                    Seq::<char>::empty(),
                    seq!['P', 'l', 'a', 'y', 'l', 'i', 's', 't', 's', ':'],
                ] + self.playlists@.map_values(|p: Playlist| p@).map_values(
                    |p: PlaylistView| playlist_overview_line(p),
                ),
            decreases self.lyrics.len() - i,
        {
            let mut line = String::new();
            push_str(&mut line, " - ");
            push_str(&mut line, self.lyrics[i].title.as_str());
            push_str(&mut line, ", ");
            let n = decimal_text(self.lyrics[i].parts.len() as u128);
            push_str(&mut line, n.as_str());
            push_str(&mut line, " parts");
            proof {
                reveal_strlit(" - ");
                reveal_strlit(", ");
                reveal_strlit(" parts");
                assert(line@ =~= lyric_overview_line(self.lyrics@[i as int]@));
                assert(lines[1 + i] == lyric_overview_line(self.lyrics@[i as int]@));
            }
            let ghost before = out.deep_view();
            let ghost lv = line@;
            out.push(line);
            proof {
                assert(out.deep_view() =~= before.push(lv));
                assert(out.deep_view() =~= lines.take(1 + i + 1));
            }
            i = i + 1;
        }
        let ghost nl: int = self.lyrics@.len() as int;
        let ghost b0 = out.deep_view();
        out.push(String::new());
        let mut ph = String::new();
        push_str(&mut ph, "Playlists:");
        proof {
            reveal_strlit("Playlists:");
        }
        let ghost b1 = out.deep_view();
        let ghost pv = ph@;
        out.push(ph);
        proof {
            assert(b1 =~= b0.push(Seq::<char>::empty()));
            assert(out.deep_view() =~= b1.push(pv));
            assert(pv =~= seq!['P', 'l', 'a', 'y', 'l', 'i', 's', 't', 's', ':']);
            assert(lines[1 + nl] == Seq::<char>::empty());
            assert(lines[2 + nl] == pv);
            assert(out.deep_view() =~= lines.take(3 + nl));
        }
        let mut j: usize = 0;
        while j < self.playlists.len()
            invariant
                j <= self.playlists@.len(),
                nl == self.lyrics@.len(),
                out.deep_view() == lines.take(3 + nl + j),
                lines == seq![seq!['L', 'y', 'r', 'i', 'c', 's', ':']] + self.lyrics@.map_values(
                    |l: Lyric| l@,
                ).map_values(|l: LyricView| lyric_overview_line(l)) + seq![
                    Seq::<char>::empty(),
                    seq!['P', 'l', 'a', 'y', 'l', 'i', 's', 't', 's', ':'],
                ] + self.playlists@.map_values(|p: Playlist| p@).map_values(
                    |p: PlaylistView| playlist_overview_line(p),
                ),
            decreases self.playlists.len() - j,
        {
            let mut line = String::new();
            push_str(&mut line, " - ");
            push_str(&mut line, self.playlists[j].title.as_str());
            proof {
                reveal_strlit(" - ");
                assert(line@ =~= playlist_overview_line(self.playlists@[j as int]@));
                assert(lines[3 + nl + j] == playlist_overview_line(self.playlists@[j as int]@));
            }
            let ghost before = out.deep_view();
            let ghost lv = line@;
            out.push(line);
            proof {
                assert(out.deep_view() =~= before.push(lv));
                assert(out.deep_view() =~= lines.take(3 + nl + j + 1));
            }
            j = j + 1;
        }
        proof {
            assert(lines.take(lines.len() as int) =~= lines);
            assert(self.lyrics@.map_values(|l: Lyric| l@).map_values(
                |l: LyricView| lyric_overview_line(l),
            ) =~= self.lyrics@.map_values(|l: Lyric| l@).map_values(
                |l: LyricView| lyric_overview_line(l),
            ));
        }
        crate::parts::join_with_newlines(&out)
    }
}

/// Items in order of title.
pub open spec fn sorted_by_title<T: HasSummary>(s: Seq<T>) -> bool {
    forall|i: int, j: int|
        0 <= i < j < s.len() ==> text_order(
            (#[trigger] s[i]).summary_view().title,
            (#[trigger] s[j]).summary_view().title,
        ) <= 0
}

/// `ix` takes each place of `r` to a distinct place of `v` that holds the
/// same item, and items of `r` with equal titles come in the order of
/// their places in `v`.
pub open spec fn stable_places<T: HasSummary>(r: Seq<T>, v: Seq<T>, ix: Seq<int>) -> bool {
    &&& ix.len() == r.len()
    &&& forall|k: int| 0 <= k < r.len() ==> 0 <= #[trigger] ix[k] < v.len() && r[k] == v[ix[k]]
    &&& forall|k: int, l: int| 0 <= k < l < r.len() ==> #[trigger] ix[k] != #[trigger] ix[l]
    &&& forall|k: int, l: int|
        0 <= k < l < r.len() && text_order(
            (#[trigger] r[k]).summary_view().title,
            (#[trigger] r[l]).summary_view().title,
        ) == 0 ==> ix[k] < ix[l]
}

/// Inserting the item at place `idx` of `v` at `pos` of a sorted `r`, after
/// every item whose title is not greater and before the others, keeps the
/// places stable.
proof fn lemma_stable_insert<T: HasSummary>(r: Seq<T>, v: Seq<T>, ix: Seq<int>, pos: int, idx: int)
    requires
        stable_places(r, v, ix),
        forall|k: int| 0 <= k < ix.len() ==> #[trigger] ix[k] < idx,
        0 <= idx < v.len(),
        0 <= pos <= r.len(),
        forall|k: int|
            0 <= k < pos ==> text_order(
                (#[trigger] r[k]).summary_view().title,
                v[idx].summary_view().title,
            ) <= 0,
        pos < r.len() ==> text_order(r[pos].summary_view().title, v[idx].summary_view().title) > 0,
        sorted_by_title(r),
    ensures
        stable_places(r.insert(pos, v[idx]), v, ix.insert(pos, idx)),
        forall|k: int| 0 <= k < ix.insert(pos, idx).len() ==> #[trigger] ix.insert(pos, idx)[k] < idx + 1,
{
    let r2 = r.insert(pos, v[idx]);
    let ix2 = ix.insert(pos, idx);
    let x = v[idx];
    assert forall|k: int| 0 <= k < r2.len() implies 0 <= #[trigger] ix2[k] < v.len() && r2[k] == v[ix2[k]] by {
        if k < pos {
            assert(ix2[k] == ix[k] && r2[k] == r[k]);
        } else if k > pos {
            assert(ix2[k] == ix[k - 1] && r2[k] == r[k - 1]);
        }
    }
    assert forall|k: int, l: int| 0 <= k < l < r2.len() implies #[trigger] ix2[k] != #[trigger] ix2[l] by {
        if k < pos && l < pos {
            assert(ix2[k] == ix[k] && ix2[l] == ix[l]);
        } else if k < pos && l == pos {
            assert(ix2[k] == ix[k]);
        } else if k < pos {
            assert(ix2[k] == ix[k] && ix2[l] == ix[l - 1]);
        } else if k == pos {
            assert(ix2[l] == ix[l - 1]);
        } else {
            assert(ix2[k] == ix[k - 1] && ix2[l] == ix[l - 1]);
        }
    }
    assert forall|k: int, l: int|
        0 <= k < l < r2.len() && text_order(
            (#[trigger] r2[k]).summary_view().title,
            (#[trigger] r2[l]).summary_view().title,
        ) == 0 implies ix2[k] < ix2[l] by {
        if l < pos {
            assert(r2[k] == r[k] && r2[l] == r[l] && ix2[k] == ix[k] && ix2[l] == ix[l]);
        } else if l == pos {
            assert(ix2[k] == ix[k]);
        } else if k == pos {
            // every later item has a greater title than x
            assert(r2[l] == r[l - 1]);
            assert(r2[k] == x);
            if l - 1 > pos {
                assert(text_order(r[pos].summary_view().title, r[l - 1].summary_view().title) <= 0);
            } else {
                lemma_text_order_refl(r[pos].summary_view().title);
            }
            lemma_text_order_antisym(x.summary_view().title, r[l - 1].summary_view().title);
            lemma_text_order_trans(
                r[pos].summary_view().title,
                r[l - 1].summary_view().title,
                x.summary_view().title,
            );
        } else if k < pos {
            assert(r2[k] == r[k] && r2[l] == r[l - 1] && ix2[k] == ix[k] && ix2[l] == ix[l - 1]);
        } else {
            assert(r2[k] == r[k - 1] && r2[l] == r[l - 1] && ix2[k] == ix[k - 1] && ix2[l] == ix[l - 1]);
        }
    }
    assert forall|k: int| 0 <= k < ix2.len() implies #[trigger] ix2[k] < idx + 1 by {
        if k < pos {
            assert(ix2[k] == ix[k]);
        } else if k > pos {
            assert(ix2[k] == ix[k - 1]);
        }
    }
}

/// Whether `a` sorts before or with `b` by title.
fn title_le<T: HasSummary>(a: &T, b: &T) -> (r: bool)
    ensures
        r == (text_order(a.summary_view().title, b.summary_view().title) <= 0),
{
    match by_title(a, b) {
        Ordering::Greater => false,
        _ => true,
    }
}

/// The items sorted by title (insertion sort: items with equal titles keep
/// their order).
pub fn sort_by_title<T: HasSummary>(v: Vec<T>) -> (r: Vec<T>)
    ensures
        sorted_by_title(r@),
        r@.to_multiset() == v@.to_multiset(),
        exists|ix: Seq<int>| stable_places(r@, v@, ix),
{
    broadcast use vstd::seq_lib::group_to_multiset_ensures;

    let ghost s = v@;
    let mut r: Vec<T> = Vec::new();
    let ghost mut ix: Seq<int> = Seq::empty();
    proof {
        assert(s.take(0) =~= Seq::<T>::empty());
    }
    for x in it: v
        invariant
            s == it.seq(),
            sorted_by_title(r@),
            r@.to_multiset() == s.take(it.index() as int).to_multiset(),
            stable_places(r@, s, ix),
            forall|k: int| 0 <= k < ix.len() ==> #[trigger] ix[k] < it.index(),
    {
        let ghost idx = it.index();
        let mut pos: usize = 0;
        while pos < r.len() && title_le(&r[pos], &x)
            invariant
                pos <= r@.len(),
                forall|k: int|
                    0 <= k < pos ==> text_order(
                        (#[trigger] r@[k]).summary_view().title,
                        x.summary_view().title,
                    ) <= 0,
            decreases r.len() - pos,
        {
            pos = pos + 1;
        }
        let ghost old_r = r@;
        proof {
            if pos < old_r.len() {
                assert(text_order(old_r[pos as int].summary_view().title, x.summary_view().title) > 0);
                lemma_text_order_antisym(
                    old_r[pos as int].summary_view().title,
                    x.summary_view().title,
                );
            }
        }
        let ghost old_ix = ix;
        proof {
            assert(x == s[idx as int]);
        }
        r.insert(pos, x);
        proof {
            ix = old_ix.insert(pos as int, idx as int);
            assert(r@ == old_r.insert(pos as int, x));
            lemma_stable_insert(old_r, s, old_ix, pos as int, idx as int);
            assert forall|i: int, j: int| 0 <= i < j < r@.len() implies text_order(
                (#[trigger] r@[i]).summary_view().title,
                (#[trigger] r@[j]).summary_view().title,
            ) <= 0 by {
                if j < pos {
                    assert(r@[i] == old_r[i] && r@[j] == old_r[j]);
                } else if j == pos {
                    assert(r@[i] == old_r[i]);
                } else if i == pos {
                    assert(r@[j] == old_r[j - 1]);
                    if j - 1 > pos {
                        assert(text_order(
                            old_r[pos as int].summary_view().title,
                            old_r[j - 1].summary_view().title,
                        ) <= 0);
                    } else {
                        lemma_text_order_antisym(
                            old_r[pos as int].summary_view().title,
                            old_r[pos as int].summary_view().title,
                        );
                    }
                    lemma_text_order_trans(
                        x.summary_view().title,
                        old_r[pos as int].summary_view().title,
                        old_r[j - 1].summary_view().title,
                    );
                } else if i < pos {
                    assert(r@[i] == old_r[i] && r@[j] == old_r[j - 1]);
                } else {
                    assert(r@[i] == old_r[i - 1] && r@[j] == old_r[j - 1]);
                }
            }
            vstd::seq_lib::to_multiset_insert(old_r, pos as int, x);
            assert(s.take(idx + 1) =~= s.take(idx as int).push(s[idx as int]));
            vstd::seq_lib::to_multiset_build(s.take(idx as int), s[idx as int]);
        }
    }
    proof {
        assert(s.take(s.len() as int) =~= s);
    }
    r
}

} // verus!
