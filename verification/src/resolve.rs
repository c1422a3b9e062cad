//! The order in which a track is looked for: searches by title and artist variants, then by
//! title alone, then (for Musixmatch) by artist alone and through the matcher, each stage
//! only while nothing was found. The caller runs each query and reports the tracks back.
use vstd::prelude::*;

use crate::bugs::{BugsError, BugsTrack};
use crate::deezer::{DeezerError, DeezerTrack};
use crate::genie::{GenieError, GenieTrack};
use crate::matching::{
    accepts_musixmatch, accepts_provider, artist_variant_list, artist_variants,
    can_use_title_only_fallback, durations_agree, exact_match, exact_title_artist_match,
    is_acceptable_bugs_match, is_acceptable_deezer_match, is_acceptable_genie_match,
    is_acceptable_match, string_views, title_only_allowed, title_variant_list, title_variants,
};
use crate::musixmatch::{Error, Track};

verus! {

/// The stages of a track search, in order.
#[derive(Clone, Copy, Debug, PartialEq, Eq, Structural)]
pub enum Stage {
    TitleArtist,
    TitleOnly,
    ArtistOnly,
    MatcherVariants,
    MatcherOriginal,
    Finished,
}

/// A query to run next.
#[derive(Debug)]
pub enum Query {
    /// A search by title, artist, or both.
    Search { title: Option<String>, artist: Option<String> },
    /// A matcher lookup; when `required`, its failure ends the whole search with that
    /// failure, otherwise a failure is passed over.
    Match { q_track: String, q_artist: String, required: bool },
}

/// The content of a query.
pub enum QueryView {
    Search(Option<Seq<char>>, Option<Seq<char>>),
    Match(Seq<char>, Seq<char>, bool),
}

/// An optional string's text.
pub open spec fn text_of(o: Option<String>) -> Option<Seq<char>> {
    match o {
        Some(s) => Some(s@),
        None => None,
    }
}

/// The content of a query.
pub open spec fn query_view(q: Query) -> QueryView {
    match q {
        Query::Search { title, artist } => QueryView::Search(text_of(title), text_of(artist)),
        Query::Match { q_track, q_artist, required } => QueryView::Match(q_track@, q_artist@, required),
    }
}

/// Where a search stands.
pub struct SearchView {
    pub title: Seq<char>,
    pub artist: Seq<char>,
    pub titles: Seq<Seq<char>>,
    pub artists: Seq<Seq<char>>,
    pub with_matcher: bool,
    pub title_only_ok: bool,
    pub stage: Stage,
    pub ti: nat,
    pub ai: nat,
    pub ids: Seq<u64>,
    pub exact: bool,
    pub matched_by: Seq<char>,
    pub attempted: Seq<Seq<char>>,
}

/// How many stages are left after a stage.
pub open spec fn stage_rank(s: Stage) -> nat {
    match s {
        Stage::TitleArtist => 5,
        Stage::TitleOnly => 4,
        Stage::ArtistOnly => 3,
        Stage::MatcherVariants => 2,
        Stage::MatcherOriginal => 1,
        Stage::Finished => 0,
    }
}

/// How a track found in a stage was matched.
pub open spec fn stage_label(s: Stage) -> Seq<char> {
    match s {
        Stage::TitleArtist => "search:title+artist"@,
        Stage::TitleOnly => "search:title"@,
        Stage::ArtistOnly => "search:artist"@,
        Stage::MatcherVariants => "matcher:variants"@,
        Stage::MatcherOriginal => "matcher:original"@,
        Stage::Finished => seq![],
    }
}

/// The stage after `s`: the title alone is tried when nothing was found and the title is
/// distinctive; with the matcher, the artist alone, the matcher on all variants and the
/// matcher on the request follow while nothing was found.
pub open spec fn stage_after(s: Stage, found: bool, title_only_ok: bool, with_matcher: bool) -> Stage {
    match s {
        Stage::TitleArtist => if !found && title_only_ok {
            Stage::TitleOnly
        } else if !found && with_matcher {
            Stage::ArtistOnly
        } else {
            Stage::Finished
        },
        Stage::TitleOnly => if !found && with_matcher {
            Stage::ArtistOnly
        } else {
            Stage::Finished
        },
        Stage::ArtistOnly => if !found {
            Stage::MatcherVariants
        } else {
            Stage::Finished
        },
        Stage::MatcherVariants => if !found {
            Stage::MatcherOriginal
        } else {
            Stage::Finished
        },
        _ => Stage::Finished,
    }
}

/// The search entering stage `s`, which sets how found tracks are matched.
pub open spec fn entered(v: SearchView, s: Stage) -> SearchView {
    SearchView {
        stage: s,
        ti: 0,
        ai: 0,
        matched_by: if s is Finished {
            v.matched_by
        } else {
            stage_label(s)
        },
        ..v
    }
}

/// The search moved on to the stage after its current one.
pub open spec fn advanced(v: SearchView) -> SearchView {
    entered(v, stage_after(v.stage, v.ids.len() > 0, v.title_only_ok, v.with_matcher))
}

/// The note kept for a search by title and artist.
pub open spec fn pair_note(t: Seq<char>, a: Seq<char>) -> Seq<char> {
    "title="@ + t + " | artist="@ + a
}

/// The note kept for a search by title alone.
pub open spec fn title_note(t: Seq<char>) -> Seq<char> {
    "title="@ + t + " | artist=<none>"@
}

/// The note kept for a search by artist alone.
pub open spec fn artist_note(a: Seq<char>) -> Seq<char> {
    "title=<none> | artist="@ + a
}

/// The note kept for a matcher lookup.
pub open spec fn matcher_note(t: Seq<char>, a: Seq<char>) -> Seq<char> {
    "matcher title="@ + t + " | artist="@ + a
}

/// The next query and the search after it; none once the search is finished. Within a
/// stage the queries go through the title variants, and for each through the artist
/// variants; the first stage ends early once a found track matches the request exactly.
pub open spec fn step(v: SearchView) -> (Option<QueryView>, SearchView)
    decreases stage_rank(v.stage), v.titles.len() - v.ti, v.artists.len() - v.ai,
{
    match v.stage {
        Stage::TitleArtist => if !v.exact && v.ti < v.titles.len() {
            if v.ai < v.artists.len() {
                let t = v.titles[v.ti as int];
                let a = v.artists[v.ai as int];
                (
                    Some(QueryView::Search(Some(t), Some(a))),
                    SearchView { ai: v.ai + 1, attempted: v.attempted.push(pair_note(t, a)), ..v },
                )
            } else {
                step(SearchView { ti: v.ti + 1, ai: 0, ..v })
            }
        } else {
            step(advanced(v))
        },
        Stage::TitleOnly => if v.ti < v.titles.len() {
            let t = v.titles[v.ti as int];
            (
                Some(QueryView::Search(Some(t), None)),
                SearchView { ti: v.ti + 1, attempted: v.attempted.push(title_note(t)), ..v },
            )
        } else {
            step(advanced(v))
        },
        Stage::ArtistOnly => if v.ai < v.artists.len() {
            let a = v.artists[v.ai as int];
            (
                Some(QueryView::Search(None, Some(a))),
                SearchView { ai: v.ai + 1, attempted: v.attempted.push(artist_note(a)), ..v },
            )
        } else {
            step(advanced(v))
        },
        Stage::MatcherVariants => if v.ti < v.titles.len() {
            if v.ai < v.artists.len() {
                let t = v.titles[v.ti as int];
                let a = v.artists[v.ai as int];
                (
                    Some(QueryView::Match(t, a, false)),
                    SearchView { ai: v.ai + 1, attempted: v.attempted.push(matcher_note(t, a)), ..v },
                )
            } else {
                step(SearchView { ti: v.ti + 1, ai: 0, ..v })
            }
        } else {
            step(advanced(v))
        },
        Stage::MatcherOriginal => if v.ti == 0 {
            (
                Some(QueryView::Match(v.title, v.artist, true)),
                SearchView {
                    ti: 1,
                    attempted: v.attempted.push(matcher_note(v.title, v.artist)),
                    ..v
                },
            )
        } else {
            step(advanced(v))
        },
        Stage::Finished => (None, v),
    }
}

/// The search after a found track is reported: its id is kept when new, and the search
/// notes an exact match when a new track matches the request exactly.
pub open spec fn recorded(v: SearchView, id: u64, track_title: Seq<char>, track_artist: Seq<char>) -> SearchView {
    if v.ids.contains(id) {
        v
    } else {
        SearchView {
            ids: v.ids.push(id),
            exact: v.exact || exact_match(track_title, track_artist, v.title, v.artist),
            ..v
        }
    }
}

/// A track search in progress.
pub struct TrackSearch {
    title: String,
    artist: String,
    titles: Vec<String>,
    artists: Vec<String>,
    with_matcher: bool,
    title_only_ok: bool,
    stage: Stage,
    ti: usize,
    ai: usize,
    ids: Vec<u64>,
    exact: bool,
    matched_by: String,
    attempted: Vec<String>,
}

impl TrackSearch {
    /// Where the search stands.
    pub closed spec fn view(&self) -> SearchView {
        SearchView {
            title: self.title@,
            artist: self.artist@,
            titles: string_views(self.titles@),
            artists: string_views(self.artists@),
            with_matcher: self.with_matcher,
            title_only_ok: self.title_only_ok,
            stage: self.stage,
            ti: self.ti as nat,
            ai: self.ai as nat,
            ids: self.ids@,
            exact: self.exact,
            matched_by: self.matched_by@,
            attempted: string_views(self.attempted@),
        }
    }

    /// A search for a title and artist, through the matcher too when `with_matcher`.
    pub fn new(title: &str, artist: &str, with_matcher: bool) -> (r: TrackSearch)
        ensures
            r.view() == (SearchView {
                title: title@,
                artist: artist@,
                titles: title_variant_list(title@),
                artists: artist_variant_list(artist@),
                with_matcher,
                title_only_ok: title_only_allowed(title@),
                stage: Stage::TitleArtist,
                ti: 0,
                ai: 0,
                ids: Seq::<u64>::empty(),
                exact: false,
                matched_by: "search:title+artist"@,
                attempted: Seq::<Seq<char>>::empty(),
            }),
    {
        let r = TrackSearch {
            title: String::from_str(title),
            artist: String::from_str(artist),
            titles: title_variants(title),
            artists: artist_variants(artist),
            with_matcher,
            title_only_ok: can_use_title_only_fallback(title),
            stage: Stage::TitleArtist,
            ti: 0,
            ai: 0,
            ids: Vec::new(),
            exact: false,
            matched_by: String::from_str("search:title+artist"),
            attempted: Vec::new(),
        };
        assert(string_views(r.attempted@) =~= Seq::<Seq<char>>::empty());
        r
    }

    /// Moves to the stage after the current one.
    fn advance(&mut self)
        requires
            !(old(self).view().stage is Finished),
        ensures
            final(self).view() == advanced(old(self).view()),
    {
        let found = self.ids.len() > 0;
        let next = match self.stage {
            Stage::TitleArtist => if !found && self.title_only_ok {
                Stage::TitleOnly
            } else if !found && self.with_matcher {
                Stage::ArtistOnly
            } else {
                Stage::Finished
            },
            Stage::TitleOnly => if !found && self.with_matcher {
                Stage::ArtistOnly
            } else {
                Stage::Finished
            },
            Stage::ArtistOnly => if !found {
                Stage::MatcherVariants
            } else {
                Stage::Finished
            },
            Stage::MatcherVariants => if !found {
                Stage::MatcherOriginal
            } else {
                Stage::Finished
            },
            _ => Stage::Finished,
        };
        self.stage = next;
        self.ti = 0;
        self.ai = 0;
        match next {
            Stage::TitleArtist => self.matched_by = String::from_str("search:title+artist"),
            Stage::TitleOnly => self.matched_by = String::from_str("search:title"),
            Stage::ArtistOnly => self.matched_by = String::from_str("search:artist"),
            Stage::MatcherVariants => self.matched_by = String::from_str("matcher:variants"),
            Stage::MatcherOriginal => self.matched_by = String::from_str("matcher:original"),
            Stage::Finished => {},
        }
    }

    /// Keeps a note of a query.
    fn note(&mut self, text: String)
        ensures
            final(self).view() == (SearchView {
                attempted: old(self).view().attempted.push(text@),
                ..old(self).view()
            }),
    {
        let ghost before = string_views(self.attempted@);
        self.attempted.push(text);
        assert(string_views(self.attempted@) =~= before.push(text@));
    }

    /// The next query to run, none once the search is finished.
    pub fn next_query(&mut self) -> (r: Option<Query>)
        ensures
            (match r {
                Some(q) => Some(query_view(q)),
                None => None,
            }, final(self).view()) == step(old(self).view()),
    {
        let ghost goal = step(self.view());
        loop
            invariant
                step(self.view()) == goal,
                goal == step(old(self).view()),
                self.view().titles.len() == self.titles.len(),
                self.view().artists.len() == self.artists.len(),
            decreases stage_rank(self.stage), self.titles.len() - self.ti, self.artists.len()
                - self.ai,
        {
            let ghost v = self.view();
            match self.stage {
                Stage::TitleArtist => {
                    if !self.exact && self.ti < self.titles.len() {
                        if self.ai < self.artists.len() {
                            let t = self.titles[self.ti].clone();
                            let a = self.artists[self.ai].clone();
                            let mut n = String::from_str("title=");
                            n.append(t.as_str());
                            n.append(" | artist=");
                            n.append(a.as_str());
                            self.ai = self.ai + 1;
                            self.note(n);
                            return Some(Query::Search { title: Some(t), artist: Some(a) });
                        } else {
                            self.ti = self.ti + 1;
                            self.ai = 0;
                            assert(self.view() == SearchView { ti: v.ti + 1, ai: 0, ..v });
                        }
                    } else {
                        self.advance();
                    }
                },
                Stage::TitleOnly => {
                    if self.ti < self.titles.len() {
                        let t = self.titles[self.ti].clone();
                        let mut n = String::from_str("title=");
                        n.append(t.as_str());
                        n.append(" | artist=<none>");
                        self.ti = self.ti + 1;
                        self.note(n);
                        return Some(Query::Search { title: Some(t), artist: None });
                    } else {
                        self.advance();
                    }
                },
                Stage::ArtistOnly => {
                    if self.ai < self.artists.len() {
                        let a = self.artists[self.ai].clone();
                        let mut n = String::from_str("title=<none> | artist=");
                        n.append(a.as_str());
                        self.ai = self.ai + 1;
                        self.note(n);
                        return Some(Query::Search { title: None, artist: Some(a) });
                    } else {
                        self.advance();
                    }
                },
                Stage::MatcherVariants => {
                    if self.ti < self.titles.len() {
                        if self.ai < self.artists.len() {
                            let t = self.titles[self.ti].clone();
                            let a = self.artists[self.ai].clone();
                            let mut n = String::from_str("matcher title=");
                            n.append(t.as_str());
                            n.append(" | artist=");
                            n.append(a.as_str());
                            self.ai = self.ai + 1;
                            self.note(n);
                            return Some(Query::Match { q_track: t, q_artist: a, required: false });
                        } else {
                            self.ti = self.ti + 1;
                            self.ai = 0;
                            assert(self.view() == SearchView { ti: v.ti + 1, ai: 0, ..v });
                        }
                    } else {
                        self.advance();
                    }
                },
                Stage::MatcherOriginal => {
                    if self.ti == 0 {
                        let t = self.title.clone();
                        let a = self.artist.clone();
                        let mut n = String::from_str("matcher title=");
                        n.append(t.as_str());
                        n.append(" | artist=");
                        n.append(a.as_str());
                        self.ti = 1;
                        self.note(n);
                        return Some(Query::Match { q_track: t, q_artist: a, required: true });
                    } else {
                        self.advance();
                    }
                },
                Stage::Finished => {
                    return None;
                },
            }
        }
    }

    /// Reports a track that a query found; tells whether its id is new (only the first
    /// track of each id is kept).
    pub fn record(&mut self, id: u64, track_title: &str, track_artist: &str) -> (r: bool)
        ensures
            r == !old(self).view().ids.contains(id),
            final(self).view() == recorded(old(self).view(), id, track_title@, track_artist@),
    {
        let mut i: usize = 0;
        while i < self.ids.len()
            invariant
                i <= self.ids.len(),
                forall|j: int| 0 <= j < i ==> self.ids@[j] != id,
            decreases self.ids.len() - i,
        {
            if self.ids[i] == id {
                assert(self.ids@[i as int] == id);
                return false;
            }
            i += 1;
        }
        let exact = exact_title_artist_match(
            track_title,
            track_artist,
            self.title.as_str(),
            self.artist.as_str(),
        );
        self.ids.push(id);
        self.exact = self.exact || exact;
        true
    }

    /// How the tracks found were matched.
    pub fn matched_by(&self) -> (r: String)
        ensures
            r@ == self.view().matched_by,
    {
        self.matched_by.clone()
    }

    /// The notes of the queries made so far.
    pub fn attempted(&self) -> (r: Vec<String>)
        ensures
            string_views(r@) == self.view().attempted,
    {
        let r = self.attempted.clone();
        assert(string_views(r@) =~= string_views(self.attempted@));
        r
    }
}

/// Once finished, the search stays finished.
pub proof fn lemma_finished_stays(v: SearchView)
    requires
        v.stage is Finished,
    ensures
        step(v) == (None::<QueryView>, v),
{
}

/// The first stage stops as soon as an exact match was found: the next query, if any,
/// belongs to a later stage.
pub proof fn lemma_exact_ends_first_stage(v: SearchView)
    requires
        v.stage is TitleArtist,
        v.exact,
        v.ids.len() > 0,
    ensures
        step(v).0 is None,
        step(v).1.stage is Finished,
{
    reveal_with_fuel(step, 3);
    assert(advanced(v).stage is Finished);
}

/// The Deezer candidates that are close enough to the request, in their order.
pub open spec fn acceptable_deezer(
    c: Seq<DeezerTrack>,
    title: Seq<char>,
    artist: Seq<char>,
    matched_by: Seq<char>,
) -> Seq<DeezerTrack>
    decreases c.len(),
{
    if c.len() == 0 {
        c
    } else {
        let prev = acceptable_deezer(c.drop_last(), title, artist, matched_by);
        if accepts_provider(c.last().track_name@, c.last().artist_name@, title, artist, matched_by, false) {
            prev.push(c.last())
        } else {
            prev
        }
    }
}

/// The Deezer tracks to try, best first: the ranked candidates that are close enough; no
/// candidate, or none close enough, means no track was found.
pub fn deezer_candidates(candidates: Vec<DeezerTrack>, title: &str, artist: &str, matched_by: &str) -> (r:
    Result<Vec<DeezerTrack>, DeezerError>)
    ensures
        ({
            let k = acceptable_deezer(candidates@, title@, artist@, matched_by@);
            if k.len() == 0 {
                r matches Err(e) && e is NotFound
            } else {
                r matches Ok(v) && v@ == k
            }
        }),
{
    let ghost c = candidates@;
    let mut rest = candidates;
    let mut kept: Vec<DeezerTrack> = Vec::new();
    let mut i: usize = 0;
    let n = rest.len();
    assert(c.take(0) =~= Seq::<DeezerTrack>::empty());
    while rest.len() > 0
        invariant
            i + rest.len() == n,
            n == c.len(),
            rest@ == c.skip(i as int),
            kept@ == acceptable_deezer(c.take(i as int), title@, artist@, matched_by@),
        decreases rest.len(),
    {
        let t = rest.remove(0);
        assert(t == c[i as int]);
        assert(rest@ =~= c.skip(i + 1));
        assert(c.take(i + 1).drop_last() =~= c.take(i as int));
        if is_acceptable_deezer_match(&t, title, artist, matched_by) {
            kept.push(t);
        }
        i += 1;
    }
    assert(c.take(i as int) =~= c);
    if kept.len() == 0 {
        Err(DeezerError::NotFound)
    } else {
        Ok(kept)
    }
}

/// The Bugs candidates that are close enough to the request, in their order.
pub open spec fn acceptable_bugs(
    c: Seq<BugsTrack>,
    title: Seq<char>,
    artist: Seq<char>,
    matched_by: Seq<char>,
    duration_ms: Option<u64>,
) -> Seq<BugsTrack>
    decreases c.len(),
{
    if c.len() == 0 {
        c
    } else {
        let prev = acceptable_bugs(c.drop_last(), title, artist, matched_by, duration_ms);
        if accepts_provider(
            c.last().track_name@,
            c.last().artist_name@,
            title,
            artist,
            matched_by,
            durations_agree(duration_ms, c.last().duration_ms),
        ) {
            prev.push(c.last())
        } else {
            prev
        }
    }
}

/// The Bugs tracks to try, best first: the ranked candidates that are close enough; no
/// candidate, or none close enough, means no track was found.
pub fn bugs_candidates(
    candidates: Vec<BugsTrack>,
    title: &str,
    artist: &str,
    matched_by: &str,
    duration_ms: Option<u64>,
) -> (r: Result<Vec<BugsTrack>, BugsError>)
    ensures
        ({
            let k = acceptable_bugs(candidates@, title@, artist@, matched_by@, duration_ms);
            if k.len() == 0 {
                r matches Err(e) && e is NotFound
            } else {
                r matches Ok(v) && v@ == k
            }
        }),
{
    let ghost c = candidates@;
    let mut rest = candidates;
    let mut kept: Vec<BugsTrack> = Vec::new();
    let mut i: usize = 0;
    let n = rest.len();
    assert(c.take(0) =~= Seq::<BugsTrack>::empty());
    while rest.len() > 0
        invariant
            i + rest.len() == n,
            n == c.len(),
            rest@ == c.skip(i as int),
            kept@ == acceptable_bugs(c.take(i as int), title@, artist@, matched_by@, duration_ms),
        decreases rest.len(),
    {
        let t = rest.remove(0);
        assert(t == c[i as int]);
        assert(rest@ =~= c.skip(i + 1));
        assert(c.take(i + 1).drop_last() =~= c.take(i as int));
        if is_acceptable_bugs_match(&t, title, artist, matched_by, duration_ms) {
            kept.push(t);
        }
        i += 1;
    }
    assert(c.take(i as int) =~= c);
    if kept.len() == 0 {
        Err(BugsError::NotFound)
    } else {
        Ok(kept)
    }
}

/// The Genie candidates that are close enough to the request, in their order.
pub open spec fn acceptable_genie(
    c: Seq<GenieTrack>,
    title: Seq<char>,
    artist: Seq<char>,
    matched_by: Seq<char>,
    duration_ms: Option<u64>,
) -> Seq<GenieTrack>
    decreases c.len(),
{
    if c.len() == 0 {
        c
    } else {
        let prev = acceptable_genie(c.drop_last(), title, artist, matched_by, duration_ms);
        if accepts_provider(
            c.last().track_name@,
            c.last().artist_name@,
            title,
            artist,
            matched_by,
            durations_agree(duration_ms, c.last().duration_ms),
        ) {
            prev.push(c.last())
        } else {
            prev
        }
    }
}

/// The Genie tracks to try, best first: the ranked candidates that are close enough; no
/// candidate, or none close enough, means no track was found.
pub fn genie_candidates(
    candidates: Vec<GenieTrack>,
    title: &str,
    artist: &str,
    matched_by: &str,
    duration_ms: Option<u64>,
) -> (r: Result<Vec<GenieTrack>, GenieError>)
    ensures
        ({
            let k = acceptable_genie(candidates@, title@, artist@, matched_by@, duration_ms);
            if k.len() == 0 {
                r matches Err(e) && e is NotFound
            } else {
                r matches Ok(v) && v@ == k
            }
        }),
{
    let ghost c = candidates@;
    let mut rest = candidates;
    let mut kept: Vec<GenieTrack> = Vec::new();
    let mut i: usize = 0;
    let n = rest.len();
    assert(c.take(0) =~= Seq::<GenieTrack>::empty());
    while rest.len() > 0
        invariant
            i + rest.len() == n,
            n == c.len(),
            rest@ == c.skip(i as int),
            kept@ == acceptable_genie(c.take(i as int), title@, artist@, matched_by@, duration_ms),
        decreases rest.len(),
    {
        let t = rest.remove(0);
        assert(t == c[i as int]);
        assert(rest@ =~= c.skip(i + 1));
        assert(c.take(i + 1).drop_last() =~= c.take(i as int));
        if is_acceptable_genie_match(&t, title, artist, matched_by, duration_ms) {
            kept.push(t);
        }
        i += 1;
    }
    assert(c.take(i as int) =~= c);
    if kept.len() == 0 {
        Err(GenieError::NotFound)
    } else {
        Ok(kept)
    }
}

/// The Musixmatch track a search settles on: the best-ranked candidate when it is close
/// enough to the request; otherwise no track was found.
pub fn musixmatch_choice(best: Option<Track>, title: &str, artist: &str, matched_by: &str) -> (r:
    Result<Track, Error>)
    ensures
        match best {
            Some(t) => if accepts_musixmatch(t.track_name@, t.artist_name@, title@, artist@, matched_by@) {
                r == Ok::<Track, Error>(t)
            } else {
                r matches Err(e) && e is NotFound
            },
            None => r matches Err(e) && e is NotFound,
        },
{
    match best {
        Some(t) => if is_acceptable_match(&t, title, artist, matched_by) {
            Ok(t)
        } else {
            Err(Error::NotFound)
        },
        None => Err(Error::NotFound),
    }
}


/// With the matcher and nothing found, the search never finishes before the matcher lookup
/// on the request itself: after the title-and-artist search comes the title-only search
/// (when the title allows one) or the artist-only search; after the title-only search comes
/// the artist-only search; then the matcher on the variants and the matcher on the request.
/// Every move goes to a later stage.
pub proof fn lemma_nothing_found_reaches_matcher(s: Stage, title_only_ok: bool)
    ensures
        !(s is MatcherOriginal) && !(s is Finished) ==> !(stage_after(s, false, title_only_ok, true) is Finished),
        s is TitleArtist ==> stage_after(s, false, title_only_ok, true) == (if title_only_ok {
            Stage::TitleOnly
        } else {
            Stage::ArtistOnly
        }),
        s is TitleOnly ==> stage_after(s, false, title_only_ok, true) == Stage::ArtistOnly,
        s is ArtistOnly ==> stage_after(s, false, title_only_ok, true) == Stage::MatcherVariants,
        s is MatcherVariants ==> stage_after(s, false, title_only_ok, true) == Stage::MatcherOriginal,
        !(s is Finished) ==> stage_rank(stage_after(s, false, title_only_ok, true)) < stage_rank(s),
{
}

/// Once a track is found, the search finishes after the current stage; without the
/// matcher, the title-and-artist and title-only searches lead at most to the title-only
/// search, never to an artist-only or matcher stage.
pub proof fn lemma_found_finishes(s: Stage, title_only_ok: bool, with_matcher: bool)
    ensures
        stage_after(s, true, title_only_ok, with_matcher) == Stage::Finished,
        !with_matcher && (s is TitleArtist || s is TitleOnly) ==> (stage_after(
            s,
            false,
            title_only_ok,
            with_matcher,
        ) is TitleOnly
            || stage_after(s, false, title_only_ok, with_matcher) is Finished),
{
}

} // verus!
