//! The walk from a root playlist down to the media segments, as a state
//! machine: the caller fetches, the machine decides.

use vstd::prelude::*;
use crate::m3u8_parser::{
    best_variant, is_master, is_variant, lemma_best_variant_is_first_maximum,
    lemma_media_playlist_segments, playlist_lines, playlist_meaning, resolved_references, texts,
    variant_bandwidth, M3u8Parser, ResolveError,
};
use crate::text::option_text;
use crate::url_parts::{join_reference, parse_url, parsed_url};
use vstd::set_lib::lemma_len_subset;

verus! {

/// What came of fetching a playlist.
pub enum FetchOutcome {
    /// The body of the playlist, as text.
    Body(String),
    /// A transport error or a response without success status.
    Failed,
}

/// The body that a fetch brought, if it brought one.
pub open spec fn outcome_body(outcome: FetchOutcome) -> Option<Seq<char>> {
    match outcome {
        FetchOutcome::Body(text) => Some(text@),
        FetchOutcome::Failed => None,
    }
}

/// A walk that waits for a playlist: the URLs visited so far, the last of
/// them being the one to fetch now.
pub struct Traversal {
    visited: Vec<String>,
}

/// What the walk asks for next.
pub enum ResolveStep {
    /// Fetch the playlist that the traversal waits for.
    Fetch(Traversal),
    /// The walk is over: the media segments, or the reason there are none.
    Done(Result<Vec<String>, ResolveError>),
}

/// The mathematical value of a `ResolveStep`.
pub enum StepView {
    /// The URLs visited, the last of them to be fetched now.
    Fetch(Seq<Seq<char>>),
    /// The outcome of the walk.
    Done(Result<Seq<Seq<char>>, ResolveError>),
}

/// What a visit list must satisfy: it holds the root, and no URL twice.
pub open spec fn valid_visits(visited: Seq<Seq<char>>) -> bool {
    visited.len() > 0 && visited.no_duplicates()
}

/// The first step of resolving the playlist at `root`.
pub open spec fn first_step(root: Seq<char>) -> StepView {
    if parsed_url(root) is None {
        StepView::Done(Err(ResolveError::MalformedUrl))
    } else {
        StepView::Fetch(seq![root])
    }
}

/// What a playlist says, as `playlist_meaning` gives it: its media segments,
/// whether it is a master playlist, and the URL of the variant to follow.
pub type Meaning = (Seq<Seq<char>>, bool, Option<Seq<char>>);

/// The step that follows a fetch that failed: the walk ends, with
/// `FetchError` at the root playlist and without segments below it.
pub open spec fn step_after_failure(visited: Seq<Seq<char>>) -> StepView {
    StepView::Done(
        Err(
            if visited.len() == 1 {
                ResolveError::FetchError
            } else {
                ResolveError::EmptyPlaylist
            },
        ),
    )
}

/// The step that follows a playlist with the given meaning, where
/// `variant_is_url` says whether the variant to follow is an absolute URL.
///
/// A media playlist ends the walk with its segments, or with
/// `EmptyPlaylist` where it has none. A master playlist sends the walk to
/// its variant; it ends the walk with `EmptyPlaylist` where it has no
/// variant or the variant was visited before, and with `MalformedUrl` where
/// the variant is no absolute URL.
pub open spec fn step_after_playlist(
    visited: Seq<Seq<char>>,
    meaning: Meaning,
    variant_is_url: bool,
) -> StepView {
    if !meaning.1 {
        if meaning.0.len() == 0 {
            StepView::Done(Err(ResolveError::EmptyPlaylist))
        } else {
            StepView::Done(Ok(meaning.0))
        }
    } else {
        match meaning.2 {
            None => StepView::Done(Err(ResolveError::EmptyPlaylist)),
            Some(url) => if visited.contains(url) {
                StepView::Done(Err(ResolveError::EmptyPlaylist))
            } else if !variant_is_url {
                StepView::Done(Err(ResolveError::MalformedUrl))
            } else {
                StepView::Fetch(visited.push(url))
            },
        }
    }
}

/// Whether the variant that a playlist sends the walk to is an absolute URL.
pub open spec fn variant_parses(meaning: Meaning) -> bool {
    match meaning.2 {
        Some(url) => parsed_url(url) is Some,
        None => false,
    }
}

/// The step that follows when the fetch of the last visited URL ended with
/// `body`.
pub open spec fn next_step(visited: Seq<Seq<char>>, body: Option<Seq<char>>) -> StepView {
    match body {
        None => step_after_failure(visited),
        Some(content) => match parsed_url(visited.last()) {
            None => StepView::Done(Err(ResolveError::MalformedUrl)),
            Some(base) => {
                let meaning = playlist_meaning(content, base);
                step_after_playlist(visited, meaning, variant_parses(meaning))
            },
        },
    }
}

/// A walk asks for no playlist twice: the step that asks for another fetch
/// adds one URL that was not visited before, so the fetches asked for are as
/// many as the distinct URLs met.
pub proof fn lemma_fetch_visits_new_url(visited: Seq<Seq<char>>, body: Option<Seq<char>>)
    requires
        valid_visits(visited),
    ensures
        next_step(visited, body) matches StepView::Fetch(next) ==> {
            &&& next.drop_last() == visited
            &&& !visited.contains(next.last())
            &&& parsed_url(next.last()) is Some
            &&& valid_visits(next)
            &&& next.to_set().len() == next.len()
        },
{
    if let StepView::Fetch(next) = next_step(visited, body) {
        assert(next.drop_last() =~= visited);
        assert forall|i: int, j: int|
            0 <= i < next.len() && 0 <= j < next.len() && i != j implies next[i] != next[j] by {
            if i < visited.len() && j < visited.len() {
                assert(visited[i] != visited[j]);
            } else if i < visited.len() {
                assert(visited.contains(visited[i]));
            } else {
                assert(visited.contains(visited[j]));
            }
        }
        next.unique_seq_to_set();
    }
}

/// A playlist that sends the walk back to a URL already visited, be it the
/// playlist itself or one that led to it, ends the walk: no cycle is walked
/// twice.
pub proof fn lemma_cycle_ends_walk(visited: Seq<Seq<char>>, meaning: Meaning, variant_is_url: bool)
    requires
        meaning.1,
        meaning.2 matches Some(url) && visited.contains(url),
    ensures
        step_after_playlist(visited, meaning, variant_is_url) == StepView::Done(
            Err(ResolveError::EmptyPlaylist),
        ),
{
}

/// A walk that succeeds returns at least one segment.
pub proof fn lemma_segments_never_empty(
    root: Seq<char>,
    visited: Seq<Seq<char>>,
    body: Option<Seq<char>>,
)
    ensures
        !(first_step(root) matches StepView::Done(Ok(_))),
        next_step(visited, body) matches StepView::Done(Ok(segments)) ==> segments.len() > 0,
{
}

/// A walk through playlists that name URLs of a finite set only asks for no
/// more playlists than the set holds URLs.
pub proof fn lemma_walk_is_bounded(visited: Seq<Seq<char>>, universe: Set<Seq<char>>)
    requires
        valid_visits(visited),
        universe.finite(),
        forall|i: int| 0 <= i < visited.len() ==> universe.contains(#[trigger] visited[i]),
    ensures
        visited.len() <= universe.len(),
{
    visited.unique_seq_to_set();
    assert(visited.to_set().subset_of(universe)) by {
        assert forall|u: Seq<char>| visited.to_set().contains(u) implies universe.contains(u) by {
            let i = choose|i: int| 0 <= i < visited.len() && visited[i] == u;
            assert(universe.contains(visited[i]));
        }
    }
    lemma_len_subset(visited.to_set(), universe);
}

/// A media playlist at the root resolves to one segment for each of its
/// location references, in file order.
pub proof fn lemma_media_root_resolves(root: Seq<char>, content: Seq<char>)
    requires
        parsed_url(root) is Some,
        !is_master(playlist_lines(content)),
        resolved_references(playlist_lines(content), parsed_url(root).unwrap()).len() > 0,
    ensures
        first_step(root) == StepView::Fetch(seq![root]),
        next_step(seq![root], Some(content)) == StepView::Done(
            Ok(resolved_references(playlist_lines(content), parsed_url(root).unwrap())),
        ),
{
    lemma_media_playlist_segments(content, parsed_url(root).unwrap());
    assert(seq![root].last() == root);
}

/// A master playlist sends the walk to one playlist only: that of the
/// variant with the highest bandwidth, the first of them where several
/// announce it.
pub proof fn lemma_master_follows_best_variant(visited: Seq<Seq<char>>, content: Seq<char>)
    requires
        is_master(playlist_lines(content)),
    ensures
        next_step(visited, Some(content)) matches StepView::Fetch(next) ==> {
            let lines = playlist_lines(content);
            let base = parsed_url(visited.last()).unwrap();
            &&& next == visited.push(next.last())
            &&& exists|k: int|
                {
                    &&& is_variant(lines, k)
                    &&& next.last() == join_reference(lines[k + 1], base)
                    &&& forall|i: int|
                        is_variant(lines, i) ==> variant_bandwidth(lines, i)
                            <= variant_bandwidth(lines, k)
                    &&& forall|i: int|
                        is_variant(lines, i) && i < k ==> variant_bandwidth(lines, i)
                            < variant_bandwidth(lines, k)
                }
        },
{
    let lines = playlist_lines(content);
    lemma_best_variant_is_first_maximum(lines, lines.len() as int);
    if let StepView::Fetch(next) = next_step(visited, Some(content)) {
        let k = best_variant(lines, lines.len() as int).unwrap();
        assert(next.last() == join_reference(lines[k + 1], parsed_url(visited.last()).unwrap()));
        assert(next =~= visited.push(next.last()));
    }
}

impl Traversal {
    /// The URLs visited so far, in the order of their visit.
    pub closed spec fn visited_urls(self) -> Seq<Seq<char>> {
        texts(self.visited@)
    }

    /// Every traversal holds a valid visit list.
    #[verifier::type_invariant]
    pub open spec fn wf(self) -> bool {
        valid_visits(self.visited_urls())
    }

    /// The URL of the playlist to fetch now.
    pub fn current(&self) -> (url: &str)
        ensures
            url@ == self.visited_urls().last(),
            valid_visits(self.visited_urls()),
    {
        proof {
            use_type_invariant(self);
        }
        self.visited[self.visited.len() - 1].as_str()
    }

    /// How many playlists the walk has asked for, this one included.
    pub fn fetches(&self) -> (n: usize)
        ensures
            n == self.visited_urls().len(),
            valid_visits(self.visited_urls()),
    {
        proof {
            use_type_invariant(self);
        }
        self.visited.len()
    }
}

impl View for ResolveStep {
    type V = StepView;

    open spec fn view(&self) -> StepView {
        match self {
            ResolveStep::Fetch(t) => StepView::Fetch(t.visited_urls()),
            ResolveStep::Done(Ok(segments)) => StepView::Done(Ok(texts(segments@))),
            ResolveStep::Done(Err(e)) => StepView::Done(Err(*e)),
        }
    }
}

/// Whether `url` is among `visited`.
fn was_visited(visited: &Vec<String>, url: &String) -> (b: bool)
    ensures
        b == texts(visited@).contains(url@),
{
    let mut i: usize = 0;
    while i < visited.len()
        invariant
            i <= visited.len(),
            forall|k: int| 0 <= k < i ==> texts(visited@)[k] != url@,
        decreases visited.len() - i,
    {
        if visited[i] == *url {
            assert(texts(visited@)[i as int] == url@);
            return true;
        }
        i += 1;
    }
    false
}

impl M3u8Parser {
    /// Begins to resolve the playlist at `root`: asks for its body, or fails
    /// at once where `root` is no absolute URL.
    pub fn start_resolve(&self, root: &str) -> (step: ResolveStep)
        ensures
            step@ == first_step(root@),
    {
        match parse_url(root) {
            Ok(_) => {
                let mut visited: Vec<String> = Vec::new();
                visited.push(root.to_owned());
                assert(texts(visited@) =~= seq![root@]);
                ResolveStep::Fetch(Traversal { visited })
            },
            Err(_) => ResolveStep::Done(Err(ResolveError::MalformedUrl)),
        }
    }

    /// Decides how the walk goes on after a playlist with the given
    /// meaning was fetched; `variant_is_url` says whether the variant that
    /// it sends the walk to is an absolute URL.
    pub fn after_playlist(
        &self,
        state: Traversal,
        meaning: (Vec<String>, bool, Option<String>),
        variant_is_url: bool,
    ) -> (step: ResolveStep)
        ensures
            step@ == step_after_playlist(
                state.visited_urls(),
                (texts(meaning.0@), meaning.1, option_text(meaning.2)),
                variant_is_url,
            ),
    {
        proof {
            use_type_invariant(&state);
        }
        let mut visited = state.visited;
        let ghost before = texts(visited@);
        let (segments, master, best) = meaning;
        if !master {
            if segments.len() == 0 {
                ResolveStep::Done(Err(ResolveError::EmptyPlaylist))
            } else {
                ResolveStep::Done(Ok(segments))
            }
        } else {
            match best {
                None => ResolveStep::Done(Err(ResolveError::EmptyPlaylist)),
                Some(url) => {
                    if was_visited(&visited, &url) {
                        ResolveStep::Done(Err(ResolveError::EmptyPlaylist))
                    } else if !variant_is_url {
                        ResolveStep::Done(Err(ResolveError::MalformedUrl))
                    } else {
                        let ghost added = url@;
                        visited.push(url);
                        assert(texts(visited@) =~= before.push(added));
                        assert(texts(visited@).no_duplicates()) by {
                            assert forall|i: int, j: int|
                                0 <= i < before.len() + 1 && 0 <= j < before.len() + 1 && i
                                    != j implies before.push(added)[i] != before.push(added)[j] by {
                                if i < before.len() && j < before.len() {
                                    assert(before[i] != before[j]);
                                } else if i < before.len() {
                                    assert(before.contains(before[i]));
                                } else {
                                    assert(before.contains(before[j]));
                                }
                            }
                        }
                        ResolveStep::Fetch(Traversal { visited })
                    }
                },
            }
        }
    }

    /// Ends the walk after a fetch that failed: with `FetchError` where the
    /// root playlist could not be fetched, without segments below it.
    pub fn after_failure(&self, state: Traversal) -> (step: ResolveStep)
        ensures
            step@ == step_after_failure(state.visited_urls()),
    {
        if state.fetches() == 1 {
            ResolveStep::Done(Err(ResolveError::FetchError))
        } else {
            ResolveStep::Done(Err(ResolveError::EmptyPlaylist))
        }
    }

    /// Takes the outcome of the fetch that `state` waited for and decides
    /// how the walk goes on.
    ///
    /// A body that is a media playlist ends the walk with its segments, or
    /// with `EmptyPlaylist` where it has none. A master playlist sends the
    /// walk to its best variant, unless that URL was visited before, which
    /// ends the walk with `EmptyPlaylist`, as does a master playlist without
    /// a variant. A failed fetch ends the walk: with `FetchError` for the
    /// root playlist, with `EmptyPlaylist` below it.
    pub fn continue_resolve(&self, state: Traversal, outcome: FetchOutcome) -> (step: ResolveStep)
        ensures
            step@ == next_step(state.visited_urls(), outcome_body(outcome)),
    {
        match outcome {
            FetchOutcome::Failed => self.after_failure(state),
            FetchOutcome::Body(content) => {
                match self.parse_m3u8_content(content.as_str(), state.current()) {
                    Err(e) => ResolveStep::Done(Err(e)),
                    Ok(meaning) => {
                        let variant_is_url = match &meaning.2 {
                            Some(url) => parse_url(url.as_str()).is_ok(),
                            None => false,
                        };
                        self.after_playlist(state, meaning, variant_is_url)
                    },
                }
            },
        }
    }
}

} // verus!
