//! Interpretation of M3U8 playlists.

use vstd::prelude::*;
use crate::decimal::{parse_decimal, parse_u64};
use crate::pattern::{capture, regex_capture};
use crate::text::{
    chars_of, has_substring, line_spans, option_text, slice_contains, spans_mark_lines,
    split_lines, string_of, trim, trim_slice,
};
use crate::url_parts::{
    absolute_reference, is_absolute_reference, join, join_reference, parse_url, parsed_url,
    resolve_reference, UrlParts, UrlPartsView,
};
use vstd::slice::slice_subrange;

verus! {

/// The regular expression that finds the bandwidth attribute of a stream-info
/// directive; its first group holds the digits.
pub open spec fn bandwidth_pattern() -> Seq<char> {
    "BANDWIDTH=(\\d+)"@
}

/// The bandwidth that the digits found in a directive denote, if any were
/// found and they denote a `u64`.
pub open spec fn bandwidth_of(digits: Option<Seq<char>>) -> Option<u64> {
    match digits {
        Some(d) => parse_decimal(d),
        None => None,
    }
}

/// The bandwidth attribute of the directive `line`.
pub open spec fn line_bandwidth(line: Seq<char>) -> Option<u64> {
    bandwidth_of(regex_capture(bandwidth_pattern(), line, 1))
}

/// Reads the digits that were found in a directive.
pub fn bandwidth_from_digits(digits: Option<&str>) -> (bandwidth: Option<u64>)
    ensures
        bandwidth == bandwidth_of(
            match digits {
                Some(d) => Some(d@),
                None => None,
            },
        ),
{
    match digits {
        Some(d) => {
            let chars = chars_of(d);
            parse_u64(chars.as_slice())
        },
        None => None,
    }
}

/// Why a playlist could not be resolved to media segments.
#[derive(Clone, Copy, Debug, PartialEq, Eq, Structural)]
pub enum ResolveError {
    /// A playlist's URL is no absolute URL.
    MalformedUrl,
    /// The body of the root playlist could not be retrieved.
    FetchError,
    /// The reachable playlists name no media segment.
    EmptyPlaylist,
}

/// The characters of each string of `v`.
pub open spec fn texts(v: Seq<String>) -> Seq<Seq<char>> {
    v.map_values(|s: String| s@)
}

/// The lines of a playlist, each without the white space around it.
pub open spec fn playlist_lines(content: Seq<char>) -> Seq<Seq<char>> {
    split_lines(content).map_values(|l: Seq<char>| trim(l))
}

/// Whether a trimmed line is a location reference: neither blank nor a
/// directive or comment.
pub open spec fn is_data_line(line: Seq<char>) -> bool {
    line.len() > 0 && line[0] != '#'
}

/// Whether a trimmed line is a stream-info directive.
pub open spec fn is_stream_info(line: Seq<char>) -> bool {
    !is_data_line(line) && has_substring(line, "EXT-X-STREAM-INF"@)
}

/// The index of the first stream-info directive at or behind line `from`;
/// the number of lines where there is none.
pub open spec fn first_stream_info(lines: Seq<Seq<char>>, from: int) -> int
    decreases lines.len() - from,
{
    if from < 0 || from >= lines.len() {
        lines.len() as int
    } else if is_stream_info(lines[from]) {
        from
    } else {
        first_stream_info(lines, from + 1)
    }
}

/// Whether the playlist is a master playlist: it holds a stream-info
/// directive.
pub open spec fn is_master(lines: Seq<Seq<char>>) -> bool {
    first_stream_info(lines, 0) < lines.len()
}

/// Whether line `i` announces a variant: a stream-info directive with a
/// bandwidth, directly followed by a location reference.
pub open spec fn is_variant(lines: Seq<Seq<char>>, i: int) -> bool {
    &&& 0 <= i
    &&& i + 1 < lines.len()
    &&& is_stream_info(lines[i])
    &&& line_bandwidth(lines[i]) is Some
    &&& is_data_line(lines[i + 1])
}

/// The bandwidth of the variant that line `i` announces.
pub open spec fn variant_bandwidth(lines: Seq<Seq<char>>, i: int) -> u64 {
    line_bandwidth(lines[i]).unwrap()
}

/// The line that announces the variant to follow, among the first `n` lines:
/// the one with the highest bandwidth, and of several such the first.
pub open spec fn best_variant(lines: Seq<Seq<char>>, n: int) -> Option<int>
    decreases n,
{
    if n <= 0 {
        None
    } else {
        let before = best_variant(lines, n - 1);
        if is_variant(lines, n - 1) && (before is None || variant_bandwidth(lines, n - 1)
            > variant_bandwidth(lines, before.unwrap())) {
            Some(n - 1)
        } else {
            before
        }
    }
}

/// The URL of the variant to follow, if the playlist announces any.
pub open spec fn best_variant_url(lines: Seq<Seq<char>>, base: UrlPartsView) -> Option<
    Seq<char>,
> {
    match best_variant(lines, lines.len() as int) {
        Some(i) => Some(join_reference(lines[i + 1], base)),
        None => None,
    }
}

/// The test for a location reference, as a function value.
pub open spec fn data_lines() -> spec_fn(Seq<char>) -> bool {
    |l: Seq<char>| is_data_line(l)
}

/// Resolution against `base`, as a function value.
pub open spec fn resolved_against(base: UrlPartsView) -> spec_fn(Seq<char>) -> Seq<char> {
    |l: Seq<char>| join_reference(l, base)
}

/// The location references among `lines`, resolved against `base`, in order.
pub open spec fn resolved_references(lines: Seq<Seq<char>>, base: UrlPartsView) -> Seq<
    Seq<char>,
> {
    lines.filter(data_lines()).map_values(resolved_against(base))
}

/// The media segments of a playlist: the location references that stand
/// before its first stream-info directive, resolved, in file order. In a
/// media playlist these are all its location references.
pub open spec fn media_segments(lines: Seq<Seq<char>>, base: UrlPartsView) -> Seq<Seq<char>> {
    resolved_references(lines.take(first_stream_info(lines, 0)), base)
}

/// What a playlist says: its media segments, whether it is a master
/// playlist, and the URL of the variant to follow.
pub open spec fn playlist_meaning(content: Seq<char>, base: UrlPartsView) -> (
    Seq<Seq<char>>,
    bool,
    Option<Seq<char>>,
) {
    let lines = playlist_lines(content);
    (media_segments(lines, base), is_master(lines), best_variant_url(lines, base))
}

/// `first_stream_info` is the first index that holds a stream-info
/// directive.
pub proof fn lemma_first_stream_info(lines: Seq<Seq<char>>, from: int, k: int)
    requires
        0 <= from <= k <= lines.len(),
        forall|j: int| from <= j < k ==> !is_stream_info(#[trigger] lines[j]),
        k == lines.len() || is_stream_info(lines[k]),
    ensures
        first_stream_info(lines, from) == k,
    decreases k - from,
{
    if from < k {
        lemma_first_stream_info(lines, from + 1, k);
    }
}

/// One more line extends the resolved references by that line if it is a
/// location reference, and not at all otherwise.
pub proof fn lemma_resolved_references_step(lines: Seq<Seq<char>>, base: UrlPartsView, i: int)
    requires
        0 <= i < lines.len(),
    ensures
        resolved_references(lines.take(i + 1), base) == if is_data_line(lines[i]) {
            resolved_references(lines.take(i), base).push(join_reference(lines[i], base))
        } else {
            resolved_references(lines.take(i), base)
        },
{
    reveal(Seq::filter);
    let next = lines.take(i + 1);
    assert(next.drop_last() =~= lines.take(i));
    assert(next.last() == lines[i]);
    let kept = lines.take(i).filter(data_lines());
    if is_data_line(lines[i]) {
        assert(next.filter(data_lines()) == kept.push(lines[i]));
        assert(kept.push(lines[i]).map_values(resolved_against(base)) =~= kept.map_values(
            resolved_against(base),
        ).push(join_reference(lines[i], base)));
    } else {
        assert(next.filter(data_lines()) == kept);
    }
}

/// The variant to follow is the first of those with the highest bandwidth:
/// no variant announces more, and none before it announces as much. Without
/// a variant there is none to follow.
pub proof fn lemma_best_variant_is_first_maximum(lines: Seq<Seq<char>>, n: int)
    requires
        0 <= n <= lines.len(),
    ensures
        match best_variant(lines, n) {
            None => forall|i: int| 0 <= i < n ==> !is_variant(lines, i),
            Some(k) => {
                &&& 0 <= k < n
                &&& is_variant(lines, k)
                &&& forall|i: int|
                    0 <= i < n && is_variant(lines, i) ==> variant_bandwidth(lines, i)
                        <= variant_bandwidth(lines, k)
                &&& forall|i: int|
                    0 <= i < k && is_variant(lines, i) ==> variant_bandwidth(lines, i)
                        < variant_bandwidth(lines, k)
            },
        },
    decreases n,
{
    if n > 0 {
        lemma_best_variant_is_first_maximum(lines, n - 1);
    }
}

/// A playlist without stream-info directive yields one media segment for
/// each of its location references, resolved, in file order.
pub proof fn lemma_media_playlist_segments(content: Seq<char>, base: UrlPartsView)
    requires
        !is_master(playlist_lines(content)),
    ensures
        playlist_meaning(content, base).0 == resolved_references(playlist_lines(content), base),
        playlist_meaning(content, base).0.len() == playlist_lines(content).filter(
            data_lines(),
        ).len(),
        forall|i: int|
            0 <= i < playlist_meaning(content, base).0.len() ==> playlist_meaning(
                content,
                base,
            ).0[i] == join_reference(playlist_lines(content).filter(data_lines())[i], base),
        playlist_meaning(content, base).2 is None,
{
    let lines = playlist_lines(content);
    lemma_first_stream_info_bounds(lines, 0);
    assert(lines.take(lines.len() as int) =~= lines);
    lemma_best_variant_is_first_maximum(lines, lines.len() as int);
    if best_variant(lines, lines.len() as int) is Some {
        let k = best_variant(lines, lines.len() as int).unwrap();
        lemma_no_stream_info(lines, 0, k);
    }
}

/// A playlist is a master playlist exactly where one of its lines is a
/// stream-info directive.
pub proof fn lemma_is_master(lines: Seq<Seq<char>>)
    ensures
        is_master(lines) <==> exists|i: int|
            0 <= i < lines.len() && is_stream_info(#[trigger] lines[i]),
{
    lemma_first_stream_info_bounds(lines, 0);
    let k = first_stream_info(lines, 0);
    if k < lines.len() {
        lemma_first_stream_info_found(lines, 0);
    } else {
        assert forall|i: int| 0 <= i < lines.len() implies !is_stream_info(#[trigger] lines[i]) by {
            lemma_no_stream_info(lines, 0, i);
        }
    }
}

/// Where a stream-info directive stands at or behind line `from`,
/// `first_stream_info` points at one.
pub proof fn lemma_first_stream_info_found(lines: Seq<Seq<char>>, from: int)
    requires
        0 <= from,
        first_stream_info(lines, from) < lines.len(),
    ensures
        is_stream_info(lines[first_stream_info(lines, from)]),
    decreases lines.len() - from,
{
    if from < lines.len() && !is_stream_info(lines[from]) {
        lemma_first_stream_info_found(lines, from + 1);
    }
}

/// The first stream-info directive at or behind line `from` stands at or
/// behind it, and within the playlist or at its end.
pub proof fn lemma_first_stream_info_bounds(lines: Seq<Seq<char>>, from: int)
    requires
        0 <= from <= lines.len(),
    ensures
        from <= first_stream_info(lines, from) <= lines.len(),
    decreases lines.len() - from,
{
    if from < lines.len() && !is_stream_info(lines[from]) {
        lemma_first_stream_info_bounds(lines, from + 1);
    }
}

/// Where no stream-info directive stands at or behind line `from`, no line
/// there is one.
pub proof fn lemma_no_stream_info(lines: Seq<Seq<char>>, from: int, k: int)
    requires
        0 <= from <= k < lines.len(),
        first_stream_info(lines, from) >= lines.len(),
    ensures
        !is_stream_info(lines[k]),
    decreases k - from,
{
    if from < k {
        lemma_no_stream_info(lines, from + 1, k);
    }
}

/// The trimmed line number `i` of a playlist.
fn line_at<'a>(content: &'a [char], spans: &Vec<(usize, usize)>, i: usize) -> (line: &'a [char])
    requires
        spans_mark_lines(content@, spans@),
        i < spans.len(),
    ensures
        line@ == playlist_lines(content@)[i as int],
{
    let span = spans[i];
    trim_slice(slice_subrange(content, span.0, span.1))
}

/// Whether a trimmed line is a location reference.
pub fn is_reference(line: &[char]) -> (b: bool)
    ensures
        b == is_data_line(line@),
{
    line.len() > 0 && line[0] != '#'
}

/// Interprets M3U8 playlist text.
pub struct M3u8Parser {
    verbose: bool,
}

impl M3u8Parser {
    /// Whether the caller asked for diagnostic narration.
    pub closed spec fn spec_verbose(&self) -> bool {
        self.verbose
    }

    /// A parser, with or without diagnostic narration.
    pub fn new(verbose: bool) -> (parser: Self)
        ensures
            parser.spec_verbose() == verbose,
    {
        Self { verbose }
    }

    /// Whether diagnostic narration was asked for.
    pub fn verbose(&self) -> (v: bool)
        ensures
            v == self.spec_verbose(),
    {
        self.verbose
    }

    /// The bandwidth attribute of a directive line: "not present" where the
    /// line carries none, or carries one that is no `u64`.
    pub fn extract_bandwidth(&self, line: &str) -> (bandwidth: Option<u64>)
        ensures
            bandwidth == line_bandwidth(line@),
            regex_capture(bandwidth_pattern(), line@, 1) is None ==> bandwidth is None,
    {
        let digits = capture("BANDWIDTH=(\\d+)", line, 1);
        match &digits {
            Some(d) => bandwidth_from_digits(Some(d.as_str())),
            None => bandwidth_from_digits(None),
        }
    }

    /// The absolute URL that `url` denotes inside the playlist at `base_url`.
    /// A reference that carries a scheme stands as it is, and so does any
    /// reference where `base_url` is no absolute URL.
    pub fn resolve_url(&self, url: &str, base_url: &str) -> (resolved: String)
        ensures
            resolved@ == resolve_reference(url@, base_url@),
            is_absolute_reference(url@) ==> resolved@ == url@,
            parsed_url(base_url@) is None ==> resolved@ == url@,
    {
        let reference = chars_of(url);
        if absolute_reference(reference.as_slice()) {
            return string_of(reference.as_slice());
        }
        match parse_url(base_url) {
            Ok(base) => {
                let joined = join(reference.as_slice(), &base);
                string_of(joined.as_slice())
            },
            Err(_) => string_of(reference.as_slice()),
        }
    }

    /// Interprets the text of the playlist whose URL has the parts `base`.
    pub fn interpret(&self, content: &[char], base: &UrlParts) -> (meaning: (
        Vec<String>,
        bool,
        Option<String>,
    ))
        ensures
            (texts(meaning.0@), meaning.1, option_text(meaning.2)) == playlist_meaning(
                content@,
                base@,
            ),
    {
        let spans = line_spans(content);
        let marker = chars_of("EXT-X-STREAM-INF");
        let ghost lines = playlist_lines(content@);
        let mut segments: Vec<String> = Vec::new();
        let mut master = false;
        let mut best: Option<(u64, String)> = None;
        assert(texts(segments@) =~= resolved_references(lines.take(0), base@)) by {
            reveal(Seq::filter);
            assert(lines.take(0) =~= Seq::<Seq<char>>::empty());
        }
        let mut i: usize = 0;
        while i < spans.len()
            invariant
                i <= spans.len(),
                spans.len() == lines.len(),
                spans_mark_lines(content@, spans@),
                lines == playlist_lines(content@),
                marker@ == "EXT-X-STREAM-INF"@,
                !master ==> forall|j: int| 0 <= j < i ==> !is_stream_info(#[trigger] lines[j]),
                !master ==> texts(segments@) == resolved_references(lines.take(i as int), base@),
                master ==> first_stream_info(lines, 0) < i,
                master ==> texts(segments@) == media_segments(lines, base@),
                match best {
                    None => best_variant(lines, i as int) is None,
                    Some((bandwidth, url)) => {
                        &&& best_variant(lines, i as int) matches Some(k)
                        &&& 0 <= k < i
                        &&& is_variant(lines, k)
                        &&& bandwidth == variant_bandwidth(lines, k)
                        &&& url@ == join_reference(lines[k + 1], base@)
                    },
                },
            decreases spans.len() - i,
        {
            let line = line_at(content, &spans, i);
            proof {
                lemma_resolved_references_step(lines, base@, i as int);
            }
            if !is_reference(line) {
                if slice_contains(line, marker.as_slice()) {
                    if !master {
                        proof {
                            lemma_first_stream_info(lines, 0, i as int);
                        }
                        master = true;
                    }
                    let text = string_of(line);
                    if let Some(bandwidth) = self.extract_bandwidth(text.as_str()) {
                        if i + 1 < spans.len() {
                            let next = line_at(content, &spans, i + 1);
                            if is_reference(next) {
                                assert(is_variant(lines, i as int));
                                let better = match &best {
                                    None => true,
                                    Some(held) => bandwidth > held.0,
                                };
                                if better {
                                    let joined = join(next, base);
                                    best = Some((bandwidth, string_of(joined.as_slice())));
                                }
                            }
                        }
                    }
                }
            } else if !master {
                let joined = join(line, base);
                let ghost before = segments@;
                segments.push(string_of(joined.as_slice()));
                assert(texts(segments@) =~= texts(before).push(join_reference(line@, base@)));
            }
            i += 1;
        }
        proof {
            assert(lines.take(lines.len() as int) =~= lines);
            if !master {
                lemma_first_stream_info(lines, 0, lines.len() as int);
            }
        }
        let url = match best {
            Some(held) => Some(held.1),
            None => None,
        };
        (segments, master, url)
    }

    /// Interprets the text of the playlist at `base_url`: its media segments
    /// in file order, whether it is a master playlist, and the URL of the
    /// variant to follow. Fails exactly where `base_url` is no absolute URL.
    pub fn parse_m3u8_content(&self, content: &str, base_url: &str) -> (parsed: Result<
        (Vec<String>, bool, Option<String>),
        ResolveError,
    >)
        ensures
            parsed is Err <==> parsed_url(base_url@) is None,
            parsed matches Err(e) ==> e == ResolveError::MalformedUrl,
            parsed matches Ok(meaning) ==> (
                texts(meaning.0@),
                meaning.1,
                option_text(meaning.2),
            ) == playlist_meaning(content@, parsed_url(base_url@).unwrap()),
    {
        match parse_url(base_url) {
            Ok(base) => {
                let chars = chars_of(content);
                Ok(self.interpret(chars.as_slice(), &base))
            },
            Err(_) => Err(ResolveError::MalformedUrl),
        }
    }
}

} // verus!
