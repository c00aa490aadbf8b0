//! Which measurement a URL calls for: the signature of a multicast proxy,
//! the declared media type of a probe, and the name the URL ends in.

use vstd::prelude::*;
use crate::text::{
    after_last, after_last_slice, before_char, before_char_slice, chars_of, count_char,
    count_char_slice, ends_with, has_substring, slice_contains, slice_ends_with, string_of,
};
use crate::url_parts::{parse_url, parsed_url, push_str, UrlParts, UrlPartsView};

verus! {

/// What kind of resource a URL names, and how sure that is.
#[derive(Clone, Copy, Debug, PartialEq, Eq, Structural)]
pub enum ClassificationOutcome {
    /// The probe succeeded and found no playlist.
    DirectMedia,
    /// The probe succeeded and found a playlist.
    HlsPlaylist,
    /// The URL carries the signature of a multicast proxy.
    UdpProxy,
    /// The probe failed and the URL names a playlist.
    ProbeFailedLikelyHls,
    /// The probe failed and the URL names no playlist.
    ProbeFailedNotHls,
}

/// What came of the metadata-only probe.
pub enum ProbeOutcome {
    /// A response with success status; the media type it declares, empty
    /// where it declares none.
    Succeeded { content_type: String },
    /// A transport error or a response without success status.
    Failed,
}

/// The media type that a probe found, if it succeeded.
pub open spec fn probed_type(probe: ProbeOutcome) -> Option<Seq<char>> {
    match probe {
        ProbeOutcome::Succeeded { content_type } => Some(content_type@),
        ProbeOutcome::Failed => None,
    }
}

/// A path with this many slashes or more counts as unusually deep.
pub const DEEP_PATH_SLASHES: usize = 4;

/// The lower-case form of `s`, as the standard library defines it.
pub uninterp spec fn lowercase(s: Seq<char>) -> Seq<char>;

/// `str::to_lowercase`. The contract claims only that the result is the one
/// `lowercase` names for the same text.
#[verifier::external_body]
pub(crate) fn to_lowercase(s: &str) -> (lower: String)
    ensures
        lower@ == lowercase(s@),
{
    s.to_lowercase()
}

/// The final path segment of a URL: what stands behind the last slash, once
/// the query and the fragment are cut off.
pub open spec fn url_basename(url: Seq<char>) -> Seq<char> {
    after_last(before_char(before_char(url, '?'), '#'), '/')
}

/// Whether a final path segment, in lower case, carries the playlist
/// extension.
pub open spec fn is_playlist_name(lowered_basename: Seq<char>) -> bool {
    ends_with(lowered_basename, ".m3u8"@)
}

/// Whether a declared media type, in lower case, is that of a playlist.
pub open spec fn is_playlist_type(lowered_type: Seq<char>) -> bool {
    has_substring(lowered_type, "mpegurl"@) || has_substring(lowered_type, "m3u8"@)
}

/// Whether the URL's final path segment ends in the playlist extension,
/// letter case aside.
pub open spec fn names_playlist(url: Seq<char>) -> bool {
    is_playlist_name(lowercase(url_basename(url)))
}

/// Whether the declared media type is that of a playlist, letter case aside.
pub open spec fn declares_playlist(content_type: Seq<char>) -> bool {
    is_playlist_type(lowercase(content_type))
}

/// Path and query of a URL, as they follow the host.
pub open spec fn path_and_query(parts: UrlPartsView) -> Seq<char> {
    match parts.query {
        Some(q) => parts.path + seq!['?'] + q,
        None => parts.path,
    }
}

/// The signature of a multicast proxy: path and query hold the segment
/// `/rtp/` and the multicast marker `239.`, and either name a port, with a
/// colon, or the path is unusually deep.
pub open spec fn has_proxy_signature(parts: UrlPartsView) -> bool {
    let target = path_and_query(parts);
    &&& has_substring(target, "/rtp/"@)
    &&& has_substring(target, "239."@)
    &&& (count_char(target, ':') > 0 || count_char(parts.path, '/') >= DEEP_PATH_SLASHES)
}

/// Whether a URL is that of a multicast proxy.
pub open spec fn is_udp_proxy(url: Seq<char>) -> bool {
    match parsed_url(url) {
        Some(parts) => has_proxy_signature(parts),
        None => false,
    }
}

/// What a probe says of a URL that is no multicast proxy: given the URL's
/// final path segment and, where the probe succeeded, the declared media
/// type, both in lower case.
pub open spec fn probe_verdict(
    lowered_basename: Seq<char>,
    lowered_type: Option<Seq<char>>,
) -> ClassificationOutcome {
    match lowered_type {
        Some(t) => if is_playlist_type(t) || is_playlist_name(lowered_basename) {
            ClassificationOutcome::HlsPlaylist
        } else {
            ClassificationOutcome::DirectMedia
        },
        None => if is_playlist_name(lowered_basename) {
            ClassificationOutcome::ProbeFailedLikelyHls
        } else {
            ClassificationOutcome::ProbeFailedNotHls
        },
    }
}

/// The lower-case form of an optional text.
pub open spec fn lowercase_of(text: Option<Seq<char>>) -> Option<Seq<char>> {
    match text {
        Some(t) => Some(lowercase(t)),
        None => None,
    }
}

/// The classification of a URL that is no multicast proxy, from what the
/// probe found.
pub open spec fn probe_classification(
    url: Seq<char>,
    probed: Option<Seq<char>>,
) -> ClassificationOutcome {
    probe_verdict(lowercase(url_basename(url)), lowercase_of(probed))
}

/// The classification of a URL: a multicast proxy by its signature alone,
/// anything else by what the probe found.
pub open spec fn classification(
    url: Seq<char>,
    probed: Option<Seq<char>>,
) -> ClassificationOutcome {
    if is_udp_proxy(url) {
        ClassificationOutcome::UdpProxy
    } else {
        probe_classification(url, probed)
    }
}

/// The classification keeps apart what is known from what is guessed: a
/// multicast proxy is told by its signature alone; of any other URL a probe
/// that succeeded tells whether it is a playlist, and a probe that failed
/// leaves the URL's name to tell whether it is likely one.
pub proof fn lemma_classification_cases(url: Seq<char>, probed: Option<Seq<char>>)
    ensures
        is_udp_proxy(url) <==> classification(url, probed) == ClassificationOutcome::UdpProxy,
        !is_udp_proxy(url) && probed is Some ==> classification(url, probed) == (if names_playlist(
            url,
        ) || declares_playlist(probed.unwrap()) {
            ClassificationOutcome::HlsPlaylist
        } else {
            ClassificationOutcome::DirectMedia
        }),
        !is_udp_proxy(url) && probed is None ==> classification(url, probed) == (if names_playlist(
            url,
        ) {
            ClassificationOutcome::ProbeFailedLikelyHls
        } else {
            ClassificationOutcome::ProbeFailedNotHls
        }),
{
}

/// The final path segment of `url`.
pub fn basename(url: &[char]) -> (name: &[char])
    ensures
        name@ == url_basename(url@),
{
    after_last_slice(before_char_slice(before_char_slice(url, '?'), '#'), '/')
}

/// Whether the parts of a URL carry the signature of a multicast proxy.
pub fn proxy_signature(parts: &UrlParts) -> (b: bool)
    ensures
        b == has_proxy_signature(parts@),
{
    let path = chars_of(parts.path.as_str());
    let mut target: Vec<char> = Vec::new();
    target.extend_from_slice(path.as_slice());
    match &parts.query {
        Some(q) => {
            target.push('?');
            push_str(&mut target, q.as_str());
        },
        None => {},
    }
    assert(target@ =~= path_and_query(parts@));
    let rtp = chars_of("/rtp/");
    let marker = chars_of("239.");
    slice_contains(target.as_slice(), rtp.as_slice()) && slice_contains(
        target.as_slice(),
        marker.as_slice(),
    ) && (count_char_slice(target.as_slice(), ':') > 0 || count_char_slice(path.as_slice(), '/')
        >= DEEP_PATH_SLASHES)
}

/// Whether `url` is that of a multicast proxy. The check needs no probe.
pub fn udp_proxy(url: &str) -> (b: bool)
    ensures
        b == is_udp_proxy(url@),
{
    match parse_url(url) {
        Ok(parts) => proxy_signature(&parts),
        Err(_) => false,
    }
}

/// The verdict of a probe, from the URL's final path segment and the
/// declared media type of a successful probe, both in lower case.
pub fn verdict(lowered_basename: &str, lowered_type: Option<&str>) -> (outcome:
    ClassificationOutcome)
    ensures
        outcome == probe_verdict(
            lowered_basename@,
            match lowered_type {
                Some(t) => Some(t@),
                None => None,
            },
        ),
{
    let name = chars_of(lowered_basename);
    let extension = chars_of(".m3u8");
    let by_name = slice_ends_with(name.as_slice(), extension.as_slice());
    match lowered_type {
        Some(t) => {
            let declared = chars_of(t);
            let mpegurl = chars_of("mpegurl");
            let m3u8 = chars_of("m3u8");
            let by_type = slice_contains(declared.as_slice(), mpegurl.as_slice())
                || slice_contains(declared.as_slice(), m3u8.as_slice());
            if by_type || by_name {
                ClassificationOutcome::HlsPlaylist
            } else {
                ClassificationOutcome::DirectMedia
            }
        },
        None => {
            if by_name {
                ClassificationOutcome::ProbeFailedLikelyHls
            } else {
                ClassificationOutcome::ProbeFailedNotHls
            }
        },
    }
}

/// Classifies a URL that is no multicast proxy from what the probe found.
pub fn classify_probe(url: &str, probe: &ProbeOutcome) -> (outcome: ClassificationOutcome)
    ensures
        outcome == probe_classification(url@, probed_type(*probe)),
{
    let chars = chars_of(url);
    let name = string_of(basename(chars.as_slice()));
    let lowered_name = to_lowercase(name.as_str());
    match probe {
        ProbeOutcome::Succeeded { content_type } => {
            let lowered_type = to_lowercase(content_type.as_str());
            verdict(lowered_name.as_str(), Some(lowered_type.as_str()))
        },
        ProbeOutcome::Failed => verdict(lowered_name.as_str(), None),
    }
}

/// Classifies a URL: a multicast proxy by its signature alone, whatever the
/// probe found; anything else by the probe.
pub fn classify(url: &str, probe: &ProbeOutcome) -> (outcome: ClassificationOutcome)
    ensures
        outcome == classification(url@, probed_type(*probe)),
        is_udp_proxy(url@) <==> outcome == ClassificationOutcome::UdpProxy,
{
    if udp_proxy(url) {
        ClassificationOutcome::UdpProxy
    } else {
        classify_probe(url, probe)
    }
}

} // verus!
