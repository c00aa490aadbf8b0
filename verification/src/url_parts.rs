//! The parts of an absolute URL that the playlist and classification rules
//! read, and the resolution of playlist references against a base URL.

use vstd::prelude::*;
use crate::decimal::{decimal_digits, push_decimal};
use crate::text::{
    before_last, before_last_slice, chars_of, lemma_strip_trailing_ends, option_text,
    strip_leading, strip_leading_slice, strip_trailing, strip_trailing_slice,
};

verus! {

/// The error with which the `url` crate refuses a text.
#[verifier::external_type_specification]
#[verifier::external_body]
pub struct ExParseError(url::ParseError);

/// The parts of a parsed absolute URL.
pub struct UrlParts {
    /// The scheme, without the colon.
    pub scheme: String,
    /// The user name; empty where the URL has none.
    pub username: String,
    /// The password, where the URL has one.
    pub password: Option<String>,
    /// The host, where the URL has one.
    pub host: Option<String>,
    /// The port, where the URL names one that is not its scheme's default.
    pub port: Option<u16>,
    /// The path.
    pub path: String,
    /// The query, without the question mark, where the URL has one.
    pub query: Option<String>,
}

/// The mathematical value of a `UrlParts`.
pub struct UrlPartsView {
    pub scheme: Seq<char>,
    pub username: Seq<char>,
    pub password: Option<Seq<char>>,
    pub host: Option<Seq<char>>,
    pub port: Option<u16>,
    pub path: Seq<char>,
    pub query: Option<Seq<char>>,
}

impl View for UrlParts {
    type V = UrlPartsView;

    open spec fn view(&self) -> UrlPartsView {
        UrlPartsView {
            scheme: self.scheme@,
            username: self.username@,
            password: option_text(self.password),
            host: option_text(self.host),
            port: self.port,
            path: self.path@,
            query: option_text(self.query),
        }
    }
}

/// What the `url` crate makes of `input` as an absolute URL: its parts, or
/// nothing where the crate refuses the text.
pub uninterp spec fn parsed_url(input: Seq<char>) -> Option<UrlPartsView>;

/// `url::Url::parse`, with the scheme, user name, password, host, port, path
/// and query of the URL it returns (`Url::scheme`, `Url::username`,
/// `Url::password`, `Url::host_str`, `Url::port`, `Url::path`, `Url::query`)
/// copied out. The contract claims only that the outcome is the one
/// `parsed_url` names for the same text.
#[verifier::external_body]
pub(crate) fn parse_url(input: &str) -> (parsed: Result<UrlParts, url::ParseError>)
    ensures
        parsed matches Ok(parts) ==> parsed_url(input@) == Some(parts@),
        parsed is Err ==> parsed_url(input@) is None,
{
    let u = url::Url::parse(input)?;
    Ok(
        UrlParts {
            scheme: u.scheme().to_owned(),
            username: u.username().to_owned(),
            password: u.password().map(str::to_owned),
            host: u.host_str().map(str::to_owned),
            port: u.port(),
            path: u.path().to_owned(),
            query: u.query().map(str::to_owned),
        },
    )
}

/// Whether `c` is an ASCII letter.
pub open spec fn is_ascii_letter(c: char) -> bool {
    (0x41 <= c as u32 <= 0x5A) || (0x61 <= c as u32 <= 0x7A)
}

/// Whether `c` may stand in a URL scheme behind its first letter: a letter,
/// a digit, or one of `+`, `-` and `.`.
pub open spec fn is_scheme_char(c: char) -> bool {
    is_ascii_letter(c) || (0x30 <= c as u32 <= 0x39) || c == '+' || c == '-' || c == '.'
}

/// Whether the colon at position `n` of `reference` ends a scheme that
/// begins the reference.
pub open spec fn scheme_ends_at(reference: Seq<char>, n: int) -> bool {
    &&& 0 < n < reference.len()
    &&& reference[n] == ':'
    &&& is_ascii_letter(reference[0])
    &&& forall|i: int| 0 < i < n ==> is_scheme_char(#[trigger] reference[i])
}

/// Whether a playlist reference carries a scheme, which makes it an absolute
/// URL: it begins with a letter, followed by letters, digits, `+`, `-` or
/// `.`, up to a colon.
pub open spec fn is_absolute_reference(reference: Seq<char>) -> bool {
    exists|n: int| scheme_ends_at(reference, n)
}

/// The user information of the base as it stands before the host: user name
/// and password, joined by a colon where there is a password, and followed by
/// `@`. Nothing where the base has neither.
pub open spec fn userinfo_of(base: UrlPartsView) -> Seq<char> {
    match base.password {
        Some(p) => base.username + seq![':'] + p + seq!['@'],
        None => if base.username.len() > 0 {
            base.username + seq!['@']
        } else {
            Seq::empty()
        },
    }
}

/// Scheme and authority of the base: user information, host and port. The
/// host `localhost` stands in where the base has none, and the port follows a
/// colon where the base names one.
pub open spec fn origin_of(base: UrlPartsView) -> Seq<char> {
    base.scheme + "://"@ + userinfo_of(base) + match base.host {
        Some(h) => h,
        None => "localhost"@,
    } + match base.port {
        Some(p) => seq![':'] + decimal_digits(p as nat),
        None => Seq::empty(),
    }
}

/// The base URL's directory: the origin followed by the base path without
/// its final segment.
pub open spec fn directory_of(base: UrlPartsView) -> Seq<char> {
    let dir = before_last(base.path, '/');
    if dir.len() == 0 || dir == seq!['/'] {
        origin_of(base)
    } else {
        origin_of(base) + seq!['/'] + strip_leading(dir, '/')
    }
}

/// The absolute URL that `reference` denotes inside a playlist at `base`.
pub open spec fn join_reference(reference: Seq<char>, base: UrlPartsView) -> Seq<char> {
    if is_absolute_reference(reference) {
        reference
    } else if reference.len() > 0 && reference[0] == '/' {
        origin_of(base) + reference
    } else {
        strip_trailing(directory_of(base), '/') + seq!['/'] + reference
    }
}

/// As `join_reference`, for a base that may not have parsed: without a base a
/// reference stands as it is.
pub open spec fn resolve_against(reference: Seq<char>, base: Option<UrlPartsView>) -> Seq<
    char,
> {
    match base {
        Some(parts) => join_reference(reference, parts),
        None => reference,
    }
}

/// The absolute URL that `reference` denotes inside the playlist at the URL
/// `base`.
pub open spec fn resolve_reference(reference: Seq<char>, base: Seq<char>) -> Seq<char> {
    resolve_against(reference, parsed_url(base))
}

/// A reference that carries no scheme and does not begin with a slash is
/// joined to the base URL's directory with exactly one slash between them:
/// the directory part does not end in one, and the reference does not begin
/// with one.
pub proof fn lemma_one_separating_slash(reference: Seq<char>, base: UrlPartsView)
    requires
        !is_absolute_reference(reference),
        reference.len() == 0 || reference[0] != '/',
    ensures
        ({
            let directory = strip_trailing(directory_of(base), '/');
            &&& join_reference(reference, base) == directory + seq!['/'] + reference
            &&& directory.len() == 0 || directory.last() != '/'
        }),
{
    lemma_strip_trailing_ends(directory_of(base), '/');
}

/// Appends the characters of `s` to `out`.
pub fn push_str(out: &mut Vec<char>, s: &str)
    ensures
        final(out)@ == old(out)@ + s@,
{
    let chars = chars_of(s);
    out.extend_from_slice(chars.as_slice());
}

/// Whether `c` is an ASCII letter.
fn ascii_letter(c: char) -> (b: bool)
    ensures
        b == is_ascii_letter(c),
{
    let u: u32 = c as u32;
    (0x41 <= u && u <= 0x5A) || (0x61 <= u && u <= 0x7A)
}

/// Whether `c` may stand in a URL scheme behind its first letter.
fn scheme_char(c: char) -> (b: bool)
    ensures
        b == is_scheme_char(c),
{
    let u: u32 = c as u32;
    ascii_letter(c) || (0x30 <= u && u <= 0x39) || c == '+' || c == '-' || c == '.'
}

/// Whether a playlist reference carries a scheme.
pub fn absolute_reference(reference: &[char]) -> (b: bool)
    ensures
        b == is_absolute_reference(reference@),
{
    if reference.len() == 0 || !ascii_letter(reference[0]) {
        return false;
    }
    let mut n: usize = 1;
    while n < reference.len() && scheme_char(reference[n])
        invariant
            1 <= n <= reference.len(),
            is_ascii_letter(reference@[0]),
            forall|i: int| 0 < i < n ==> is_scheme_char(#[trigger] reference@[i]),
        decreases reference.len() - n,
    {
        n += 1;
    }
    if n < reference.len() && reference[n] == ':' {
        assert(scheme_ends_at(reference@, n as int));
        true
    } else {
        assert forall|m: int| !scheme_ends_at(reference@, m) by {
            if scheme_ends_at(reference@, m) {
                if m < n {
                    assert(is_scheme_char(reference@[m]));
                } else if m > n {
                    assert(is_scheme_char(reference@[n as int]));
                }
            }
        }
        false
    }
}

/// Scheme and authority of the base.
fn origin(base: &UrlParts) -> (out: Vec<char>)
    ensures
        out@ == origin_of(base@),
{
    let mut out = chars_of(base.scheme.as_str());
    push_str(&mut out, "://");
    let ghost before = out@;
    match &base.password {
        Some(p) => {
            push_str(&mut out, base.username.as_str());
            out.push(':');
            push_str(&mut out, p.as_str());
            out.push('@');
        },
        None => {
            if base.username.as_str().unicode_len() > 0 {
                push_str(&mut out, base.username.as_str());
                out.push('@');
            }
        },
    }
    assert(out@ =~= before + userinfo_of(base@));
    match &base.host {
        Some(h) => push_str(&mut out, h.as_str()),
        None => push_str(&mut out, "localhost"),
    }
    match base.port {
        Some(p) => {
            out.push(':');
            push_decimal(&mut out, p as u64);
        },
        None => {},
    }
    assert(out@ =~= origin_of(base@));
    out
}

/// The base URL's directory.
fn directory(base: &UrlParts) -> (out: Vec<char>)
    ensures
        out@ == directory_of(base@),
{
    let path = chars_of(base.path.as_str());
    let dir = before_last_slice(path.as_slice(), '/');
    let mut out = origin(base);
    if dir.len() == 0 || (dir.len() == 1 && dir[0] == '/') {
        assert(dir@.len() == 1 && dir@[0] == '/' ==> dir@ =~= seq!['/']);
        out
    } else {
        assert(dir@ != seq!['/']) by {
            if dir@.len() == 1 {
                assert(seq!['/'][0] == '/');
            }
        }
        out.push('/');
        out.extend_from_slice(strip_leading_slice(dir, '/'));
        out
    }
}

/// Resolves a playlist reference against the parts of the playlist's URL.
pub fn join(reference: &[char], base: &UrlParts) -> (resolved: Vec<char>)
    ensures
        resolved@ == join_reference(reference@, base@),
{
    if absolute_reference(reference) {
        let mut out: Vec<char> = Vec::new();
        out.extend_from_slice(reference);
        assert(out@ =~= reference@);
        out
    } else if reference.len() > 0 && reference[0] == '/' {
        let mut out = origin(base);
        out.extend_from_slice(reference);
        out
    } else {
        let dir = directory(base);
        let mut out: Vec<char> = Vec::new();
        out.extend_from_slice(strip_trailing_slice(dir.as_slice(), '/'));
        out.push('/');
        out.extend_from_slice(reference);
        assert(out@ =~= strip_trailing(directory_of(base@), '/') + seq!['/'] + reference@);
        out
    }
}

} // verus!
