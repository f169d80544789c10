//! URLs as plain text, read and edited by the `url` crate.

use vstd::prelude::*;
use vstd::string::*;
use vstd::utf8::decode_utf8;
use vstd::utf8::encode_scalar;
use vstd::utf8::encode_utf8;
use vstd::utf8::encode_utf8_decode_utf8;

use crate::entry::optional_text;
use crate::text::is_digit;
use crate::text::split_at_first;

verus! {

/// The components of a URL that the library reads.
pub struct UrlParts {
    /// The URL itself, as the `url` crate writes it.
    pub text: String,
    pub scheme: String,
    pub username: String,
    pub host: Option<String>,
    pub port: Option<u16>,
    pub path: String,
    pub query_pairs: Vec<(String, String)>,
}

/// The value of a [`UrlParts`].
pub struct UrlView {
    pub text: Seq<char>,
    pub scheme: Seq<char>,
    pub username: Seq<char>,
    pub host: Option<Seq<char>>,
    pub port: Option<u16>,
    pub path: Seq<char>,
    pub query_pairs: Seq<(Seq<char>, Seq<char>)>,
}

/// The texts of a list of pairs.
pub open spec fn pair_texts(pairs: Seq<(String, String)>) -> Seq<(Seq<char>, Seq<char>)> {
    pairs.map_values(|pair: (String, String)| (pair.0@, pair.1@))
}

impl View for UrlParts {
    type V = UrlView;

    open spec fn view(&self) -> UrlView {
        UrlView {
            text: self.text@,
            scheme: self.scheme@,
            username: self.username@,
            host: optional_text(self.host),
            port: self.port,
            path: self.path@,
            query_pairs: pair_texts(self.query_pairs@),
        }
    }
}

/// An ASCII letter.
pub open spec fn is_letter(c: char) -> bool {
    'a' <= c && c <= 'z' || 'A' <= c && c <= 'Z'
}

/// The most bytes that percent-encoding makes of a character: one of a letter or a digit, and
/// three of each UTF-8 byte of any other.
pub open spec fn encoded_width(c: char) -> nat {
    if is_letter(c) || is_digit(c) {
        1
    } else if c as u32 <= 0x7F {
        3
    } else if c as u32 <= 0x7FF {
        6
    } else if c as u32 <= 0xFFFF {
        9
    } else {
        12
    }
}

/// The most bytes that percent-encoding makes of `text`.
pub open spec fn encoded_length(text: Seq<char>) -> nat
    decreases text.len(),
{
    if text.len() == 0 {
        0
    } else {
        encoded_length(text.drop_last()) + encoded_width(text.last())
    }
}

/// No character makes more than twelve bytes.
pub proof fn lemma_encoded_length(text: Seq<char>)
    ensures
        encoded_length(text) <= 12 * text.len(),
    decreases text.len(),
{
    if text.len() > 0 {
        lemma_encoded_length(text.drop_last());
    }
}

/// The most bytes that percent-encoding makes of `text`.
pub fn encoded_size(text: &str) -> (size: u128)
    ensures
        size == encoded_length(text@),
        size <= 12 * usize::MAX,
{
    let length: usize = text.unicode_len();
    let mut size: u128 = 0;
    for c in it: text.chars()
        invariant
            it.seq() == text@,
            text@.len() == length,
            size == encoded_length(text@.take(it.index())),
            size <= 12 * it.index(),
    {
        proof {
            let longer = text@.take(it.index() + 1);
            assert(longer.drop_last() == text@.take(it.index()));
            assert(longer.last() == c);
        }
        let width: u128 = if 'a' <= c && c <= 'z' || 'A' <= c && c <= 'Z' || '0' <= c && c <= '9' {
            1
        } else if c as u32 <= 0x7F {
            3
        } else if c as u32 <= 0x7FF {
            6
        } else if c as u32 <= 0xFFFF {
            9
        } else {
            12
        };
        size = size + width;
    }
    assert(text@.take(text@.len() as int) == text@);
    size
}

/// The schemes of remote workspaces.
pub open spec fn is_remote_scheme(scheme: Seq<char>) -> bool {
    scheme == "ssh"@ || scheme == "wsl"@ || scheme == "docker"@
}

/// The URL of `scheme` from which a remote URL is made.
pub open spec fn base_url(scheme: Seq<char>) -> Seq<char> {
    scheme + "://placeholder"@
}

/// The components of `base_url(scheme)`.
pub open spec fn base_view(scheme: Seq<char>) -> UrlView {
    UrlView {
        text: base_url(scheme),
        scheme,
        username: Seq::empty(),
        host: Some("placeholder"@),
        port: None,
        path: Seq::empty(),
        query_pairs: Seq::empty(),
    }
}

/// Whether `url` is a URL of a remote workspace, as the `url` crate writes it.
pub open spec fn is_remote_url(url: Seq<char>) -> bool {
    match parsed_url(url) {
        Some(view) => view.text == url && is_remote_scheme(view.scheme) && (view.scheme
            + "://"@).is_prefix_of(url),
        None => false,
    }
}

/// A visible ASCII character.
pub open spec fn is_printable(c: char) -> bool {
    '!' <= c && c <= '~'
}

/// A character that a host keeps as it is.
pub open spec fn is_plain_in_host(c: char) -> bool {
    is_printable(c) && c != '#' && c != '/' && c != ':' && c != '<' && c != '>' && c != '?' && c
        != '@' && c != '[' && c != '\\' && c != ']' && c != '^' && c != '|'
}

/// A character that a path keeps as it is.
pub open spec fn is_plain_in_path(c: char) -> bool {
    is_printable(c) && c != '"' && c != '#' && c != '<' && c != '>' && c != '?' && c != '`' && c
        != '{' && c != '}'
}

/// A character that a user name keeps as it is.
pub open spec fn is_plain_in_username(c: char) -> bool {
    is_plain_in_path(c) && c != '/' && c != ':' && c != ';' && c != '=' && c != '@' && c != '[' && c
        != '\\' && c != ']' && c != '^' && c != '|'
}

/// A host that URLs carry unchanged.
pub open spec fn is_plain_host(host: Seq<char>) -> bool {
    host.len() > 0 && forall|i: int| 0 <= i < host.len() ==> is_plain_in_host(#[trigger] host[i])
}

/// A user name that URLs carry unchanged.
pub open spec fn is_plain_username(username: Seq<char>) -> bool {
    forall|i: int| 0 <= i < username.len() ==> is_plain_in_username(#[trigger] username[i])
}

/// How many characters of `segment` spell a dot at its start: `.`, or its percent-encoding.
pub open spec fn dot_length(segment: Seq<char>) -> int {
    if segment.len() >= 1 && segment[0] == '.' {
        1
    } else if segment.len() >= 3 && segment[0] == '%' && segment[1] == '2' && (segment[2] == 'e'
        || segment[2] == 'E') {
        3
    } else {
        0
    }
}

/// A path segment that stands for the current or the parent folder.
pub open spec fn is_dot_segment(segment: Seq<char>) -> bool {
    let first = dot_length(segment);
    let second = dot_length(segment.skip(first));
    first > 0 && (segment.len() == first || second > 0 && segment.len() == first + second)
}

/// A path that URLs carry unchanged: nothing, or a path from the root with plain characters only
/// and without dot segments.
pub open spec fn is_plain_path(path: Seq<char>) -> bool {
    &&& path.len() > 0 ==> path[0] == '/'
    &&& forall|i: int| 0 <= i < path.len() ==> is_plain_in_path(#[trigger] path[i])
    &&& forall|i: int, j: int|
        0 < i <= j <= path.len() && path[i - 1] == '/' && (j == path.len() || path[j] == '/')
            ==> !is_dot_segment(#[trigger] path.subrange(i, j))
}

/// The components of a URL that are percent-encoded.
pub enum UrlComponent {
    Host,
    Username,
    Path,
}

/// Whether a component of a URL keeps a character as it is.
pub open spec fn is_kept(component: UrlComponent, c: char) -> bool {
    match component {
        UrlComponent::Host => is_plain_in_host(c),
        UrlComponent::Username => is_plain_in_username(c),
        UrlComponent::Path => is_plain_in_path(c),
    }
}

/// A hexadecimal digit.
pub open spec fn hex_digit(value: int) -> char {
    if value < 10 {
        ('0' as int + value) as char
    } else {
        ('A' as int + value - 10) as char
    }
}

/// Bytes as `%` and two hexadecimal digits each.
pub open spec fn percent_bytes(bytes: Seq<u8>) -> Seq<char>
    decreases bytes.len(),
{
    if bytes.len() == 0 {
        Seq::empty()
    } else {
        seq!['%', hex_digit(bytes[0] as int / 16), hex_digit(bytes[0] as int % 16)] + percent_bytes(
            bytes.skip(1),
        )
    }
}

/// What a component of a URL makes of `text`: a character that it does not keep becomes its UTF-8
/// bytes, percent-encoded.
pub open spec fn percent_encoded(component: UrlComponent, text: Seq<char>) -> Seq<char>
    decreases text.len(),
{
    if text.len() == 0 {
        Seq::empty()
    } else {
        (if is_kept(component, text[0]) {
            seq![text[0]]
        } else {
            percent_bytes(encode_scalar(text[0] as u32))
        }) + percent_encoded(component, text.skip(1))
    }
}

/// The value of a hexadecimal digit in upper case.
pub open spec fn hex_value(c: char) -> Option<int> {
    if '0' <= c && c <= '9' {
        Some(c as int - '0' as int)
    } else if 'A' <= c && c <= 'F' {
        Some(c as int - 'A' as int + 10)
    } else {
        None
    }
}

/// The bytes that a percent-encoded text stands for: the byte of each `%` that two hexadecimal
/// digits follow, and the UTF-8 bytes of every other character.
pub open spec fn percent_decoded(text: Seq<char>) -> Seq<u8>
    decreases text.len(),
{
    if text.len() == 0 {
        Seq::empty()
    } else if text.len() >= 3 && text[0] == '%' && hex_value(text[1]) is Some && hex_value(
        text[2],
    ) is Some {
        seq![(hex_value(text[1])->0 * 16 + hex_value(text[2])->0) as u8] + percent_decoded(
            text.skip(3),
        )
    } else {
        encode_scalar(text[0] as u32) + percent_decoded(text.skip(1))
    }
}

/// Percent-encoded bytes are decoded again, whatever comes behind them.
proof fn lemma_percent_bytes_decoded(bytes: Seq<u8>, rest: Seq<char>)
    ensures
        percent_decoded(percent_bytes(bytes) + rest) == bytes + percent_decoded(rest),
    decreases bytes.len(),
{
    if bytes.len() == 0 {
        assert(percent_bytes(bytes) + rest =~= rest);
    } else {
        let all = percent_bytes(bytes) + rest;
        let byte = bytes[0] as int;
        lemma_percent_bytes_decoded(bytes.skip(1), rest);
        assert(all.skip(3) =~= percent_bytes(bytes.skip(1)) + rest);
        assert(0 <= byte / 16 < 16 && 0 <= byte % 16 < 16 && byte == byte / 16 * 16 + byte % 16);
        assert(hex_value(all[1]) == Some(byte / 16));
        assert(hex_value(all[2]) == Some(byte % 16));
        assert(bytes =~= seq![bytes[0]] + bytes.skip(1));
    }
}

/// Percent-decoding gives back what was percent-encoded, if it held no `%`.
pub proof fn lemma_percent_round_trip(component: UrlComponent, text: Seq<char>)
    requires
        !text.contains('%'),
    ensures
        percent_decoded(percent_encoded(component, text)) == encode_utf8(text),
        decode_utf8(percent_decoded(percent_encoded(component, text))) == text,
    decreases text.len(),
{
    if text.len() > 0 {
        let rest = text.skip(1);
        let encoded = percent_encoded(component, text);
        assert(text.contains(text[0]));
        assert forall|i: int| 0 <= i < rest.len() implies rest[i] != '%' by {
            assert(rest[i] == text[i + 1]);
        }
        lemma_percent_round_trip(component, rest);
        assert(rest =~= text.drop_first());
        if is_kept(component, text[0]) {
            assert(encoded[0] == text[0]);
            assert(encoded.skip(1) =~= percent_encoded(component, rest));
        } else {
            lemma_percent_bytes_decoded(
                encode_scalar(text[0] as u32),
                percent_encoded(component, rest),
            );
        }
    }
    encode_utf8_decode_utf8(text);
}

/// What a component keeps as it is needs no encoding.
pub proof fn lemma_kept_is_unchanged(component: UrlComponent, text: Seq<char>)
    requires
        forall|i: int| 0 <= i < text.len() ==> is_kept(component, #[trigger] text[i]),
    ensures
        percent_encoded(component, text) == text,
    decreases text.len(),
{
    if text.len() > 0 {
        let rest = text.skip(1);
        assert forall|i: int| 0 <= i < rest.len() implies is_kept(component, #[trigger] rest[i]) by {
            assert(rest[i] == text[i + 1]);
        }
        lemma_kept_is_unchanged(component, rest);
        assert(is_kept(component, text[0]));
        assert(text =~= seq![text[0]] + rest);
    } else {
        assert(text =~= Seq::empty());
    }
}

/// Nothing is encoded away.
pub proof fn lemma_encoding_is_not_shorter(component: UrlComponent, text: Seq<char>)
    ensures
        percent_encoded(component, text).len() >= text.len(),
    decreases text.len(),
{
    if text.len() > 0 {
        lemma_encoding_is_not_shorter(component, text.skip(1));
        assert(encode_scalar(text[0] as u32).len() > 0);
        assert(percent_bytes(encode_scalar(text[0] as u32)).len() >= 3);
    }
}

/// A character that makes a host be refused.
pub open spec fn is_refused_in_host(c: char) -> bool {
    c == '\0' || c == '\t' || c == '\n' || c == '\r' || c == ' ' || c == '#' || c == '/' || c == ':'
        || c == '<' || c == '>' || c == '?' || c == '@' || c == '[' || c == '\\' || c == ']' || c
        == '^' || c == '|'
}

/// What counts of a host that is no address in brackets: what comes before the first `:`, unless
/// the host begins with it.
pub open spec fn named_host(host: Seq<char>) -> Seq<char> {
    match split_at_first(host, ':') {
        Some((name, _)) if name.len() > 0 => name,
        _ => host,
    }
}

/// The host that a URL reads as, for a host that is no address in brackets, or `None` if the host
/// is refused. A URL with an empty host has none.
pub open spec fn encoded_host(host: Seq<char>) -> Option<Option<Seq<char>>> {
    let name = named_host(host);
    if exists|i: int| 0 <= i < name.len() && is_refused_in_host(#[trigger] name[i]) {
        None
    } else if name.len() == 0 {
        Some(None)
    } else {
        Some(Some(percent_encoded(UrlComponent::Host, name)))
    }
}

/// `path` without the tabs and line breaks, which URLs ignore.
pub open spec fn without_breaks(path: Seq<char>) -> Seq<char>
    decreases path.len(),
{
    if path.len() == 0 {
        Seq::empty()
    } else if path[0] == '\t' || path[0] == '\n' || path[0] == '\r' {
        without_breaks(path.skip(1))
    } else {
        seq![path[0]] + without_breaks(path.skip(1))
    }
}

/// Whether a segment of a path stands for the current or the parent folder.
pub open spec fn has_dot_segment(path: Seq<char>) -> bool {
    exists|i: int, j: int|
        0 < i <= j <= path.len() && path[i - 1] == '/' && (j == path.len() || path[j] == '/')
            && is_dot_segment(#[trigger] path.subrange(i, j))
}

/// `path` from the root.
pub open spec fn rooted(path: Seq<char>) -> Seq<char> {
    if path.len() > 0 && path[0] != '/' {
        seq!['/'] + path
    } else {
        path
    }
}

/// The path that a URL reads as, unless dot segments have to be resolved: the path from the root,
/// percent-encoded, or nothing where it begins with `?` or `#`.
pub open spec fn encoded_path(path: Seq<char>) -> Option<Seq<char>> {
    let visible = without_breaks(path);
    if visible.len() > 0 && (visible[0] == '?' || visible[0] == '#') {
        Some(Seq::empty())
    } else if has_dot_segment(rooted(visible)) {
        None
    } else {
        Some(percent_encoded(UrlComponent::Path, rooted(visible)))
    }
}

/// A path without tabs and line breaks is taken as it is.
pub proof fn lemma_without_breaks(path: Seq<char>)
    requires
        !path.contains('\t'),
        !path.contains('\n'),
        !path.contains('\r'),
    ensures
        without_breaks(path) == path,
    decreases path.len(),
{
    if path.len() > 0 {
        let rest = path.skip(1);
        assert(path.contains(path[0]));
        assert forall|i: int| 0 <= i < rest.len() implies rest[i] != '\t' && rest[i] != '\n'
            && rest[i] != '\r' by {
            assert(rest[i] == path[i + 1]);
            assert(path.contains(path[i + 1]));
        }
        lemma_without_breaks(rest);
        assert(path =~= seq![path[0]] + rest);
    } else {
        assert(path =~= Seq::empty());
    }
}

/// `new` is `old` but for the text and the host.
pub open spec fn same_but_host(old: UrlView, new: UrlView) -> bool {
    new == (UrlView { text: new.text, host: new.host, ..old })
}

/// `new` is `old` but for the text and the user name.
pub open spec fn same_but_username(old: UrlView, new: UrlView) -> bool {
    new == (UrlView { text: new.text, username: new.username, ..old })
}

/// `new` is `old` but for the text and the path.
pub open spec fn same_but_path(old: UrlView, new: UrlView) -> bool {
    new == (UrlView { text: new.text, path: new.path, ..old })
}

/// The components of the URL that `url::Url::parse` reads in a text, if it finds one.
pub uninterp spec fn parsed_url(text: Seq<char>) -> Option<UrlView>;

/// The URL after `url::Url::set_host`, or `None` where the host is refused.
pub uninterp spec fn url_with_host(url: Seq<char>, host: Seq<char>) -> Option<Seq<char>>;

/// The URL after `url::Url::set_username`, or `None` where the user name is refused.
pub uninterp spec fn url_with_username(url: Seq<char>, username: Seq<char>) -> Option<Seq<char>>;

/// The URL after `url::Url::set_port`, or `None` where the port is refused.
pub uninterp spec fn url_with_port(url: Seq<char>, port: u16) -> Option<Seq<char>>;

/// The URL after `url::Url::set_path`.
pub uninterp spec fn url_with_path(url: Seq<char>, path: Seq<char>) -> Seq<char>;

/// The URL after `append_pair` on its `url::Url::query_pairs_mut`.
pub uninterp spec fn url_with_pair(url: Seq<char>, name: Seq<char>, value: Seq<char>) -> Seq<char>;

/// `url::Url::parse`, and what `as_str`, `scheme`, `username`, `host_str`, `port`, `path` and
/// `query_pairs` say of the URL. A base URL has the components that it spells.
///
/// Only a text with a `:` is a URL. It begins with the scheme, of which the first character is a
/// letter, though control characters and spaces may stand before it. So a `:` in the second
/// place ends a scheme of one letter, and the scheme of a text that begins with `remote:` is
/// `remote`. The `url` crate counts the characters before an `@` in 31 bits.
#[verifier::external_body]
pub(crate) fn parse_url(text: &str) -> (parts: Option<UrlParts>)
    requires
        text@.len() <= i32::MAX,
    ensures
        match parts {
            Some(parts) => parsed_url(text@) == Some(parts@),
            None => parsed_url(text@) is None,
        },
        forall|scheme: Seq<char>|
            is_remote_scheme(scheme) && text@ == #[trigger] base_url(scheme) ==> parts is Some
                && parts->0@ == base_view(scheme),
        parts is Some ==> text@.contains(':'),
        parts is Some ==> text@[0] <= ' ' || is_letter(text@[0]),
        parts is Some && text@[1] == ':' ==> parts->0@.scheme.len() == 1,
        parts is Some && "remote:"@.is_prefix_of(text@) ==> parts->0@.scheme == "remote"@,
{
    let url = url::Url::parse(text).ok()?;
    Some(UrlParts {
        text: url.as_str().to_owned(),
        scheme: url.scheme().to_owned(),
        username: url.username().to_owned(),
        host: url.host_str().map(|host| host.to_owned()),
        port: url.port(),
        path: url.path().to_owned(),
        query_pairs: url.query_pairs().into_owned().collect(),
    })
}

/// `url::Url::set_host` on a base URL. The other components stay as they are, and a plain host
/// is accepted and read back unchanged. A host that is no address in brackets counts up to the
/// first `:`; it is refused for one of a few characters, and otherwise read back with control
/// characters and non-ASCII ones percent-encoded. The `url` crate keeps offsets in 32 bits, and counts the
/// characters before an `@` in 31 bits when it reads the URL again: the URL stays below both.
#[verifier::external_body]
pub(crate) fn set_host(url: &str, host: &str) -> (edited: Option<String>)
    requires
        exists|scheme: Seq<char>|
            is_remote_scheme(scheme) && url@ == #[trigger] base_url(scheme),
        url@.len() + encoded_length(host@) + 48 <= i32::MAX,
    ensures
        match edited {
            Some(edited) => url_with_host(url@, host@) == Some(edited@),
            None => url_with_host(url@, host@) is None,
        },
        edited matches Some(edited) ==> is_remote_url(edited@) && same_but_host(
            parsed_url(url@)->0,
            parsed_url(edited@)->0,
        ) && edited@.len() <= url@.len() + encoded_length(host@) + 48,
        is_plain_host(host@) ==> edited is Some && parsed_url(edited->0@)->0.host == Some(host@),
        !(host@.len() > 0 && host@[0] == '[') ==> match encoded_host(host@) {
            Some(host) => edited is Some && parsed_url(edited->0@)->0.host == host,
            None => edited is None,
        },
{
    let mut parsed = url::Url::parse(url).ok()?;
    parsed.set_host(Some(host)).ok()?;
    Some(parsed.to_string())
}

/// `url::Url::set_username` on the URL of a remote workspace: refused only where there is no
/// host. The other components stay as they are. The user name is read back percent-encoded, which
/// leaves a plain one unchanged.
/// The URL stays below what the `url` crate counts in 31 bits.
#[verifier::external_body]
pub(crate) fn set_username(url: &str, username: &str) -> (edited: Option<String>)
    requires
        is_remote_url(url@),
        url@.len() + encoded_length(username@) + 1 <= i32::MAX,
    ensures
        match edited {
            Some(edited) => url_with_username(url@, username@) == Some(edited@),
            None => url_with_username(url@, username@) is None,
        },
        edited is Some <==> parsed_url(url@)->0.host is Some,
        edited matches Some(edited) ==> is_remote_url(edited@) && same_but_username(
            parsed_url(url@)->0,
            parsed_url(edited@)->0,
        ) && edited@.len() <= url@.len() + encoded_length(username@) + 1,
        edited is Some && is_plain_username(username@) ==> parsed_url(edited->0@)->0.username
            == username@,
        edited is Some ==> parsed_url(edited->0@)->0.username == percent_encoded(
            UrlComponent::Username,
            username@,
        ),
{
    let mut parsed = url::Url::parse(url).ok()?;
    parsed.set_username(username).ok()?;
    Some(parsed.to_string())
}

/// `url::Url::set_port` on the URL of a remote workspace: refused only where there is no host.
/// The port is read back, as these schemes have no default port, and the other components stay
/// as they are. The URL stays below what the `url` crate counts in 31 bits.
#[verifier::external_body]
pub(crate) fn set_port(url: &str, port: u16) -> (edited: Option<String>)
    requires
        is_remote_url(url@),
        url@.len() + 6 <= i32::MAX,
    ensures
        match edited {
            Some(edited) => url_with_port(url@, port) == Some(edited@),
            None => url_with_port(url@, port) is None,
        },
        edited is Some <==> parsed_url(url@)->0.host is Some,
        edited matches Some(edited) ==> is_remote_url(edited@) && parsed_url(edited@)->0 == (
        UrlView { text: edited@, port: Some(port), ..parsed_url(url@)->0 }) && edited@.len()
            <= url@.len() + 6,
{
    let mut parsed = url::Url::parse(url).ok()?;
    parsed.set_port(Some(port)).ok()?;
    Some(parsed.to_string())
}

/// `url::Url::set_path` on the URL of a remote workspace. The other components stay as they are,
/// and a plain path is read back unchanged. A path without dot segments is read back from the root
/// and percent-encoded, without the tabs and line breaks; one that begins with `?` or `#` is lost.
/// What path is read back depends on no other component. The URL stays below what the `url` crate
/// counts in 31 bits.
#[verifier::external_body]
pub(crate) fn set_path(url: &str, path: &str) -> (edited: String)
    requires
        is_remote_url(url@),
        url@.len() + encoded_length(path@) + 1 <= i32::MAX,
    ensures
        edited@ == url_with_path(url@, path@),
        is_remote_url(edited@),
        same_but_path(parsed_url(url@)->0, parsed_url(edited@)->0),
        edited@.len() <= url@.len() + encoded_length(path@) + 1,
        is_plain_path(path@) ==> parsed_url(edited@)->0.path == path@,
        encoded_path(path@) matches Some(path) ==> parsed_url(edited@)->0.path == path,
        parsed_url(edited@)->0.path == parsed_url(url_with_path(base_url("ssh"@), path@))->0.path,
{
    let mut parsed = url::Url::parse(url).expect("a remote URL");
    parsed.set_path(path);
    parsed.to_string()
}

/// `append_pair` on `url::Url::query_pairs_mut` of the URL of a remote workspace: the pair is
/// read back behind those that were there, whatever characters it holds, and the other
/// components stay as they are. The URL stays below what the `url` crate counts in 31 bits.
#[verifier::external_body]
pub(crate) fn append_pair(url: &str, name: &str, value: &str) -> (edited: String)
    requires
        is_remote_url(url@),
        url@.len() + encoded_length(name@) + encoded_length(value@) + 2 <= i32::MAX,
    ensures
        edited@ == url_with_pair(url@, name@, value@),
        is_remote_url(edited@),
        parsed_url(edited@)->0 == (UrlView {
            text: edited@,
            query_pairs: parsed_url(url@)->0.query_pairs.push((name@, value@)),
            ..parsed_url(url@)->0
        }),
        edited@.len() <= url@.len() + encoded_length(name@) + encoded_length(value@) + 2,
{
    let mut parsed = url::Url::parse(url).expect("a remote URL");
    parsed.query_pairs_mut().append_pair(name, value);
    parsed.to_string()
}

/// The value of the components is that of each of them, and of each pair in order.
pub proof fn lemma_parts_value(parts: UrlParts)
    ensures
        parts@.text == parts.text@,
        parts@.scheme == parts.scheme@,
        parts@.username == parts.username@,
        parts@.host is Some <==> parts.host is Some,
        parts.host is Some ==> parts@.host->0 == parts.host->0@,
        parts@.port == parts.port,
        parts@.path == parts.path@,
        parts@.query_pairs.len() == parts.query_pairs@.len(),
        forall|i: int|
            0 <= i < parts.query_pairs@.len() ==> #[trigger] parts@.query_pairs[i] == (
                parts.query_pairs@[i].0@,
                parts.query_pairs@[i].1@,
            ),
{
}

} // verus!
