//! What the library relies on when it edits URLs with the `url` crate.

use jump_list::description::parse_description_to_entry;
use jump_list::entry::JumpListEntry;
use jump_list::url_parts::encoded_size;
use url::Url;

/// A source of arbitrary numbers, the same in each run.
struct Numbers(u64);

impl Numbers {
    fn below(&mut self, bound: usize) -> usize {
        self.0 = self.0.wrapping_mul(6364136223846793005).wrapping_add(1442695040888963407);
        ((self.0 >> 33) as usize) % bound
    }

    fn text(&mut self, longest: usize) -> String {
        let pieces = [
            "a", "Z", "0", "9", ".", "..", "/", "//", "\\", "?", "#", "@", ":", ";", "=", "&", "+",
            "%", "%2e", "%2E", "%00", "%zz", "[", "]", "::1", "|", "^", "<", ">", "\"", "`", "{",
            "}", "~", "'", "*", " ", "\t", "\n", "\r", "\0", "\u{1f}", "\u{7f}", "\u{80}", "é",
            "\u{feff}", "\u{fffd}", "\u{1f600}", "path", "user", "C:", "ssh://", "xn--", "-", "_",
        ];
        let mut text = String::new();
        for _ in 0..self.below(longest + 1) {
            text.push_str(pieces[self.below(pieces.len())]);
        }
        text
    }
}

type Parts = (String, String, Option<String>, Option<u16>, String, Vec<(String, String)>);

fn parts(url: &Url) -> Parts {
    (
        url.scheme().to_string(),
        url.username().to_string(),
        url.host_str().map(|host| host.to_string()),
        url.port(),
        url.path().to_string(),
        url.query_pairs().into_owned().collect(),
    )
}

/// Reads a URL that was written, and checks that it is written the same again.
fn reread(url: &str, scheme: &str) -> Url {
    assert!(url.starts_with(&format!("{}://", scheme)), "{:?}", url);
    let reread = Url::parse(url).expect(url);
    assert_eq!(reread.as_str(), url);
    reread
}

fn is_remote(url: &str, scheme: &str) -> bool {
    url.starts_with(&format!("{}://", scheme))
        && Url::parse(url).map(|parsed| parsed.as_str() == url).unwrap_or(false)
}

fn encoded_length(text: &str) -> usize {
    encoded_size(text) as usize
}

fn length(text: &str) -> usize {
    text.chars().count()
}

const SCHEMES: [&str; 3] = ["ssh", "wsl", "docker"];

fn check_edits(url: &str, scheme: &str, numbers: &mut Numbers) {
    let old = parts(&reread(url, scheme));

    let username = numbers.text(4);
    let mut edited = Url::parse(url).unwrap();
    let accepted = edited.set_username(&username).is_ok();
    assert_eq!(accepted, old.2.is_some(), "{:?} {:?}", url, username);
    if accepted {
        let new = parts(&reread(edited.as_str(), scheme));
        assert_eq!((&new.0, &new.2, &new.3), (&old.0, &old.2, &old.3), "{:?} {:?}", url, username);
        assert_eq!((&new.4, &new.5), (&old.4, &old.5), "{:?} {:?}", url, username);
        assert!(length(edited.as_str()) <= length(url) + encoded_length(&username) + 1);
    }

    let port = numbers.below(65536) as u16;
    let mut edited = Url::parse(url).unwrap();
    let accepted = edited.set_port(Some(port)).is_ok();
    assert_eq!(accepted, old.2.is_some(), "{:?}", url);
    if accepted {
        let mut expected = old.clone();
        expected.3 = Some(port);
        assert_eq!(parts(&reread(edited.as_str(), scheme)), expected, "{:?} {}", url, port);
        assert!(length(edited.as_str()) <= length(url) + 6);
    }

    let path = numbers.text(6);
    let mut edited = Url::parse(url).unwrap();
    edited.set_path(&path);
    let new = parts(&reread(edited.as_str(), scheme));
    assert_eq!((&new.0, &new.1, &new.2), (&old.0, &old.1, &old.2), "{:?} {:?}", url, path);
    assert_eq!((&new.3, &new.5), (&old.3, &old.5), "{:?} {:?}", url, path);
    assert!(length(edited.as_str()) <= length(url) + encoded_length(&path) + 1);

    let (name, value) = (numbers.text(2), numbers.text(4));
    let mut edited = Url::parse(url).unwrap();
    edited.query_pairs_mut().append_pair(&name, &value);
    assert!(
        length(edited.as_str()) <= length(url) + encoded_length(&name) + encoded_length(&value) + 2
    );
    let mut expected = old.clone();
    expected.5.push((name.clone(), value.clone()));
    assert_eq!(parts(&reread(edited.as_str(), scheme)), expected, "{:?} {:?}", url, (name, value));
}

#[test]
fn hosts_are_set_alone() {
    let mut numbers = Numbers(1);
    for _ in 0..20000 {
        let scheme = SCHEMES[numbers.below(3)];
        let base = format!("{}://placeholder", scheme);
        let host = numbers.text(4);
        let mut edited = Url::parse(&base).unwrap();
        let old = parts(&edited);
        if edited.set_host(Some(&host)).is_ok() {
            let mut new = parts(&reread(edited.as_str(), scheme));
            assert!(length(edited.as_str()) <= length(&base) + encoded_length(&host) + 48);
            new.2 = old.2.clone();
            assert_eq!(new, old, "{:?}", host);
            check_edits(edited.as_str(), scheme, &mut numbers);
        }
    }
}

#[test]
fn components_of_any_url_are_edited_alone() {
    let mut numbers = Numbers(2);
    let mut checked = 0;
    for _ in 0..60000 {
        let scheme = SCHEMES[numbers.below(3)];
        let text = match numbers.below(3) {
            0 => format!("{}://{}", scheme, numbers.text(8)),
            1 => format!("{}://{}@h{}", scheme, numbers.text(3), numbers.text(6)),
            _ => format!("{}://h:{}/{}", scheme, numbers.below(70000), numbers.text(6)),
        };
        if let Ok(url) = Url::parse(&text) {
            if is_remote(url.as_str(), scheme) {
                check_edits(url.as_str(), scheme, &mut numbers);
                checked += 1;
            }
        }
    }
    assert!(checked > 10000, "{}", checked);
}

#[test]
fn urls_begin_with_a_scheme() {
    let mut numbers = Numbers(3);
    let starts = ["", "/", "\\\\", "C:", "c:\\", ".", "~", "1", "é", " ", "\t", "\u{1}", "a", "ssh:", "ssh://h/", "remote:", "remote://h", "remote:ssh\nh"];
    let mut urls = 0;
    for _ in 0..40000 {
        let text = format!("{}{}", starts[numbers.below(starts.len())], numbers.text(5));
        let chars: Vec<char> = text.chars().collect();
        if let Ok(url) = Url::parse(&text) {
            assert!(chars.contains(&':'), "{:?}", text);
            assert!(chars[0] <= ' ' || chars[0].is_ascii_alphabetic(), "{:?}", text);
            assert!(chars[1] != ':' || url.scheme().len() == 1, "{:?}", text);
            assert!(!text.starts_with("remote:") || url.scheme() == "remote", "{:?}", text);
            urls += 1;
        }
        let looks_local = !chars.contains(&':')
            || (!chars.is_empty() && chars[0] > ' ' && !chars[0].is_ascii_alphabetic())
            || (chars.len() > 1 && chars[1] == ':');
        if looks_local {
            match parse_description_to_entry(&text) {
                JumpListEntry::Local(paths) => {
                    assert_eq!(paths.as_slice(), &text.lines().collect::<Vec<_>>()[..], "{:?}", text)
                }
                JumpListEntry::Remote { .. } => panic!("{:?}", text),
            }
        }
    }
    assert!(urls > 1000, "{}", urls);
}

#[test]
fn encoded_sizes() {
    assert_eq!(encoded_size(""), 0);
    assert_eq!(encoded_size("azAZ09"), 6);
    assert_eq!(encoded_size("/\u{7f}"), 6);
    assert_eq!(encoded_size("\u{80}\u{7ff}"), 12);
    assert_eq!(encoded_size("\u{800}\u{ffff}"), 18);
    assert_eq!(encoded_size("\u{10000}\u{10ffff}"), 24);
}
