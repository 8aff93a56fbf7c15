//! How a page shows an outside link: the site's name and an icon for it.

use vstd::prelude::*;

use crate::text::{chars_of, has_prefix, has_suffix, owned, slice_chars, str_eq, string_of};

verus! {

/// How to draw a link's icon
#[derive(Clone, Copy, Debug, PartialEq, Eq)]
pub enum Icon {
    /// One of the bundled SVG marks, by the name of its file in the icons directory (`imslp`
    /// for `icons/imslp.svg`), mostly in the foreground text color
    ///
    /// Some are square marks and some are wordmarks, so the page sizes them by height.
    Svg(&'static str),
    /// A Bootstrap Icons class, without the "bi-" prefix
    Bootstrap(&'static str),
    /// Let the browser try https://{host}/favicon.ico, falling back to the generic icon
    Favicon,
}

/// An icon by its values: which kind, and the name it carries.
pub open spec fn icon_view(icon: Icon) -> (int, Seq<char>) {
    match icon {
        Icon::Svg(name) => (0, name@),
        Icon::Bootstrap(class) => (1, class@),
        Icon::Favicon => (2, seq![]),
    }
}

/// What a link's host is, as a page shows it
pub struct Site {
    /// What to print beside the icon: the site's name, else the host without a leading "www."
    pub label: String,
    /// Where to ask for a favicon, which is all [Icon::Favicon] needs from the URL
    pub host: String,
    pub icon: Icon,
}

/// The host of a URL as the `url` crate parses it (`url::Url::parse`, then `Url::host_str`), or
/// None when it does not parse or has no host.
pub uninterp spec fn url_host(url: Seq<char>) -> Option<Seq<char>>;

/// Parses a URL with `url::Url::parse` and reads its host with `Url::host_str`. The contract
/// claims only that the result is what `url_host` names.
#[verifier::external_body]
fn parse_host(url: &str) -> (r: Option<String>)
    ensures
        match r {
            Some(h) => url_host(url@) == Some(h@),
            None => url_host(url@) is None,
        },
{
    match url::Url::parse(url) {
        Ok(parsed) => parsed.host_str().map(|host| host.to_string()),
        Err(_) => None,
    }
}

/// `str::to_lowercase`: the Unicode lowercase mapping of every character.
pub uninterp spec fn lowercased(s: Seq<char>) -> Seq<char>;

/// `str::to_lowercase`; the contract claims only that the result is what `lowercased` names.
#[verifier::external_body]
fn to_lowercase(s: &str) -> (r: String)
    ensures
        r@ == lowercased(s@),
{
    s.to_lowercase()
}

/// A host is a domain when it is the domain or any subdomain of it.
pub open spec fn on_domain(host: Seq<char>, domain: Seq<char>) -> bool {
    host == domain || has_suffix(host, seq!['.'] + domain)
}

/// Sites worth supporting explicitly, in the order they are tried: (domain, name, icon).
pub open spec fn sites() -> Seq<(Seq<char>, Seq<char>, (int, Seq<char>))> {
    seq![
        ("imslp.org"@, "IMSLP"@, (0int, "imslp"@)),
        ("wikipedia.org"@, "Wikipedia"@, (1int, "wikipedia"@)),
        ("wikidata.org"@, "Wikidata"@, (0int, "wikidata"@)),
        ("musicbrainz.org"@, "MusicBrainz"@, (0int, "musicbrainz"@)),
        ("archive.org"@, "Internet Archive"@, (0int, "internetarchive"@)),
        ("openlibrary.org"@, "Open Library"@, (0int, "openlibrary"@)),
        ("goodreads.com"@, "Goodreads"@, (0int, "goodreads"@)),
        ("librarything.com"@, "LibraryThing"@, (0int, "librarything"@)),
        ("gutenberg.org"@, "Project Gutenberg"@, (2int, Seq::<char>::empty())),
        ("github.com"@, "GitHub"@, (1int, "github"@)),
    ]
}

/// The first known site, from index `i` on, that the host is on.
pub open spec fn known_from(host: Seq<char>, i: int) -> Option<(Seq<char>, (int, Seq<char>))>
    decreases sites().len() - i,
{
    if i < 0 || i >= sites().len() {
        None
    } else if on_domain(host, sites()[i].0) {
        Some((sites()[i].1, sites()[i].2))
    } else {
        known_from(host, i + 1)
    }
}

/// The host without a leading "www.", which nobody reads.
pub open spec fn without_www(host: Seq<char>) -> Seq<char> {
    if has_prefix(host, seq!['w', 'w', 'w', '.']) {
        host.skip(4)
    } else {
        host
    }
}

/// What a page shows for a URL: (label, host, icon).
pub open spec fn site_of(url: Seq<char>) -> (Seq<char>, Seq<char>, (int, Seq<char>)) {
    match url_host(url) {
        None => (url, seq![], (1, "link-45deg"@)),
        Some(h) => {
            let host = lowercased(h);
            match known_from(host, 0) {
                Some((label, icon)) => (label, host, icon),
                None => (without_www(host), host, (2, seq![])),
            }
        },
    }
}

/// Is the host the domain or a subdomain of it?
fn is_on_domain(host: &str, domain: &str) -> (r: bool)
    ensures
        r == on_domain(host@, domain@),
{
    if str_eq(host, domain) {
        return true;
    }
    let h = chars_of(host);
    let d = chars_of(domain);
    if h.len() <= d.len() {
        return false;
    }
    let start = h.len() - d.len() - 1;
    let tail = slice_chars(&h, start, h.len());
    let mut dotted: Vec<char> = vec!['.'];
    let mut i: usize = 0;
    while i < d.len()
        invariant
            i <= d.len(),
            dotted@ == seq!['.'] + d@.take(i as int),
        decreases d.len() - i,
    {
        dotted.push(d[i]);
        assert(d@.take(i + 1) =~= d@.take(i as int).push(d@[i as int]));
        i = i + 1;
    }
    assert(d@.take(d.len() as int) =~= d@);
    let a = string_of(&tail);
    let b = string_of(&dotted);
    str_eq(a.as_str(), b.as_str())
}

fn known_site(host: &str) -> (r: Option<(&'static str, Icon)>)
    ensures
        match r {
            Some((label, icon)) => known_from(host@, 0) == Some((label@, icon_view(icon))),
            None => known_from(host@, 0) is None,
        },
{
    proof {
        reveal_with_fuel(known_from, 11);
    }
    if is_on_domain(host, "imslp.org") {
        Some(("IMSLP", Icon::Svg("imslp")))
    } else if is_on_domain(host, "wikipedia.org") {
        Some(("Wikipedia", Icon::Bootstrap("wikipedia")))
    } else if is_on_domain(host, "wikidata.org") {
        Some(("Wikidata", Icon::Svg("wikidata")))
    } else if is_on_domain(host, "musicbrainz.org") {
        Some(("MusicBrainz", Icon::Svg("musicbrainz")))
    } else if is_on_domain(host, "archive.org") {
        Some(("Internet Archive", Icon::Svg("internetarchive")))
    } else if is_on_domain(host, "openlibrary.org") {
        Some(("Open Library", Icon::Svg("openlibrary")))
    } else if is_on_domain(host, "goodreads.com") {
        Some(("Goodreads", Icon::Svg("goodreads")))
    } else if is_on_domain(host, "librarything.com") {
        Some(("LibraryThing", Icon::Svg("librarything")))
    } else if is_on_domain(host, "gutenberg.org") {
        Some(("Project Gutenberg", Icon::Favicon))
    } else if is_on_domain(host, "github.com") {
        Some(("GitHub", Icon::Bootstrap("github")))
    } else {
        None
    }
}

/// The host is on none of these domains.
pub open spec fn on_none(host: Seq<char>, domains: Seq<Seq<char>>) -> bool {
    forall|i: int| 0 <= i < domains.len() ==> !on_domain(host, #[trigger] domains[i])
}

/// How a page shows a link: a URL whose host is `h` (lowercased) on one of the known sites (or a
/// subdomain of it) by that site's name and icon, the first in this order winning; any other URL by its host without a leading
/// "www." and the host's favicon; and a URL without a host as itself, with the generic link icon.
pub proof fn lemma_known_sites(url: Seq<char>, h: Seq<char>)
    ensures
        url_host(url) is None ==> site_of(url) == (url, Seq::<char>::empty(), (1int, "link-45deg"@)),
        url_host(url) == Some(h) && on_domain(lowercased(h), "imslp.org"@) ==> site_of(url)
            == ("IMSLP"@, lowercased(h), (0int, "imslp"@)),
        url_host(url) == Some(h) && on_domain(lowercased(h), "wikipedia.org"@) && on_none(
            lowercased(h),
            seq!["imslp.org"@],
        ) ==> site_of(url) == ("Wikipedia"@, lowercased(h), (1int, "wikipedia"@)),
        url_host(url) == Some(h) && on_domain(lowercased(h), "wikidata.org"@) && on_none(
            lowercased(h),
            seq!["imslp.org"@, "wikipedia.org"@],
        ) ==> site_of(url) == ("Wikidata"@, lowercased(h), (0int, "wikidata"@)),
        url_host(url) == Some(h) && on_domain(lowercased(h), "musicbrainz.org"@) && on_none(
            lowercased(h),
            seq!["imslp.org"@, "wikipedia.org"@, "wikidata.org"@],
        ) ==> site_of(url) == ("MusicBrainz"@, lowercased(h), (0int, "musicbrainz"@)),
        url_host(url) == Some(h) && on_domain(lowercased(h), "archive.org"@) && on_none(
            lowercased(h),
            seq!["imslp.org"@, "wikipedia.org"@, "wikidata.org"@, "musicbrainz.org"@],
        ) ==> site_of(url) == ("Internet Archive"@, lowercased(h), (0int, "internetarchive"@)),
        url_host(url) == Some(h) && on_domain(lowercased(h), "openlibrary.org"@) && on_none(
            lowercased(h),
            seq!["imslp.org"@, "wikipedia.org"@, "wikidata.org"@, "musicbrainz.org"@, "archive.org"@],
        ) ==> site_of(url) == ("Open Library"@, lowercased(h), (0int, "openlibrary"@)),
        url_host(url) == Some(h) && on_domain(lowercased(h), "goodreads.com"@) && on_none(
            lowercased(h),
            seq![
                "imslp.org"@,
                "wikipedia.org"@,
                "wikidata.org"@,
                "musicbrainz.org"@,
                "archive.org"@,
                "openlibrary.org"@,
            ],
        ) ==> site_of(url) == ("Goodreads"@, lowercased(h), (0int, "goodreads"@)),
        url_host(url) == Some(h) && on_domain(lowercased(h), "librarything.com"@) && on_none(
            lowercased(h),
            seq![
                "imslp.org"@,
                "wikipedia.org"@,
                "wikidata.org"@,
                "musicbrainz.org"@,
                "archive.org"@,
                "openlibrary.org"@,
                "goodreads.com"@,
            ],
        ) ==> site_of(url) == ("LibraryThing"@, lowercased(h), (0int, "librarything"@)),
        url_host(url) == Some(h) && on_domain(lowercased(h), "gutenberg.org"@) && on_none(
            lowercased(h),
            seq![
                "imslp.org"@,
                "wikipedia.org"@,
                "wikidata.org"@,
                "musicbrainz.org"@,
                "archive.org"@,
                "openlibrary.org"@,
                "goodreads.com"@,
                "librarything.com"@,
            ],
        ) ==> site_of(url) == ("Project Gutenberg"@, lowercased(h), (2int, Seq::<char>::empty())),
        url_host(url) == Some(h) && on_domain(lowercased(h), "github.com"@) && on_none(
            lowercased(h),
            seq![
                "imslp.org"@,
                "wikipedia.org"@,
                "wikidata.org"@,
                "musicbrainz.org"@,
                "archive.org"@,
                "openlibrary.org"@,
                "goodreads.com"@,
                "librarything.com"@,
                "gutenberg.org"@,
            ],
        ) ==> site_of(url) == ("GitHub"@, lowercased(h), (1int, "github"@)),
        url_host(url) == Some(h) && on_none(
            lowercased(h),
            seq![
                "imslp.org"@,
                "wikipedia.org"@,
                "wikidata.org"@,
                "musicbrainz.org"@,
                "archive.org"@,
                "openlibrary.org"@,
                "goodreads.com"@,
                "librarything.com"@,
                "gutenberg.org"@,
                "github.com"@,
            ],
        ) ==> site_of(url) == (without_www(lowercased(h)), lowercased(h), (2int, Seq::<char>::empty())),
{
    reveal_with_fuel(known_from, 11);
    {
        let ds = seq![
            "imslp.org"@,
            "wikipedia.org"@,
            "wikidata.org"@,
            "musicbrainz.org"@,
            "archive.org"@,
            "openlibrary.org"@,
            "goodreads.com"@,
            "librarything.com"@,
            "gutenberg.org"@,
            "github.com"@,
        ];
        assert forall|i: int| 0 <= i < 10 implies #[trigger] sites()[i].0 == ds[i] by {}
        assert(ds[0] == "imslp.org"@ && ds[1] == "wikipedia.org"@ && ds[2] == "wikidata.org"@);
        if on_none(lowercased(h), seq!["imslp.org"@]) {
            assert(!on_domain(lowercased(h), seq!["imslp.org"@][0]));
        }
    }
}

impl Site {
    /// The site a URL links to: a known site by its name, anything else by its host.
    pub fn new(url: &str) -> (r: Site)
        ensures
            (r.label@, r.host@, icon_view(r.icon)) == site_of(url@),
    {
        let host = match parse_host(url) {
            Some(host) => to_lowercase(host.as_str()),
            None => {
                return Site {
                    label: owned(url),
                    host: String::new(),
                    icon: Icon::Bootstrap("link-45deg"),
                };
            },
        };
        match known_site(host.as_str()) {
            Some((label, icon)) => Site { label: owned(label), host, icon },
            None => {
                let h = chars_of(host.as_str());
                let label = if h.len() >= 4 && h[0] == 'w' && h[1] == 'w' && h[2] == 'w' && h[3]
                    == '.' {
                    let rest = slice_chars(&h, 4, h.len());
                    assert(rest@ =~= h@.skip(4));
                    assert(h@.subrange(0, 4) =~= seq!['w', 'w', 'w', '.']);
                    string_of(&rest)
                } else {
                    proof {
                        if has_prefix(h@, seq!['w', 'w', 'w', '.']) {
                            assert(h@[0] == h@.subrange(0, 4)[0]);
                            assert(h@[1] == h@.subrange(0, 4)[1]);
                            assert(h@[2] == h@.subrange(0, 4)[2]);
                            assert(h@[3] == h@.subrange(0, 4)[3]);
                        }
                    }
                    owned(host.as_str())
                };
                Site { label, host, icon: Icon::Favicon }
            },
        }
    }
}

} // verus!
