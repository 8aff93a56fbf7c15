use scorarium::links::{Icon, Site};

fn described(url: &str) -> (String, String, String) {
    let site = Site::new(url);
    let icon = match site.icon {
        Icon::Svg(_) => "svg".to_string(),
        Icon::Bootstrap(class) => format!("bi-{class}"),
        Icon::Favicon => "favicon".to_string(),
    };
    (site.label, site.host, icon)
}

#[test]
fn a_known_site_is_named_and_anything_else_shows_its_host() {
    // Every language edition matches the one entry
    assert_eq!(
        described("https://en.wikipedia.org/wiki/Sergei_Rachmaninoff"),
        (
            "Wikipedia".into(),
            "en.wikipedia.org".into(),
            "bi-wikipedia".into()
        )
    );
    assert_eq!(
        described("https://www.wikidata.org/wiki/Q131861"),
        ("Wikidata".into(), "www.wikidata.org".into(), "svg".into())
    );
    assert_eq!(
        described("https://imslp.org/wiki/Category:Rachmaninoff,_Sergei"),
        ("IMSLP".into(), "imslp.org".into(), "svg".into())
    );
    // A site can be named here and still be drawn by its own favicon
    assert_eq!(
        described("https://www.gutenberg.org/ebooks/972"),
        (
            "Project Gutenberg".into(),
            "www.gutenberg.org".into(),
            "favicon".into()
        )
    );
    // A host that merely ends in a known name is not that site
    assert_eq!(
        described("https://notimslp.org/"),
        (
            "notimslp.org".into(),
            "notimslp.org".into(),
            "favicon".into()
        )
    );
    // An unknown site is its host, minus the "www." nobody reads
    assert_eq!(
        described("https://www.henle.de/en/"),
        ("henle.de".into(), "www.henle.de".into(), "favicon".into())
    );
}

#[test]
fn a_host_is_read_case_blind() {
    assert_eq!(
        described("https://IMSLP.org/wiki/Main_Page"),
        ("IMSLP".into(), "imslp.org".into(), "svg".into())
    );
}

#[test]
fn something_that_is_no_url_has_no_host() {
    assert_eq!(
        described("not a url"),
        ("not a url".into(), "".into(), "bi-link-45deg".into())
    );
}

#[test]
fn an_opaque_host_is_lowercased_too() {
    assert_eq!(
        described("foo://IMSLP.ORG/wiki"),
        ("IMSLP".into(), "imslp.org".into(), "svg".into())
    );
}
