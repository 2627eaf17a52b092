use icon_scraper::strategies::{parse_sizes, DefaultFaviconPathStrategy, LinkRelStrategy, Strategy};
use icon_scraper::{Dimensions, IconScraper};

fn b(s: &str) -> Vec<u8> {
    s.as_bytes().to_vec()
}

#[test]
fn test_apple_touch_icon_without_size_attr() {
    // laverna.cc does this.
    let html = b("<!DOCTYPE html>
            <html>
                <head>
                    <link rel=apple-touch-icon href=apple-touch-icon.png>
                </head>
                <body></body>
            </html>
            ");
    let scraper = IconScraper::from_document(b("http://example.com/"), Some(&html));
    let mut icons = LinkRelStrategy.get_guesses(&scraper);
    assert_eq!(icons.len(), 1);
    assert_eq!(icons.pop().unwrap().url, b("http://example.com/apple-touch-icon.png"));
}

#[test]
fn test_icon_link_with_sizes() {
    let html = b("<html><head><link rel=\"icon\" sizes=\"16x16\" href=\"apple-touch-icon.png\"></head><body></body></html>");
    let scraper = IconScraper::from_document(b("http://example.com/"), Some(&html));
    let icons = LinkRelStrategy.get_guesses(&scraper);
    assert_eq!(icons.len(), 1);
    assert_eq!(icons[0].url, b("http://example.com/apple-touch-icon.png"));
    assert_eq!(icons[0].size, Some(Dimensions { width: 16, height: 16 }));
}

#[test]
fn test_shortcut_icon_rel_matches_case_insensitively() {
    let html = b("<html><head><link rel=\"SHORTCUT ICON\" href=\"/fav.png\"></head><body></body></html>");
    let scraper = IconScraper::from_document(b("http://example.com/a/b"), Some(&html));
    let icons = LinkRelStrategy.get_guesses(&scraper);
    assert_eq!(icons.len(), 1);
    assert_eq!(icons[0].url, b("http://example.com/fav.png"));
    assert_eq!(icons[0].size, None);
}

#[test]
fn test_unrelated_rel_yields_no_candidate() {
    let html = b("<html><head><link rel=\"stylesheet\" href=\"style.css\"></head><body></body></html>");
    let scraper = IconScraper::from_document(b("http://example.com/"), Some(&html));
    let icons = LinkRelStrategy.get_guesses(&scraper);
    assert_eq!(icons.len(), 0);
}

#[test]
fn test_missing_href_yields_no_candidate() {
    let html = b("<html><head><link rel=\"icon\" sizes=\"16x16\"></head><body></body></html>");
    let scraper = IconScraper::from_document(b("http://example.com/"), Some(&html));
    let icons = LinkRelStrategy.get_guesses(&scraper);
    assert_eq!(icons.len(), 0);
}

#[test]
fn test_malformed_sizes_keeps_candidate_unsized() {
    let html = b("<html><head><link rel=\"icon\" sizes=\"16\" href=\"i.png\"></head><body></body></html>");
    let scraper = IconScraper::from_document(b("http://example.com/"), Some(&html));
    let icons = LinkRelStrategy.get_guesses(&scraper);
    assert_eq!(icons.len(), 1);
    assert_eq!(icons[0].size, None);
}

#[test]
fn test_absent_document_yields_no_markup_candidates() {
    let scraper = IconScraper::from_document(b("http://example.com/"), None);
    let icons = LinkRelStrategy.get_guesses(&scraper);
    assert_eq!(icons.len(), 0);
}

#[test]
fn test_fallback_path_hierarchy() {
    let scraper = IconScraper::from_document(b("http://example.com/a/b/c/d/e/f"), None);
    let icons = DefaultFaviconPathStrategy.get_guesses(&scraper);
    let urls: Vec<Vec<u8>> = icons.into_iter().map(|i| i.url).collect();
    assert_eq!(
        urls,
        vec![
            b("http://example.com/a/b/c/d/e/favicon.ico"),
            b("http://example.com/a/b/c/d/favicon.ico"),
            b("http://example.com/a/b/c/favicon.ico"),
            b("http://example.com/a/b/favicon.ico"),
            b("http://example.com/a/favicon.ico"),
            b("http://example.com/favicon.ico"),
        ]
    );
}

#[test]
fn test_fallback_path_at_root() {
    let scraper = IconScraper::from_document(b("http://example.com/"), None);
    let icons = DefaultFaviconPathStrategy.get_guesses(&scraper);
    let urls: Vec<Vec<u8>> = icons.into_iter().map(|i| i.url).collect();
    assert_eq!(urls, vec![b("http://example.com/favicon.ico")]);
}

#[test]
fn test_parse_sizes_values() {
    assert_eq!(parse_sizes(&b("16x16")), Some(Dimensions { width: 16, height: 16 }));
    assert_eq!(parse_sizes(&b("32X64")), Some(Dimensions { width: 32, height: 64 }));
    assert_eq!(parse_sizes(&b("16")), None);
    assert_eq!(parse_sizes(&b("16x16x32")), None);
    assert_eq!(parse_sizes(&b("axb")), None);
    assert_eq!(parse_sizes(&b("")), None);
    assert_eq!(parse_sizes(&b("4294967296x16")), None);
    assert_eq!(parse_sizes(&b("4294967295x1")), Some(Dimensions { width: 4294967295, height: 1 }));
}
