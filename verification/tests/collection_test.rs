use icon_scraper::{Dimensions, Icon, IconCollection};

fn b(s: &str) -> Vec<u8> {
    s.as_bytes().to_vec()
}

fn sized_icon(url: &str, w: u32, h: u32) -> Icon {
    let mut ic = Icon::from_url(b(url));
    ic.size = Some(Dimensions { width: w, height: h });
    ic
}

#[test]
fn test_largest_returns_max_area() {
    let icons = vec![sized_icon("mid", 32, 32), sized_icon("small", 16, 16), sized_icon(
        "big",
        64,
        64,
    )];
    let c = IconCollection::from_raw(icons);
    let top = c.largest().unwrap();
    assert_eq!(top.url, b("big"));
}

#[test]
fn test_sorted_ascending_with_stable_ties() {
    let icons = vec![
        sized_icon("mid", 32, 32),
        sized_icon("small", 16, 16),
        sized_icon("big", 64, 64),
        sized_icon("mid2", 32, 32),
    ];
    let c = IconCollection::from_raw(icons);
    let urls: Vec<Vec<u8>> = c.into_raw_parts().into_iter().map(|i| i.url).collect();
    assert_eq!(urls, vec![b("small"), b("mid"), b("mid2"), b("big")]);
}

#[test]
fn test_at_least_picks_smallest_qualifying() {
    let icons = vec![sized_icon("s", 16, 16), sized_icon("m", 32, 32), sized_icon("l", 64, 64)];
    let c = IconCollection::from_raw(icons);
    let got = c.at_least(20, 20).unwrap();
    assert_eq!(got.url, b("m"));
}

#[test]
fn test_at_least_requires_both_dimensions() {
    let icons = vec![
        sized_icon("wide", 100, 10),
        sized_icon("tall", 10, 100),
        sized_icon("square", 50, 50),
    ];
    let c = IconCollection::from_raw(icons);
    let got = c.at_least(20, 20).unwrap();
    assert_eq!(got.url, b("square"));
}

#[test]
fn test_at_least_falls_back_to_largest() {
    let icons = vec![sized_icon("s", 16, 16), sized_icon("l", 64, 64)];
    let c = IconCollection::from_raw(icons);
    let got = c.at_least(100, 100).unwrap();
    assert_eq!(got.url, b("l"));
}

#[test]
fn test_at_least_with_single_icon_returns_it() {
    let icons = vec![sized_icon("only", 16, 16)];
    let c = IconCollection::from_raw(icons);
    let got = c.at_least(1000, 1000).unwrap();
    assert_eq!(got.url, b("only"));
}

#[test]
fn test_empty_collection_yields_nothing() {
    let c = IconCollection::from_raw(Vec::new());
    assert!(c.largest().is_none());
    let c2 = IconCollection::from_raw(Vec::new());
    assert!(c2.at_least(1, 1).is_none());
}

#[test]
fn test_largest_tie_keeps_emission_order() {
    // equal areas keep emission order in the ranking, so the last-ranked
    // icon among a tie at the maximum is the latest-emitted one
    let icons = vec![sized_icon("first", 16, 16), sized_icon("second", 16, 16)];
    let c = IconCollection::from_raw(icons);
    let top = c.largest().unwrap();
    assert_eq!(top.url, b("second"));
}

#[test]
fn test_assemble_ranks_markup_and_fallback_together() {
    let markup = vec![sized_icon("m1", 64, 64), sized_icon("m2", 16, 16)];
    let fallback = Some(sized_icon("fb", 32, 32));
    let c = IconCollection::assemble(markup, fallback);
    let urls: Vec<Vec<u8>> = c.into_raw_parts().into_iter().map(|i| i.url).collect();
    assert_eq!(urls, vec![b("m2"), b("fb"), b("m1")]);
}

#[test]
fn test_assemble_without_fallback() {
    let markup = vec![sized_icon("m1", 8, 8)];
    let c = IconCollection::assemble(markup, None);
    assert_eq!(c.largest().unwrap().url, b("m1"));
}
