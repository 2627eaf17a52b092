//! The trusted boundary to the outside collaborators: URL resolution, HTML
//! parsing, and image decoding. Each item here is believed, not verified;
//! every doc comment names the outside function relied on.

use vstd::prelude::*;

use crate::strategies::{LinkHint, LinkHintV};
use crate::util::ImageFormat;
use crate::Dimensions;
use kuchiki::traits::TendrilSink;

verus! {

// ---------- URL resolution ----------

/// What resolving the reference `rel` against the absolute base URL `base`
/// yields: the serialized absolute URL, or nothing when the base does not
/// parse or the reference cannot be resolved against it. A function of the
/// two byte strings alone.
pub uninterp spec fn join_of(base: Seq<u8>, rel: Seq<u8>) -> Option<Seq<u8>>;

/// Relates an executable optional byte string to a specified one.
pub open spec fn opt_bytes_is(r: Option<Vec<u8>>, s: Option<Seq<u8>>) -> bool {
    match (r, s) {
        (Some(v), Some(t)) => v@ == t,
        (None, None) => true,
        _ => false,
    }
}

/// Relies on url::Url::parse and url::Url::join: resolving a reference
/// against an absolute base is a function of the two strings alone.
#[verifier::external_body]
pub(crate) fn join_url(base: &Vec<u8>, rel: &Vec<u8>) -> (r: Option<Vec<u8>>)
    ensures
        opt_bytes_is(r, join_of(base@, rel@)),
{
    let b = match std::str::from_utf8(base.as_slice()) {
        Ok(s) => s,
        Err(_) => return None,
    };
    let re = match std::str::from_utf8(rel.as_slice()) {
        Ok(s) => s,
        Err(_) => return None,
    };
    match url::Url::parse(b).and_then(|u| u.join(re)) {
        Ok(u) => Some(String::from(u).into_bytes()),
        Err(_) => None,
    }
}

/// What splitting an absolute URL yields: everything before the path (the
/// scheme and authority) and the path itself, or nothing when the URL does
/// not parse. A function of the byte string alone.
pub uninterp spec fn url_parts_of(u: Seq<u8>) -> Option<(Seq<u8>, Seq<u8>)>;

/// Relates an executable optional pair of byte strings to a specified one.
pub open spec fn opt_parts_is(
    r: Option<(Vec<u8>, Vec<u8>)>,
    s: Option<(Seq<u8>, Seq<u8>)>,
) -> bool {
    match (r, s) {
        (Some(v), Some(t)) => v.0@ == t.0 && v.1@ == t.1,
        (None, None) => true,
        _ => false,
    }
}

/// Relies on url::Url::parse, url::Position slicing and url::Url::path: the
/// part of the URL before its path, and the path.
#[verifier::external_body]
pub(crate) fn url_parts(u: &Vec<u8>) -> (r: Option<(Vec<u8>, Vec<u8>)>)
    ensures
        opt_parts_is(r, url_parts_of(u@)),
{
    let s = match std::str::from_utf8(u.as_slice()) {
        Ok(s) => s,
        Err(_) => return None,
    };
    match url::Url::parse(s) {
        Ok(p) => {
            let before = p[..url::Position::BeforePath].to_string().into_bytes();
            let path = p.path().to_string().into_bytes();
            Some((before, path))
        },
        Err(_) => None,
    }
}

// ---------- HTML parsing ----------

/// The `link` elements that parsing the document bytes yields, in tree
/// order, each read as the plain bytes of its `rel`, `href` and `sizes`
/// attributes. Parsing is deterministic, so this is a function of the byte
/// string alone.
pub uninterp spec fn link_hints_of(html: Seq<u8>) -> Seq<LinkHintV>;

/// Relies on kuchiki::parse_html (an html5ever parser) and kuchiki's
/// NodeRef::select: parses the document bytes, swallowing any
/// malformation, and converts every `link` element of the tree, in tree
/// order, to plain attribute bytes.
#[verifier::external_body]
pub(crate) fn icon_link_hints(html: &Vec<u8>) -> (r: Vec<LinkHint>)
    ensures
        r@.map_values(|h: LinkHint| h@) == link_hints_of(html@),
{
    let text = String::from_utf8_lossy(html.as_slice()).into_owned();
    let dom = kuchiki::parse_html().one(text);
    let mut rv = Vec::new();
    if let Ok(sel) = dom.select("link") {
        for m in sel {
            let attrs = m.attributes.borrow();
            rv.push(LinkHint {
                rel: attrs.get("rel").map(|s| s.as_bytes().to_vec()),
                href: attrs.get("href").map(|s| s.as_bytes().to_vec()),
                sizes: attrs.get("sizes").map(|s| s.as_bytes().to_vec()),
            });
        }
    }
    rv
}

// ---------- image decoding ----------

/// The pixel dimensions that decoding `bytes` as the format `fmt` yields,
/// or nothing when the bytes are no valid image of that format. A function
/// of the bytes and the format alone.
pub uninterp spec fn decode_of(bytes: Seq<u8>, fmt: ImageFormat) -> Option<Dimensions>;

/// Relies on image::load_from_memory_with_format: the decoded pixel
/// dimensions are a function of the bytes and the format alone.
#[verifier::external_body]
pub(crate) fn decode_dims(bytes: &Vec<u8>, fmt: ImageFormat) -> (r: Option<Dimensions>)
    ensures
        r == decode_of(bytes@, fmt),
{
    let f = match fmt {
        ImageFormat::Png => image::ImageFormat::Png,
        ImageFormat::Jpeg => image::ImageFormat::Jpeg,
        ImageFormat::Gif => image::ImageFormat::Gif,
        ImageFormat::Ico => image::ImageFormat::Ico,
    };
    match image::load_from_memory_with_format(bytes.as_slice(), f) {
        Ok(im) => Some(Dimensions { width: im.width(), height: im.height() }),
        Err(_) => None,
    }
}

/// The decodable format that the byte stream sniffs as, or nothing when it
/// sniffs as no known decodable format. A function of the bytes alone.
pub uninterp spec fn sniff_of(bytes: Seq<u8>) -> Option<ImageFormat>;

/// Relies on image::guess_format: the sniffed format is a function of the
/// byte stream alone; a format outside the decodable set counts as no
/// sniff.
#[verifier::external_body]
pub(crate) fn sniff_format(bytes: &Vec<u8>) -> (r: Option<ImageFormat>)
    ensures
        r == sniff_of(bytes@),
{
    match image::guess_format(bytes.as_slice()) {
        Ok(image::ImageFormat::Png) => Some(ImageFormat::Png),
        Ok(image::ImageFormat::Jpeg) => Some(ImageFormat::Jpeg),
        Ok(image::ImageFormat::Gif) => Some(ImageFormat::Gif),
        Ok(image::ImageFormat::Ico) => Some(ImageFormat::Ico),
        _ => None,
    }
}

} // verus!
