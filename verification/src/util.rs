//! Content-type handling: byte-level helpers and the image-format resolver.
//!
//! A content type arrives as the raw bytes of an HTTP header value. Its
//! essence (the `type/subtype` pair before any parameter, trimmed and
//! lower-cased) decides which decodable format the response claims, and the
//! vendor-specific icon subtypes normalize to one canonical value.

use vstd::prelude::*;

verus! {

/// The decodable image formats the resolver knows.
#[derive(Clone, Copy, PartialEq, Eq, Structural, Debug)]
pub enum ImageFormat {
    Png,
    Jpeg,
    Gif,
    Ico,
}

// ---------- byte classification ----------

/// Optional whitespace around a header value: space or horizontal tab.
pub open spec fn is_ows(b: u8) -> bool {
    b == 32 || b == 9
}

/// ASCII lower-casing of one byte.
pub open spec fn lower_byte(b: u8) -> u8 {
    if 65 <= b && b <= 90 {
        (b + 32) as u8
    } else {
        b
    }
}

pub open spec fn lower_bytes(s: Seq<u8>) -> Seq<u8> {
    s.map_values(|b: u8| lower_byte(b))
}

fn byte_is_ows(b: u8) -> (r: bool)
    ensures
        r == is_ows(b),
{
    b == 32 || b == 9
}

fn byte_lower(b: u8) -> (r: u8)
    ensures
        r == lower_byte(b),
{
    if 65 <= b && b <= 90 {
        b + 32
    } else {
        b
    }
}

/// Builds the lower-cased copy of `v[from..to]`.
pub fn lower_slice(v: &Vec<u8>, from: usize, to: usize) -> (r: Vec<u8>)
    requires
        from <= to <= v@.len(),
    ensures
        r@ == lower_bytes(v@.subrange(from as int, to as int)),
{
    let mut r: Vec<u8> = Vec::new();
    let mut i: usize = from;
    while i < to
        invariant
            from <= i <= to <= v@.len(),
            r@ == lower_bytes(v@.subrange(from as int, i as int)),
        decreases to - i,
    {
        let ghost before = v@.subrange(from as int, i as int);
        r.push(byte_lower(v[i]));
        proof {
            let after = v@.subrange(from as int, i + 1 as int);
            assert(after.drop_last() =~= before);
            assert(lower_bytes(after) =~= lower_bytes(before).push(lower_byte(v@[i as int])));
        }
        i += 1;
    }
    r
}

/// Element-wise equality of two byte vectors.
pub fn bytes_eq(a: &Vec<u8>, b: &Vec<u8>) -> (r: bool)
    ensures
        r == (a@ == b@),
{
    if a.len() != b.len() {
        return false;
    }
    let mut i: usize = 0;
    while i < a.len()
        invariant
            a@.len() == b@.len(),
            0 <= i <= a@.len(),
            forall|j: int| 0 <= j < i ==> a@[j] == b@[j],
        decreases a@.len() - i,
    {
        if a[i] != b[i] {
            return false;
        }
        i += 1;
    }
    proof {
        assert(a@ =~= b@);
    }
    true
}

// ---------- searching ----------

/// Index of the first occurrence of `b`, or the length if there is none.
pub open spec fn find_byte(s: Seq<u8>, b: u8) -> int
    decreases s.len(),
{
    if s.len() == 0 {
        0
    } else if s[0] == b {
        0
    } else {
        1 + find_byte(s.drop_first(), b)
    }
}

pub proof fn lemma_find_byte(s: Seq<u8>, b: u8)
    ensures
        0 <= find_byte(s, b) <= s.len(),
        find_byte(s, b) < s.len() ==> s[find_byte(s, b)] == b,
        forall|j: int| 0 <= j < find_byte(s, b) ==> s[j] != b,
    decreases s.len(),
{
    if s.len() > 0 && s[0] != b {
        let rest = s.drop_first();
        lemma_find_byte(rest, b);
        assert forall|j: int| 0 <= j < find_byte(s, b) implies s[j] != b by {
            if j > 0 {
                assert(rest[j - 1] == s[j]);
            }
        }
        if find_byte(s, b) < s.len() {
            assert(rest[find_byte(rest, b)] == s[find_byte(s, b)]);
        }
    }
}

/// The first-hit characterization pins the index down.
pub proof fn lemma_find_byte_unique(s: Seq<u8>, b: u8, i: int)
    requires
        0 <= i <= s.len(),
        forall|j: int| 0 <= j < i ==> s[j] != b,
        i < s.len() ==> s[i] == b,
    ensures
        i == find_byte(s, b),
{
    lemma_find_byte(s, b);
}

/// First occurrence of the byte `b` in `v`, or `v.len()` if absent.
pub fn find_byte_at(v: &Vec<u8>, b: u8) -> (r: usize)
    ensures
        r as int == find_byte(v@, b),
{
    let mut i: usize = 0;
    while i < v.len()
        invariant
            0 <= i <= v@.len(),
            forall|j: int| 0 <= j < i ==> v@[j] != b,
        decreases v@.len() - i,
    {
        if v[i] == b {
            proof {
                lemma_find_byte_unique(v@, b, i as int);
            }
            return i;
        }
        i += 1;
    }
    proof {
        lemma_find_byte_unique(v@, b, i as int);
    }
    i
}

// ---------- trimming ----------

/// Length of the whitespace prefix.
pub open spec fn ws_head(s: Seq<u8>) -> int
    decreases s.len(),
{
    if s.len() == 0 {
        0
    } else if is_ows(s[0]) {
        1 + ws_head(s.drop_first())
    } else {
        0
    }
}

/// Length of the whitespace suffix.
pub open spec fn ws_tail(s: Seq<u8>) -> int
    decreases s.len(),
{
    if s.len() == 0 {
        0
    } else if is_ows(s.last()) {
        1 + ws_tail(s.drop_last())
    } else {
        0
    }
}

pub proof fn lemma_ws_head(s: Seq<u8>)
    ensures
        0 <= ws_head(s) <= s.len(),
        ws_head(s) < s.len() ==> !is_ows(s[ws_head(s)]),
        forall|j: int| 0 <= j < ws_head(s) ==> is_ows(s[j]),
    decreases s.len(),
{
    if s.len() > 0 && is_ows(s[0]) {
        let rest = s.drop_first();
        lemma_ws_head(rest);
        assert forall|j: int| 0 <= j < ws_head(s) implies is_ows(s[j]) by {
            if j > 0 {
                assert(rest[j - 1] == s[j]);
            }
        }
        if ws_head(s) < s.len() {
            assert(rest[ws_head(rest)] == s[ws_head(s)]);
        }
    }
}

pub proof fn lemma_ws_tail(s: Seq<u8>)
    ensures
        0 <= ws_tail(s) <= s.len(),
        ws_tail(s) < s.len() ==> !is_ows(s[s.len() - ws_tail(s) - 1]),
        forall|j: int| s.len() - ws_tail(s) <= j < s.len() ==> is_ows(s[j]),
    decreases s.len(),
{
    if s.len() > 0 && is_ows(s.last()) {
        let rest = s.drop_last();
        lemma_ws_tail(rest);
        assert forall|j: int| s.len() - ws_tail(s) <= j < s.len() implies is_ows(s[j]) by {
            if j < s.len() - 1 {
                assert(rest[j] == s[j]);
            }
        }
        if ws_tail(s) < s.len() {
            assert(rest[rest.len() - ws_tail(rest) - 1] == s[s.len() - ws_tail(s) - 1]);
        }
    }
}

/// The sequence with leading and trailing whitespace removed.
pub open spec fn trim_ows(s: Seq<u8>) -> Seq<u8> {
    if ws_head(s) == s.len() {
        Seq::empty()
    } else {
        s.subrange(ws_head(s), s.len() - ws_tail(s))
    }
}

// ---------- the content-type essence ----------

/// The normalized `type/subtype` pair of a content-type header value:
/// everything before the first `;`, trimmed of surrounding whitespace and
/// lower-cased.
pub open spec fn essence(ct: Seq<u8>) -> Seq<u8> {
    lower_bytes(trim_ows(ct.subrange(0, find_byte(ct, 59))))
}

/// Computes the essence of a content-type header value.
pub fn essence_of(ct: &Vec<u8>) -> (r: Vec<u8>)
    ensures
        r@ == essence(ct@),
{
    let semi = find_byte_at(ct, 59);
    let ghost p = ct@.subrange(0, semi as int);
    proof {
        lemma_find_byte(ct@, 59);
        lemma_ws_head(p);
        lemma_ws_tail(p);
    }
    let mut a: usize = 0;
    while a < semi && byte_is_ows(ct[a])
        invariant
            0 <= a <= semi,
            semi as int <= ct@.len(),
            p == ct@.subrange(0, semi as int),
            forall|j: int| 0 <= j < a ==> is_ows(p[j]),
        decreases semi - a,
    {
        a += 1;
    }
    let mut b: usize = semi;
    while b > a && byte_is_ows(ct[b - 1])
        invariant
            0 <= a <= b <= semi,
            semi as int <= ct@.len(),
            p == ct@.subrange(0, semi as int),
            forall|j: int| 0 <= j < a ==> is_ows(p[j]),
            a < semi ==> !is_ows(p[a as int]),
            forall|j: int| b <= j < semi ==> is_ows(p[j]),
        decreases b,
    {
        b -= 1;
    }
    proof {
        lemma_ws_head(p);
        lemma_ws_tail(p);
        if a as int == p.len() {
            // all whitespace: the scan reached the end, and the back scan met it
            assert(ws_head(p) == a as int);
            assert(b == a);
        } else {
            assert(ws_head(p) == a as int);
            // the back scan stopped above `a`, on a non-whitespace byte
            assert(b > a) by {
                if b == a {
                    assert(is_ows(p[a as int]));
                }
            }
            assert(!is_ows(p[b - 1]));
            assert(b as int == p.len() - ws_tail(p)) by {
                let t = ws_tail(p);
                if (b as int) < p.len() - t {
                    assert(is_ows(p[p.len() - t - 1]));
                    assert(!is_ows(p[p.len() - t - 1]));
                }
                if (b as int) > p.len() - t {
                    assert(is_ows(p[b - 1]));
                }
            }
        }
    }
    let r = lower_slice(ct, a, b);
    proof {
        if a == b {
            assert(ct@.subrange(a as int, b as int) =~= Seq::<u8>::empty());
            assert(lower_bytes(Seq::<u8>::empty()) =~= Seq::<u8>::empty());
            assert(trim_ows(p) =~= Seq::<u8>::empty());
        } else {
            assert(ct@.subrange(a as int, b as int) =~= p.subrange(
                ws_head(p),
                p.len() - ws_tail(p),
            ));
        }
    }
    r
}

// ---------- named byte sequences ----------

/// The bytes of `image`.
pub open spec fn bytes_image() -> Seq<u8> {
    seq![105u8, 109u8, 97u8, 103u8, 101u8]
}

/// The bytes of `png`.
pub open spec fn bytes_png() -> Seq<u8> {
    seq![112u8, 110u8, 103u8]
}

/// The bytes of `jpeg`.
pub open spec fn bytes_jpeg() -> Seq<u8> {
    seq![106u8, 112u8, 101u8, 103u8]
}

/// The bytes of `gif`.
pub open spec fn bytes_gif() -> Seq<u8> {
    seq![103u8, 105u8, 102u8]
}

/// The bytes of `x-icon`.
pub open spec fn bytes_x_icon() -> Seq<u8> {
    seq![120u8, 45u8, 105u8, 99u8, 111u8, 110u8]
}

/// The bytes of `vnd.microsoft.icon`.
pub open spec fn bytes_vnd_icon() -> Seq<u8> {
    seq![
        118u8, 110u8, 100u8, 46u8, 109u8, 105u8, 99u8, 114u8, 111u8, 115u8, 111u8, 102u8, 116u8,
        46u8, 105u8, 99u8, 111u8, 110u8,
    ]
}

/// The canonical content type reported for a decoded format.
pub open spec fn canonical_mime(f: ImageFormat) -> Seq<u8> {
    match f {
        ImageFormat::Png => bytes_image() + seq![47u8] + bytes_png(),
        ImageFormat::Jpeg => bytes_image() + seq![47u8] + bytes_jpeg(),
        ImageFormat::Gif => bytes_image() + seq![47u8] + bytes_gif(),
        ImageFormat::Ico => bytes_image() + seq![47u8] + bytes_x_icon(),
    }
}

fn vec_image() -> (r: Vec<u8>)
    ensures
        r@ == bytes_image(),
{
    let mut v: Vec<u8> = Vec::new();
    v.push(105);
    v.push(109);
    v.push(97);
    v.push(103);
    v.push(101);
    proof {
        assert(v@ =~= bytes_image());
    }
    v
}

fn vec_png() -> (r: Vec<u8>)
    ensures
        r@ == bytes_png(),
{
    let mut v: Vec<u8> = Vec::new();
    v.push(112);
    v.push(110);
    v.push(103);
    proof {
        assert(v@ =~= bytes_png());
    }
    v
}

fn vec_jpeg() -> (r: Vec<u8>)
    ensures
        r@ == bytes_jpeg(),
{
    let mut v: Vec<u8> = Vec::new();
    v.push(106);
    v.push(112);
    v.push(101);
    v.push(103);
    proof {
        assert(v@ =~= bytes_jpeg());
    }
    v
}

fn vec_gif() -> (r: Vec<u8>)
    ensures
        r@ == bytes_gif(),
{
    let mut v: Vec<u8> = Vec::new();
    v.push(103);
    v.push(105);
    v.push(102);
    proof {
        assert(v@ =~= bytes_gif());
    }
    v
}

fn vec_x_icon() -> (r: Vec<u8>)
    ensures
        r@ == bytes_x_icon(),
{
    let mut v: Vec<u8> = Vec::new();
    v.push(120);
    v.push(45);
    v.push(105);
    v.push(99);
    v.push(111);
    v.push(110);
    proof {
        assert(v@ =~= bytes_x_icon());
    }
    v
}

fn vec_vnd_icon() -> (r: Vec<u8>)
    ensures
        r@ == bytes_vnd_icon(),
{
    let mut v: Vec<u8> = Vec::new();
    v.push(118);
    v.push(110);
    v.push(100);
    v.push(46);
    v.push(109);
    v.push(105);
    v.push(99);
    v.push(114);
    v.push(111);
    v.push(115);
    v.push(111);
    v.push(102);
    v.push(116);
    v.push(46);
    v.push(105);
    v.push(99);
    v.push(111);
    v.push(110);
    proof {
        assert(v@ =~= bytes_vnd_icon());
    }
    v
}

/// Builds the canonical content-type bytes for a format.
pub fn canonical_mime_of(f: ImageFormat) -> (r: Vec<u8>)
    ensures
        r@ == canonical_mime(f),
{
    let mut v = vec_image();
    v.push(47);
    let sub = match f {
        ImageFormat::Png => vec_png(),
        ImageFormat::Jpeg => vec_jpeg(),
        ImageFormat::Gif => vec_gif(),
        ImageFormat::Ico => vec_x_icon(),
    };
    v.extend_from_slice(sub.as_slice());
    proof {
        assert(v@ =~= canonical_mime(f));
    }
    v
}

// ---------- the resolver ----------

/// The top-level part of an essence: everything before the first `/`.
pub open spec fn essence_top(e: Seq<u8>) -> Seq<u8> {
    e.subrange(0, find_byte(e, 47))
}

/// The subtype part of an essence: everything after the first `/`, or empty
/// if there is no `/`.
pub open spec fn essence_sub(e: Seq<u8>) -> Seq<u8> {
    if find_byte(e, 47) < e.len() {
        e.subrange(find_byte(e, 47) + 1, e.len() as int)
    } else {
        Seq::empty()
    }
}

/// What the resolver answers for a content-type header value: the canonical
/// content type and the decodable format it claims, or nothing for an
/// unrecognized type. The two vendor icon subtypes map to the single
/// canonical `image/x-icon`, whatever their top-level type.
pub open spec fn spec_parse_image_format(ct: Seq<u8>) -> Option<(Seq<u8>, ImageFormat)> {
    let e = essence(ct);
    if find_byte(e, 47) < e.len() {
        let top = essence_top(e);
        let sub = essence_sub(e);
        if top == bytes_image() && sub == bytes_png() {
            Some((canonical_mime(ImageFormat::Png), ImageFormat::Png))
        } else if top == bytes_image() && sub == bytes_jpeg() {
            Some((canonical_mime(ImageFormat::Jpeg), ImageFormat::Jpeg))
        } else if top == bytes_image() && sub == bytes_gif() {
            Some((canonical_mime(ImageFormat::Gif), ImageFormat::Gif))
        } else if sub == bytes_x_icon() || sub == bytes_vnd_icon() {
            Some((canonical_mime(ImageFormat::Ico), ImageFormat::Ico))
        } else {
            None
        }
    } else {
        None
    }
}

/// Relates an executable resolver answer to the specified one.
pub open spec fn parse_answer_is(
    r: Option<(Vec<u8>, ImageFormat)>,
    s: Option<(Seq<u8>, ImageFormat)>,
) -> bool {
    match (r, s) {
        (Some(p), Some(q)) => p.0@ == q.0 && p.1 == q.1,
        (None, None) => true,
        _ => false,
    }
}

/// Maps a content-type header value to the decodable format it claims,
/// together with the canonical content type reported for that format.
pub fn resolve_image_format(ct: &Vec<u8>) -> (r: Option<(Vec<u8>, ImageFormat)>)
    ensures
        parse_answer_is(r, spec_parse_image_format(ct@)),
{
    let e = essence_of(ct);
    let slash = find_byte_at(&e, 47);
    proof {
        lemma_find_byte(e@, 47);
    }
    if slash >= e.len() {
        return None;
    }
    let mut top: Vec<u8> = Vec::new();
    let mut i: usize = 0;
    while i < slash
        invariant
            0 <= i <= slash,
            slash as int <= e@.len(),
            top@ == e@.subrange(0, i as int),
        decreases slash - i,
    {
        let ghost before = e@.subrange(0, i as int);
        top.push(e[i]);
        proof {
            assert(e@.subrange(0, i + 1 as int) =~= before.push(e@[i as int]));
        }
        i += 1;
    }
    let mut sub: Vec<u8> = Vec::new();
    let mut j: usize = slash + 1;
    while j < e.len()
        invariant
            slash + 1 <= j <= e@.len(),
            sub@ == e@.subrange(slash + 1 as int, j as int),
        decreases e@.len() - j,
    {
        let ghost before = e@.subrange(slash + 1 as int, j as int);
        sub.push(e[j]);
        proof {
            assert(e@.subrange(slash + 1 as int, j + 1 as int) =~= before.push(e@[j as int]));
        }
        j += 1;
    }
    proof {
        assert(top@ == essence_top(e@));
        assert(sub@ == essence_sub(e@));
    }
    let top_is_image = bytes_eq(&top, &vec_image());
    if top_is_image && bytes_eq(&sub, &vec_png()) {
        Some((canonical_mime_of(ImageFormat::Png), ImageFormat::Png))
    } else if top_is_image && bytes_eq(&sub, &vec_jpeg()) {
        Some((canonical_mime_of(ImageFormat::Jpeg), ImageFormat::Jpeg))
    } else if top_is_image && bytes_eq(&sub, &vec_gif()) {
        Some((canonical_mime_of(ImageFormat::Gif), ImageFormat::Gif))
    } else if bytes_eq(&sub, &vec_x_icon()) || bytes_eq(&sub, &vec_vnd_icon()) {
        Some((canonical_mime_of(ImageFormat::Ico), ImageFormat::Ico))
    } else {
        None
    }
}

/// Both vendor icon content types resolve to the ICO path and normalize to
/// the one canonical reported content type: a response declaring
/// `image/x-icon` and one declaring `image/vnd.microsoft.icon` claim the
/// same decodable format and report the same value, however the header
/// spells its case or parameters.
pub proof fn lemma_ico_normalization(ct1: Seq<u8>, ct2: Seq<u8>)
    requires
        essence(ct1) == bytes_image() + seq![47u8] + bytes_x_icon(),
        essence(ct2) == bytes_image() + seq![47u8] + bytes_vnd_icon(),
    ensures
        spec_parse_image_format(ct1) == Some(
            (canonical_mime(ImageFormat::Ico), ImageFormat::Ico),
        ),
        spec_parse_image_format(ct1) == spec_parse_image_format(ct2),
{
    let e1 = essence(ct1);
    let e2 = essence(ct2);
    assert forall|j: int| 0 <= j < 5 implies e1[j] != 47 by {
        assert(e1[j] == bytes_image()[j]);
    }
    assert(e1[5] == 47);
    lemma_find_byte_unique(e1, 47, 5);
    assert(essence_top(e1) =~= bytes_image());
    assert(essence_sub(e1) =~= bytes_x_icon());
    assert forall|j: int| 0 <= j < 5 implies e2[j] != 47 by {
        assert(e2[j] == bytes_image()[j]);
    }
    assert(e2[5] == 47);
    lemma_find_byte_unique(e2, 47, 5);
    assert(essence_top(e2) =~= bytes_image());
    assert(essence_sub(e2) =~= bytes_vnd_icon());
}

/// Anything whose bytes claim an image format can act as a content type.
pub trait AsImageFormat {
    fn parse_image_format(&self) -> Option<(Vec<u8>, ImageFormat)>;
}

impl AsImageFormat for Vec<u8> {
    fn parse_image_format(&self) -> Option<(Vec<u8>, ImageFormat)> {
        resolve_image_format(self)
    }
}

} // verus!
