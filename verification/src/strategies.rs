//! The two candidate-generation strategies.
//!
//! The markup-hint strategy reads icon links out of the parsed document's
//! `link` elements; the fallback-path strategy walks the document URL's
//! path hierarchy and guesses a conventional `favicon.ico` at every level.
//! Neither performs network traffic: both only construct candidates.

use vstd::prelude::*;

use crate::outside::{join_of, join_url, url_parts, url_parts_of};
use crate::util::{bytes_eq, find_byte, find_byte_at, lower_byte, lower_bytes, lower_slice};
use crate::{Dimensions, Icon, IconScraper, IconV};

verus! {

/// What one `link` element of a parsed document declares: the raw bytes of
/// its `rel`, `href` and `sizes` attributes, each absent when the element
/// has no such attribute.
pub struct LinkHint {
    pub rel: Option<Vec<u8>>,
    pub href: Option<Vec<u8>>,
    pub sizes: Option<Vec<u8>>,
}

/// The mathematical value of a link hint.
pub struct LinkHintV {
    pub rel: Option<Seq<u8>>,
    pub href: Option<Seq<u8>>,
    pub sizes: Option<Seq<u8>>,
}

impl View for LinkHint {
    type V = LinkHintV;

    open spec fn view(&self) -> LinkHintV {
        LinkHintV {
            rel: crate::opt_view(self.rel),
            href: crate::opt_view(self.href),
            sizes: crate::opt_view(self.sizes),
        }
    }
}

// ---------- rel-attribute token matching ----------

/// ASCII whitespace as HTML tokenizes attribute lists.
pub open spec fn is_space(b: u8) -> bool {
    b == 32 || b == 9 || b == 10 || b == 12 || b == 13
}

fn byte_is_space(b: u8) -> (r: bool)
    ensures
        r == is_space(b),
{
    b == 32 || b == 9 || b == 10 || b == 12 || b == 13
}

/// The bytes of `icon`.
pub open spec fn bytes_icon() -> Seq<u8> {
    seq![105u8, 99u8, 111u8, 110u8]
}

/// The bytes of `apple-touch-icon`.
pub open spec fn bytes_apple_touch_icon() -> Seq<u8> {
    seq![
        97u8, 112u8, 112u8, 108u8, 101u8, 45u8, 116u8, 111u8, 117u8, 99u8, 104u8, 45u8, 105u8,
        99u8, 111u8, 110u8,
    ]
}

fn vec_icon() -> (r: Vec<u8>)
    ensures
        r@ == bytes_icon(),
{
    let mut v: Vec<u8> = Vec::new();
    v.push(105);
    v.push(99);
    v.push(111);
    v.push(110);
    proof {
        assert(v@ =~= bytes_icon());
    }
    v
}

fn vec_apple_touch_icon() -> (r: Vec<u8>)
    ensures
        r@ == bytes_apple_touch_icon(),
{
    let mut v: Vec<u8> = Vec::new();
    v.push(97);
    v.push(112);
    v.push(112);
    v.push(108);
    v.push(101);
    v.push(45);
    v.push(116);
    v.push(111);
    v.push(117);
    v.push(99);
    v.push(104);
    v.push(45);
    v.push(105);
    v.push(99);
    v.push(111);
    v.push(110);
    proof {
        assert(v@ =~= bytes_apple_touch_icon());
    }
    v
}

/// The token `[i, j)` stands alone in `s` (whitespace or an end on both
/// sides) and lower-cases to `tok`.
pub open spec fn is_token_at(s: Seq<u8>, i: int, j: int, tok: Seq<u8>) -> bool {
    &&& 0 <= i <= j <= s.len()
    &&& (i == 0 || is_space(s[i - 1]))
    &&& (j == s.len() || is_space(s[j]))
    &&& lower_bytes(s.subrange(i, j)) == tok
}

/// Whether a `rel` attribute names an icon link: its whitespace-separated
/// token set contains `icon` or `apple-touch-icon`, case-insensitively.
pub open spec fn rel_matches(rel: Seq<u8>) -> bool {
    exists|i: int, j: int|
        #![trigger is_token_at(rel, i, j, bytes_icon())]
        #![trigger is_token_at(rel, i, j, bytes_apple_touch_icon())]
        is_token_at(rel, i, j, bytes_icon()) || is_token_at(rel, i, j, bytes_apple_touch_icon())
}

/// A matching token holds no whitespace byte and is exactly as long as what
/// it lower-cases to.
proof fn lemma_token_content(s: Seq<u8>, i: int, j: int, tok: Seq<u8>)
    requires
        is_token_at(s, i, j, tok),
        forall|k: int| 0 <= k < tok.len() ==> !is_space(#[trigger] tok[k]),
    ensures
        j - i == tok.len(),
        forall|k: int| i <= k < j ==> !is_space(#[trigger] s[k]),
{
    let sub = s.subrange(i, j);
    assert(lower_bytes(sub).len() == sub.len());
    assert forall|k: int| i <= k < j implies !is_space(#[trigger] s[k]) by {
        assert(lower_bytes(sub)[k - i] == lower_byte(sub[k - i]));
        assert(sub[k - i] == s[k]);
        assert(!is_space(tok[k - i]));
    }
}

/// Decides whether a `rel` attribute names an icon link.
pub fn rel_matches_bytes(rel: &Vec<u8>) -> (r: bool)
    ensures
        r == rel_matches(rel@),
{
    let ghost s = rel@;
    proof {
        assert(forall|k: int| 0 <= k < bytes_icon().len() ==> !is_space(#[trigger] bytes_icon()[k]));
        assert(forall|k: int|
            0 <= k < bytes_apple_touch_icon().len() ==> !is_space(
                #[trigger] bytes_apple_touch_icon()[k],
            ));
        assert forall|i: int, j: int| j <= 0 implies !#[trigger] is_token_at(
            s,
            i,
            j,
            bytes_icon(),
        ) by {
            if is_token_at(s, i, j, bytes_icon()) {
                lemma_token_content(s, i, j, bytes_icon());
            }
        }
        assert forall|i: int, j: int| j <= 0 implies !#[trigger] is_token_at(
            s,
            i,
            j,
            bytes_apple_touch_icon(),
        ) by {
            if is_token_at(s, i, j, bytes_apple_touch_icon()) {
                lemma_token_content(s, i, j, bytes_apple_touch_icon());
            }
        }
    }
    let n = rel.len();
    let mut pos: usize = 0;
    while pos < n
        invariant
            0 <= pos <= n,
            n == s.len(),
            s == rel@,
            pos == 0 || pos == n || is_space(s[pos - 1]) || is_space(s[pos as int]),
            forall|i: int, j: int| j <= pos ==> !#[trigger] is_token_at(s, i, j, bytes_icon()),
            forall|i: int, j: int|
                j <= pos ==> !#[trigger] is_token_at(s, i, j, bytes_apple_touch_icon()),
        decreases n - pos,
    {
        if byte_is_space(rel[pos]) {
            proof {
                assert forall|i: int, j: int| j <= pos + 1 implies !#[trigger] is_token_at(
                    s,
                    i,
                    j,
                    bytes_icon(),
                ) by {
                    if j == pos + 1 && is_token_at(s, i, j, bytes_icon()) {
                        lemma_token_content(s, i, j, bytes_icon());
                        assert(!is_space(s[j - 1]));
                    }
                }
                assert forall|i: int, j: int| j <= pos + 1 implies !#[trigger] is_token_at(
                    s,
                    i,
                    j,
                    bytes_apple_touch_icon(),
                ) by {
                    if j == pos + 1 && is_token_at(s, i, j, bytes_apple_touch_icon()) {
                        lemma_token_content(s, i, j, bytes_apple_touch_icon());
                        assert(!is_space(s[j - 1]));
                    }
                }
            }
            pos += 1;
        } else {
            let start = pos;
            let mut end = pos;
            while end < n && !byte_is_space(rel[end])
                invariant
                    start <= end <= n,
                    n == s.len(),
                    s == rel@,
                    forall|k: int| start <= k < end ==> !is_space(#[trigger] s[k]),
                decreases n - end,
            {
                end += 1;
            }
            let tok = lower_slice(rel, start, end);
            let hit_icon = bytes_eq(&tok, &vec_icon());
            let hit_apple = bytes_eq(&tok, &vec_apple_touch_icon());
            if hit_icon || hit_apple {
                proof {
                    if hit_icon {
                        assert(is_token_at(rel@, start as int, end as int, bytes_icon()));
                    } else {
                        assert(is_token_at(
                            rel@,
                            start as int,
                            end as int,
                            bytes_apple_touch_icon(),
                        ));
                    }
                    assert(rel_matches(rel@));
                }
                return true;
            }
            proof {
                assert forall|i: int, j: int| j <= end implies !#[trigger] is_token_at(
                    s,
                    i,
                    j,
                    bytes_icon(),
                ) by {
                    if j > pos && is_token_at(s, i, j, bytes_icon()) {
                        lemma_token_content(s, i, j, bytes_icon());
                        if j < end {
                            assert(!is_space(s[j]));
                        } else {
                            // j == end; the start can only be `start`
                            if i < start as int {
                                assert(is_space(s[start - 1]));
                            }
                            if i > start as int {
                                assert(!is_space(s[i - 1]));
                            }
                            assert(i == start as int);
                            assert(s.subrange(i, j) =~= s.subrange(start as int, end as int));
                        }
                    }
                }
                assert forall|i: int, j: int| j <= end implies !#[trigger] is_token_at(
                    s,
                    i,
                    j,
                    bytes_apple_touch_icon(),
                ) by {
                    if j > pos && is_token_at(s, i, j, bytes_apple_touch_icon()) {
                        lemma_token_content(s, i, j, bytes_apple_touch_icon());
                        if j < end {
                            assert(!is_space(s[j]));
                        } else {
                            if i < start as int {
                                assert(is_space(s[start - 1]));
                            }
                            if i > start as int {
                                assert(!is_space(s[i - 1]));
                            }
                            assert(i == start as int);
                            assert(s.subrange(i, j) =~= s.subrange(start as int, end as int));
                        }
                    }
                }
            }
            pos = end;
        }
    }
    false
}

// ---------- the sizes attribute ----------

pub open spec fn is_digit(b: u8) -> bool {
    48 <= b && b <= 57
}

pub open spec fn all_digits(s: Seq<u8>) -> bool {
    s.len() > 0 && forall|k: int| 0 <= k < s.len() ==> is_digit(#[trigger] s[k])
}

/// The number a digit string denotes, most significant digit first.
pub open spec fn digits_val(s: Seq<u8>) -> int
    decreases s.len(),
{
    if s.len() == 0 {
        0
    } else {
        digits_val(s.drop_last()) * 10 + (s.last() - 48)
    }
}

proof fn lemma_digits_val_nonneg(s: Seq<u8>)
    requires
        forall|k: int| 0 <= k < s.len() ==> is_digit(#[trigger] s[k]),
    ensures
        digits_val(s) >= 0,
    decreases s.len(),
{
    if s.len() > 0 {
        lemma_digits_val_nonneg(s.drop_last());
    }
}

/// A digit string denotes at least what any of its prefixes denotes.
proof fn lemma_digits_val_prefix(s: Seq<u8>, i: int)
    requires
        forall|k: int| 0 <= k < s.len() ==> is_digit(#[trigger] s[k]),
        0 <= i <= s.len(),
    ensures
        digits_val(s.subrange(0, i)) <= digits_val(s),
    decreases s.len() - i,
{
    if i == s.len() {
        assert(s.subrange(0, i) =~= s);
    } else {
        let shorter = s.subrange(0, s.len() - 1);
        assert(shorter =~= s.drop_last());
        assert(s.subrange(0, i) =~= shorter.subrange(0, i));
        lemma_digits_val_prefix(shorter, i);
        lemma_digits_val_nonneg(s.drop_last());
    }
}

/// Parses the digit string `v[from..to]` as a 32-bit number.
fn parse_digits(v: &Vec<u8>, from: usize, to: usize) -> (r: Option<u32>)
    requires
        from <= to <= v@.len(),
    ensures
        ({
            let s = v@.subrange(from as int, to as int);
            match r {
                Some(d) => all_digits(s) && digits_val(s) == d && digits_val(s) <= 0xffff_ffff,
                None => !(all_digits(s) && digits_val(s) <= 0xffff_ffff),
            }
        }),
{
    let ghost s = v@.subrange(from as int, to as int);
    if from == to {
        return None;
    }
    let mut acc: u64 = 0;
    let mut i: usize = from;
    while i < to
        invariant
            from <= i <= to <= v@.len(),
            s == v@.subrange(from as int, to as int),
            acc <= 0xffff_ffff,
            forall|k: int| 0 <= k < i - from ==> is_digit(#[trigger] s[k]),
            acc == digits_val(s.subrange(0, i - from)),
        decreases to - i,
    {
        let b = v[i];
        if b < 48 || b > 57 {
            proof {
                assert(s[i - from] == v@[i as int]);
                assert(!is_digit(s[i - from]));
            }
            return None;
        }
        let d = (b - 48) as u64;
        let next = acc * 10 + d;
        proof {
            let pre = s.subrange(0, i - from);
            let ext = s.subrange(0, i + 1 - from);
            assert(ext.drop_last() =~= pre);
            assert(ext.last() == v@[i as int]);
            assert(digits_val(ext) == digits_val(pre) * 10 + (b - 48));
        }
        if next > 0xffff_ffff {
            proof {
                if all_digits(s) {
                    lemma_digits_val_prefix(s, i + 1 - from);
                }
            }
            return None;
        }
        acc = next;
        i += 1;
    }
    proof {
        assert(s.subrange(0, to - from) =~= s);
        assert(all_digits(s));
    }
    Some(acc as u32)
}

/// What a `sizes` attribute declares: `<int>x<int>` with a case-insensitive
/// separator and strictly decimal dimensions that fit 32 bits, or nothing.
pub open spec fn spec_parse_sizes(s: Seq<u8>) -> Option<Dimensions> {
    let low = lower_bytes(s);
    let x = find_byte(low, 120);
    if x < low.len() {
        let w = low.subrange(0, x);
        let h = low.subrange(x + 1, low.len() as int);
        if all_digits(w) && all_digits(h) && digits_val(w) <= 0xffff_ffff && digits_val(h)
            <= 0xffff_ffff {
            Some(
                Dimensions {
                    width: digits_val(w) as u32,
                    height: digits_val(h) as u32,
                },
            )
        } else {
            None
        }
    } else {
        None
    }
}

/// Parses a `sizes` attribute value.
pub fn parse_sizes(sizes: &Vec<u8>) -> (r: Option<Dimensions>)
    ensures
        r == spec_parse_sizes(sizes@),
{
    let low = lower_slice(sizes, 0, sizes.len());
    proof {
        assert(sizes@.subrange(0, sizes@.len() as int) =~= sizes@);
    }
    let x = find_byte_at(&low, 120);
    if x >= low.len() {
        return None;
    }
    let w = parse_digits(&low, 0, x);
    let h = parse_digits(&low, x + 1, low.len());
    proof {
        assert(low@.subrange(0, x as int) == lower_bytes(sizes@).subrange(0, x as int));
        assert(low@.subrange(x + 1 as int, low@.len() as int) == lower_bytes(sizes@).subrange(
            x + 1 as int,
            lower_bytes(sizes@).len() as int,
        ));
    }
    match (w, h) {
        (Some(a), Some(b)) => Some(Dimensions { width: a, height: b }),
        _ => None,
    }
}

// ---------- the markup-hint strategy ----------

/// The candidate one link hint produces, if any: the element must carry a
/// matching `rel` and a resolvable `href`; a missing or malformed `sizes`
/// attribute leaves the candidate unsized rather than dropping it.
pub open spec fn spec_hint_candidate(h: LinkHint, base: Seq<u8>) -> Option<IconV> {
    if h.rel matches Some(r) && rel_matches(r@) {
        match h.href {
            Some(hr) => match join_of(base, hr@) {
                Some(u) => Some(
                    IconV {
                        url: u,
                        raw: None,
                        mime_type: None,
                        size: match h.sizes {
                            Some(sz) => spec_parse_sizes(sz@),
                            None => None,
                        },
                    },
                ),
                None => None,
            },
            None => None,
        }
    } else {
        None
    }
}

/// All candidates of a hint sequence, in document order.
pub open spec fn spec_link_candidates(hints: Seq<LinkHint>, base: Seq<u8>) -> Seq<IconV>
    decreases hints.len(),
{
    if hints.len() == 0 {
        Seq::empty()
    } else {
        let rest = spec_link_candidates(hints.drop_last(), base);
        match spec_hint_candidate(hints.last(), base) {
            Some(c) => rest.push(c),
            None => rest,
        }
    }
}

/// Produces the markup-hint candidates for the given link hints against the
/// document's base URL.
pub fn link_candidates(hints: &Vec<LinkHint>, base: &Vec<u8>) -> (r: Vec<Icon>)
    ensures
        r@.map_values(|ic: Icon| ic@) == spec_link_candidates(hints@, base@),
{
    let mut out: Vec<Icon> = Vec::new();
    let mut i: usize = 0;
    while i < hints.len()
        invariant
            0 <= i <= hints@.len(),
            out@.map_values(|ic: Icon| ic@) == spec_link_candidates(
                hints@.subrange(0, i as int),
                base@,
            ),
        decreases hints@.len() - i,
    {
        let ghost prefix = hints@.subrange(0, i as int);
        let ghost mapped_before = out@.map_values(|ic: Icon| ic@);
        let h = &hints[i];
        let mut produced: Option<Icon> = None;
        match (&h.rel, &h.href) {
            (Some(rl), Some(hr)) => {
                if rel_matches_bytes(rl) {
                    match join_url(base, hr) {
                        Some(u) => {
                            let size = match &h.sizes {
                                Some(sz) => parse_sizes(sz),
                                None => None,
                            };
                            let mut ic = Icon::from_url(u);
                            ic.size = size;
                            produced = Some(ic);
                        },
                        None => {},
                    }
                }
            },
            _ => {},
        }
        proof {
            assert(hints@.subrange(0, i + 1 as int).drop_last() =~= prefix);
            assert(hints@.subrange(0, i + 1 as int).last() == hints@[i as int]);
        }
        match produced {
            Some(ic) => {
                proof {
                    assert(spec_hint_candidate(hints@[i as int], base@) == Some(ic@));
                }
                out.push(ic);
                proof {
                    assert(out@.map_values(|ic2: Icon| ic2@) =~= mapped_before.push(
                        out@.last()@,
                    ));
                }
            },
            None => {
                proof {
                    assert(spec_hint_candidate(hints@[i as int], base@) is None);
                }
            },
        }
        i += 1;
    }
    proof {
        assert(hints@.subrange(0, hints@.len() as int) =~= hints@);
    }
    out
}

// ---------- the fallback-path strategy ----------

/// The bytes of `favicon.ico`.
pub open spec fn bytes_favicon() -> Seq<u8> {
    seq![102u8, 97u8, 118u8, 105u8, 99u8, 111u8, 110u8, 46u8, 105u8, 99u8, 111u8]
}

fn vec_favicon() -> (r: Vec<u8>)
    ensures
        r@ == bytes_favicon(),
{
    let mut v: Vec<u8> = Vec::new();
    v.push(102);
    v.push(97);
    v.push(118);
    v.push(105);
    v.push(99);
    v.push(111);
    v.push(110);
    v.push(46);
    v.push(105);
    v.push(99);
    v.push(111);
    proof {
        assert(v@ =~= bytes_favicon());
    }
    v
}

/// The guessed URLs for a document at `origin` + `p`: one `favicon.ico`
/// URL per directory level of the path, longest prefix first, each prefix
/// ending at a `/` of the path.
pub open spec fn spec_fallback_paths(origin: Seq<u8>, p: Seq<u8>) -> Seq<Seq<u8>>
    decreases p.len(),
{
    if p.len() == 0 {
        Seq::empty()
    } else if p.last() == 47 {
        seq![origin + p + bytes_favicon()] + spec_fallback_paths(origin, p.drop_last())
    } else {
        spec_fallback_paths(origin, p.drop_last())
    }
}

/// The cut positions of the fallback guesses: for each `/` of the path,
/// scanned from the end, the length of the path prefix ending at that `/`.
pub open spec fn spec_fallback_cuts(p: Seq<u8>) -> Seq<int>
    decreases p.len(),
{
    if p.len() == 0 {
        Seq::empty()
    } else if p.last() == 47 {
        seq![p.len() as int] + spec_fallback_cuts(p.drop_last())
    } else {
        spec_fallback_cuts(p.drop_last())
    }
}

/// The shape of the fallback guesses: one per `/` of the path and one
/// only, each the origin, then the path cut just after one `/`, then
/// `favicon.ico`; successive guesses cut the path strictly shorter, and
/// every `/` of the path yields a guess, down to the root.
pub proof fn lemma_fallback_paths_shape(origin: Seq<u8>, p: Seq<u8>)
    ensures
        spec_fallback_paths(origin, p).len() == spec_fallback_cuts(p).len(),
        forall|k: int|
            0 <= k < spec_fallback_cuts(p).len() ==> {
                let c = #[trigger] spec_fallback_cuts(p)[k];
                1 <= c <= p.len() && p[c - 1] == 47 && spec_fallback_paths(origin, p)[k] == origin
                    + p.subrange(0, c) + bytes_favicon()
            },
        forall|k: int|
            0 <= k < spec_fallback_cuts(p).len() - 1 ==> #[trigger] spec_fallback_cuts(p)[k + 1]
                < spec_fallback_cuts(p)[k],
        forall|q: int| 0 <= q < p.len() && p[q] == 47 ==> spec_fallback_cuts(p).contains(q + 1),
    decreases p.len(),
{
    if p.len() > 0 {
        let rest = p.drop_last();
        lemma_fallback_paths_shape(origin, rest);
        let cuts = spec_fallback_cuts(p);
        let paths = spec_fallback_paths(origin, p);
        let rcuts = spec_fallback_cuts(rest);
        let rpaths = spec_fallback_paths(origin, rest);
        if p.last() == 47 {
            assert(cuts == seq![p.len() as int] + rcuts);
            assert(paths == seq![origin + p + bytes_favicon()] + rpaths);
            assert forall|k: int| 0 <= k < cuts.len() implies {
                let c = #[trigger] cuts[k];
                1 <= c <= p.len() && p[c - 1] == 47 && paths[k] == origin + p.subrange(0, c)
                    + bytes_favicon()
            } by {
                if k == 0 {
                    assert(cuts[0] == p.len() as int);
                    assert(p.subrange(0, p.len() as int) =~= p);
                } else {
                    assert(cuts[k] == rcuts[k - 1]);
                    assert(paths[k] == rpaths[k - 1]);
                    let c = rcuts[k - 1];
                    assert(rest[c - 1] == p[c - 1]);
                    assert(rest.subrange(0, c) =~= p.subrange(0, c));
                }
            }
            assert forall|k: int| 0 <= k < cuts.len() - 1 implies #[trigger] cuts[k + 1]
                < cuts[k] by {
                if k == 0 {
                    assert(cuts[1] == rcuts[0]);
                    assert(rcuts[0] <= rest.len());
                } else {
                    assert(cuts[k] == rcuts[k - 1]);
                    assert(cuts[k + 1] == rcuts[k]);
                    let k2 = k - 1;
                    assert(spec_fallback_cuts(rest)[k2 + 1] < spec_fallback_cuts(rest)[k2]);
                }
            }
            assert forall|q: int| 0 <= q < p.len() && p[q] == 47 implies cuts.contains(q + 1) by {
                if q == p.len() - 1 {
                    assert(cuts[0] == q + 1);
                } else {
                    assert(rest[q] == 47);
                    assert(rcuts.contains(q + 1));
                    let i = choose|i: int| 0 <= i < rcuts.len() && rcuts[i] == q + 1;
                    assert(cuts[i + 1] == q + 1);
                }
            }
        } else {
            assert(cuts == rcuts);
            assert(paths == rpaths);
            assert forall|k: int| 0 <= k < cuts.len() implies {
                let c = #[trigger] cuts[k];
                1 <= c <= p.len() && p[c - 1] == 47 && paths[k] == origin + p.subrange(0, c)
                    + bytes_favicon()
            } by {
                let c = rcuts[k];
                assert(1 <= c <= rest.len() && rest[c - 1] == 47 && rpaths[k] == origin
                    + rest.subrange(0, c) + bytes_favicon());
                assert(rest[c - 1] == p[c - 1]);
                assert(rest.subrange(0, c) =~= p.subrange(0, c));
            }
            assert forall|q: int| 0 <= q < p.len() && p[q] == 47 implies cuts.contains(q + 1) by {
                assert(q < p.len() - 1);
                assert(rest[q] == 47);
                assert(rcuts.contains(q + 1));
            }
        }
    }
}

/// Builds the fallback URLs for a split document URL, in probing order.
pub fn fallback_paths(origin: &Vec<u8>, path: &Vec<u8>) -> (r: Vec<Vec<u8>>)
    ensures
        r@.map_values(|v: Vec<u8>| v@) == spec_fallback_paths(origin@, path@),
{
    let favicon = vec_favicon();
    let mut out: Vec<Vec<u8>> = Vec::new();
    let mut i: usize = path.len();
    proof {
        assert(path@.subrange(0, path@.len() as int) =~= path@);
    }
    while i > 0
        invariant
            0 <= i <= path@.len(),
            out@.map_values(|v: Vec<u8>| v@) + spec_fallback_paths(
                origin@,
                path@.subrange(0, i as int),
            ) =~= spec_fallback_paths(origin@, path@),
            favicon@ == bytes_favicon(),
        decreases i,
    {
        let ghost cur = path@.subrange(0, i as int);
        let ghost mapped_before = out@.map_values(|v: Vec<u8>| v@);
        proof {
            assert(cur.drop_last() =~= path@.subrange(0, i - 1));
            assert(cur.last() == path@[i - 1]);
        }
        if path[i - 1] == 47 {
            let mut u: Vec<u8> = Vec::new();
            u.extend_from_slice(origin.as_slice());
            u.extend_from_slice(&path.as_slice()[0..i]);
            u.extend_from_slice(favicon.as_slice());
            proof {
                assert(u@ =~= origin@ + cur + bytes_favicon());
            }
            out.push(u);
            proof {
                assert(out@.map_values(|v: Vec<u8>| v@) =~= mapped_before.push(out@.last()@));
                assert(mapped_before.push(out@.last()@) + spec_fallback_paths(
                    origin@,
                    path@.subrange(0, i - 1),
                ) =~= mapped_before + spec_fallback_paths(origin@, cur));
            }
        }
        i -= 1;
    }
    proof {
        assert(path@.subrange(0, 0) =~= Seq::<u8>::empty());
        assert(out@.map_values(|v: Vec<u8>| v@) =~= spec_fallback_paths(origin@, path@));
    }
    out
}

// ---------- the strategy surface ----------

/// A pluggable producer of icon candidates from a fetched document.
/// Dispatch through the trait carries no contract: the proved surface is
/// `IconScraper::markup_candidates` and `IconScraper::fallback_candidates`,
/// which the two implementations delegate to.
pub trait Strategy {
    fn get_guesses(self, scraper: &IconScraper) -> Vec<Icon>;
}

/// Guesses conventional `favicon.ico` paths along the document URL's path
/// hierarchy. The candidates come back unvalidated, in probing order; the
/// caller probes them sequentially and keeps the first that validates.
pub struct DefaultFaviconPathStrategy;

/// Reads icon links out of the parsed document's markup.
pub struct LinkRelStrategy;

impl Strategy for DefaultFaviconPathStrategy {
    fn get_guesses(self, scraper: &IconScraper) -> Vec<Icon> {
        scraper.fallback_candidates()
    }
}

impl Strategy for LinkRelStrategy {
    fn get_guesses(self, scraper: &IconScraper) -> Vec<Icon> {
        scraper.markup_candidates()
    }
}

} // verus!
