//! Discovery of the best-available site icon for a web page.
//!
//! The library generates icon candidates from two strategies (markup hints
//! and conventional fallback paths), validates each candidate's pixel
//! dimensions from fetched bytes, and ranks the survivors in a collection
//! sorted ascending by pixel area. Network transport stays outside the
//! library: callers hand in fetched responses as plain values.

use vstd::prelude::*;

pub mod errors;
pub mod outside;
pub mod strategies;
pub mod util;

use crate::errors::IconError;
use vstd::multiset::Multiset;
use crate::outside::{decode_dims, decode_of, link_hints_of, sniff_format, sniff_of, url_parts_of};
use crate::strategies::{spec_fallback_paths, spec_link_candidates, LinkHint};
use crate::util::{
    canonical_mime, canonical_mime_of, resolve_image_format, spec_parse_image_format,
};

verus! {

/// Pixel dimensions of a decoded or declared icon; width and height are
/// always present together.
#[derive(Clone, Copy, PartialEq, Eq, Structural, Debug)]
pub struct Dimensions {
    pub width: u32,
    pub height: u32,
}

impl Dimensions {
    /// Pixel area, the ranking key of a collection.
    pub open spec fn spec_area(self) -> int {
        self.width * self.height
    }

    /// Pixel area computed in 64 bits, so that the largest icons cannot
    /// overflow the multiplication.
    pub fn area(&self) -> (r: u64)
        ensures
            r == self.spec_area(),
    {
        let w = self.width as u64;
        let h = self.height as u64;
        assert(w * h <= 0xffff_ffffu64 * 0xffff_ffffu64) by (nonlinear_arith)
            requires
                w <= 0xffff_ffffu64,
                h <= 0xffff_ffffu64,
        ;
        w * h
    }
}

/// One icon candidate: its absolute URL, and, once validated, its raw
/// bytes, normalized content type, and pixel dimensions.
pub struct Icon {
    pub url: Vec<u8>,
    pub raw: Option<Vec<u8>>,
    pub mime_type: Option<Vec<u8>>,
    pub size: Option<Dimensions>,
}

/// The mathematical value of an icon candidate.
pub struct IconV {
    pub url: Seq<u8>,
    pub raw: Option<Seq<u8>>,
    pub mime_type: Option<Seq<u8>>,
    pub size: Option<Dimensions>,
}

/// The value of an optional byte vector.
pub open spec fn opt_view(o: Option<Vec<u8>>) -> Option<Seq<u8>> {
    match o {
        Some(v) => Some(v@),
        None => None,
    }
}

impl View for Icon {
    type V = IconV;

    open spec fn view(&self) -> IconV {
        IconV {
            url: self.url@,
            raw: opt_view(self.raw),
            mime_type: opt_view(self.mime_type),
            size: self.size,
        }
    }
}

impl Icon {
    /// A fresh, unvalidated candidate for the given absolute URL.
    pub fn from_url(url: Vec<u8>) -> (r: Icon)
        ensures
            r.url == url,
            r.raw is None,
            r.mime_type is None,
            r.size is None,
    {
        Icon { url, raw: None, mime_type: None, size: None }
    }

    /// Whether validation already recorded dimensions, so that no further
    /// fetch is owed.
    pub fn is_sized(&self) -> (r: bool)
        ensures
            r == (self.size is Some),
    {
        match self.size {
            Some(_) => true,
            None => false,
        }
    }

    /// Validates this candidate against the response its URL fetched:
    /// checks the status, resolves the declared content type (falling back
    /// to sniffing the bytes), decodes the image, and on success records
    /// the dimensions, the canonical content type and the raw bytes. A
    /// candidate already holding fetched bytes is left as it is: validation
    /// happens exactly once. On failure nothing changes and the error says
    /// why, exactly as `spec_validate` lays it out.
    pub fn apply_response(&mut self, resp: FetchResponse) -> (r: Result<(), IconError>)
        ensures
            old(self).raw is Some ==> r is Ok && *final(self) == *old(self),
            old(self).raw is None ==> match spec_validate(
                resp.status,
                opt_view(resp.content_type),
                resp.body@,
            ) {
                Ok(pair) => {
                    &&& r is Ok
                    &&& final(self).size == Some(pair.0)
                    &&& opt_view(final(self).mime_type) == Some(pair.1)
                    &&& opt_view(final(self).raw) == Some(resp.body@)
                    &&& final(self).url == old(self).url
                },
                Err(e) => r == Err::<(), IconError>(e) && *final(self) == *old(self),
            },
    {
        if self.raw.is_some() {
            return Ok(());
        }
        let FetchResponse { status, content_type, body } = resp;
        if status < 200 || status >= 300 {
            return Err(IconError::BadStatus);
        }
        let ct = match content_type {
            Some(c) => c,
            None => {
                return Err(IconError::MissingContentType);
            },
        };
        match resolve_image_format(&ct) {
            Some((mime, fmt)) => match decode_dims(&body, fmt) {
                Some(d) => {
                    self.size = Some(d);
                    self.mime_type = Some(mime);
                    self.raw = Some(body);
                    Ok(())
                },
                None => Err(IconError::DecodeError),
            },
            None => match sniff_format(&body) {
                Some(f) => match decode_dims(&body, f) {
                    Some(d) => {
                        self.size = Some(d);
                        self.mime_type = Some(canonical_mime_of(f));
                        self.raw = Some(body);
                        Ok(())
                    },
                    None => Err(IconError::DecodeError),
                },
                None => Err(IconError::UnsupportedContentType),
            },
        }
    }
}

/// A fetched HTTP response, handed in as plain values: the status code,
/// the content-type header if any, and the body bytes.
pub struct FetchResponse {
    pub status: u16,
    pub content_type: Option<Vec<u8>>,
    pub body: Vec<u8>,
}

/// What validating a response yields: the decoded dimensions and the
/// canonical content type, or the exact reason the candidate is dropped.
/// The status must be in the success range; a declared content type that
/// the resolver knows decides the format, otherwise the bytes are sniffed;
/// the bytes must then decode as that format.
pub open spec fn spec_validate(status: u16, ct: Option<Seq<u8>>, body: Seq<u8>) -> Result<
    (Dimensions, Seq<u8>),
    IconError,
> {
    if !(200 <= status && status < 300) {
        Err(IconError::BadStatus)
    } else {
        match ct {
            None => Err(IconError::MissingContentType),
            Some(c) => match spec_parse_image_format(c) {
                Some(pair) => match decode_of(body, pair.1) {
                    Some(d) => Ok((d, pair.0)),
                    None => Err(IconError::DecodeError),
                },
                None => match sniff_of(body) {
                    Some(f) => match decode_of(body, f) {
                        Some(d) => Ok((d, canonical_mime(f))),
                        None => Err(IconError::DecodeError),
                    },
                    None => Err(IconError::UnsupportedContentType),
                },
            },
        }
    }
}

/// An unvalidated candidate for a guessed URL.
pub open spec fn unsized_candidate(u: Seq<u8>) -> IconV {
    IconV { url: u, raw: None, mime_type: None, size: None }
}

/// One page-lookup session: the document URL fixed at construction, and
/// the icon hints of the parsed document tree, absent when the document
/// could not be fetched or parsed.
pub struct IconScraper {
    pub document_url: Vec<u8>,
    pub dom: Option<Vec<LinkHint>>,
}

impl IconScraper {
    /// Builds a session from the document URL and the fetched document
    /// body, if any; a missing body leaves the hint list absent, so markup
    /// queries yield no candidates rather than failing. A present body is
    /// parsed, and the session holds exactly the icon hints of its `link`
    /// elements, in tree order.
    pub fn from_document(document_url: Vec<u8>, html: Option<&Vec<u8>>) -> (r: IconScraper)
        ensures
            r.document_url == document_url,
            match html {
                Some(b) => (r.dom matches Some(hints) && hints@.map_values(|h: LinkHint| h@)
                    == link_hints_of(b@)),
                None => r.dom is None,
            },
    {
        let dom = match html {
            Some(bytes) => Some(crate::outside::icon_link_hints(bytes)),
            None => None,
        };
        IconScraper { document_url, dom }
    }

    /// The markup-hint candidates of the parsed document, in document
    /// order; none when no document tree is present.
    pub fn markup_candidates(&self) -> (r: Vec<Icon>)
        ensures
            match self.dom {
                Some(hints) => r@.map_values(|ic: Icon| ic@) == spec_link_candidates(
                    hints@,
                    self.document_url@,
                ),
                None => r@ == Seq::<Icon>::empty(),
            },
    {
        match &self.dom {
            Some(hints) => crate::strategies::link_candidates(hints, &self.document_url),
            None => {
                let r: Vec<Icon> = Vec::new();
                proof {
                    assert(r@ =~= Seq::<Icon>::empty());
                }
                r
            },
        }
    }

    /// The fallback-path candidates guessed from the document URL alone,
    /// in probing order: one unvalidated `favicon.ico` candidate per
    /// directory level, longest path first.
    pub fn fallback_candidates(&self) -> (r: Vec<Icon>)
        ensures
            match url_parts_of(self.document_url@) {
                Some(pp) => r@.map_values(|ic: Icon| ic@) == spec_fallback_paths(
                    pp.0,
                    pp.1,
                ).map_values(|u: Seq<u8>| unsized_candidate(u)),
                None => r@ == Seq::<Icon>::empty(),
            },
    {
        match crate::outside::url_parts(&self.document_url) {
            Some((origin, path)) => {
                let urls = crate::strategies::fallback_paths(&origin, &path);
                let mut out: Vec<Icon> = Vec::new();
                let mut i: usize = 0;
                while i < urls.len()
                    invariant
                        0 <= i <= urls@.len(),
                        out@.map_values(|ic: Icon| ic@) =~= urls@.subrange(
                            0,
                            i as int,
                        ).map_values(|v: Vec<u8>| v@).map_values(|u: Seq<u8>| unsized_candidate(u)),
                    decreases urls@.len() - i,
                {
                    let ghost mapped_before = out@.map_values(|ic: Icon| ic@);
                    let u = urls[i].clone();
                    proof {
                        assert(u@ =~= urls@[i as int]@);
                    }
                    out.push(Icon::from_url(u));
                    proof {
                        assert(out@.map_values(|ic: Icon| ic@) =~= mapped_before.push(
                            out@.last()@,
                        ));
                        assert(urls@.subrange(0, i + 1 as int).map_values(
                            |v: Vec<u8>| v@,
                        ).map_values(|q: Seq<u8>| unsized_candidate(q)) =~= urls@.subrange(
                            0,
                            i as int,
                        ).map_values(|v: Vec<u8>| v@).map_values(
                            |q: Seq<u8>| unsized_candidate(q),
                        ).push(unsized_candidate(urls@[i as int]@)));
                    }
                    i += 1;
                }
                proof {
                    assert(urls@.subrange(0, urls@.len() as int) =~= urls@);
                }
                out
            },
            None => {
                let r: Vec<Icon> = Vec::new();
                proof {
                    assert(r@ =~= Seq::<Icon>::empty());
                }
                r
            },
        }
    }
}

// ---------- the ranked collection ----------

/// The ranking key: the pixel area of a sized icon. Unsized icons never
/// enter a collection.
pub open spec fn spec_area_of(ic: Icon) -> int {
    match ic.size {
        Some(d) => d.spec_area(),
        None => -1,
    }
}

pub open spec fn all_sized(s: Seq<Icon>) -> bool {
    forall|i: int| 0 <= i < s.len() ==> (#[trigger] s[i]).size is Some
}

pub open spec fn sorted_by_area(s: Seq<Icon>) -> bool {
    forall|i: int, j: int|
        0 <= i < j < s.len() ==> spec_area_of(#[trigger] s[i]) <= spec_area_of(#[trigger] s[j])
}

/// Whether an icon satisfies a minimum-size query.
pub open spec fn qualifies(ic: Icon, width: u32, height: u32) -> bool {
    ic.size matches Some(d) && d.width >= width && d.height >= height
}

fn icon_area(ic: &Icon) -> (r: u64)
    requires
        ic.size is Some,
    ensures
        r == spec_area_of(*ic),
{
    match &ic.size {
        Some(d) => d.area(),
        None => 0,
    }
}

fn icon_qualifies(ic: &Icon, width: u32, height: u32) -> (r: bool)
    ensures
        r == qualifies(*ic, width, height),
{
    match &ic.size {
        Some(d) => d.width >= width && d.height >= height,
        None => false,
    }
}

/// Moving one element from the input to the end of the output keeps the
/// combined contents.
proof fn lemma_transfer_multiset(out_s: Seq<Icon>, in_s: Seq<Icon>, k: int)
    requires
        0 <= k < in_s.len(),
    ensures
        out_s.push(in_s[k]).to_multiset().add(in_s.remove(k).to_multiset()) == out_s.to_multiset()
            .add(in_s.to_multiset()),
{
    broadcast use vstd::seq_lib::group_to_multiset_ensures;
    broadcast use vstd::multiset::group_multiset_axioms;

    let x = in_s[k];
    assert(in_s.contains(x));
    assert(out_s.push(x).to_multiset() =~= out_s.to_multiset().insert(x));
    assert(in_s.remove(k).to_multiset() =~= in_s.to_multiset().remove(x));
    assert(out_s.to_multiset().insert(x).add(in_s.to_multiset().remove(x)) =~= out_s.to_multiset()
        .add(in_s.to_multiset()));
}

/// The index of the first icon of minimal area.
pub open spec fn min_area_index(s: Seq<Icon>) -> int
    decreases s.len(),
{
    if s.len() <= 1 {
        0
    } else {
        let r = 1 + min_area_index(s.drop_first());
        if spec_area_of(s[0]) <= spec_area_of(s[r]) {
            0
        } else {
            r
        }
    }
}

pub proof fn lemma_min_area_index(s: Seq<Icon>)
    requires
        s.len() > 0,
    ensures
        0 <= min_area_index(s) < s.len(),
        forall|j: int|
            0 <= j < s.len() ==> spec_area_of(s[min_area_index(s)]) <= spec_area_of(
                #[trigger] s[j],
            ),
        forall|j: int|
            0 <= j < min_area_index(s) ==> spec_area_of(#[trigger] s[j]) > spec_area_of(
                s[min_area_index(s)],
            ),
    decreases s.len(),
{
    if s.len() > 1 {
        let rest = s.drop_first();
        lemma_min_area_index(rest);
        assert(s[1 + min_area_index(rest)] == rest[min_area_index(rest)]);
        assert forall|j: int| 0 <= j < s.len() implies spec_area_of(s[min_area_index(s)])
            <= spec_area_of(#[trigger] s[j]) by {
            if j > 0 {
                assert(s[j] == rest[j - 1]);
            }
        }
        assert forall|j: int| 0 <= j < min_area_index(s) implies spec_area_of(#[trigger] s[j])
            > spec_area_of(s[min_area_index(s)]) by {
            if j > 0 {
                assert(s[j] == rest[j - 1]);
            }
        }
    }
}

/// The first-minimum characterization pins the index down.
pub proof fn lemma_min_area_index_unique(s: Seq<Icon>, i: int)
    requires
        0 <= i < s.len(),
        forall|j: int| 0 <= j < s.len() ==> spec_area_of(s[i]) <= spec_area_of(#[trigger] s[j]),
        forall|j: int| 0 <= j < i ==> spec_area_of(#[trigger] s[j]) > spec_area_of(s[i]),
    ensures
        i == min_area_index(s),
{
    lemma_min_area_index(s);
}

/// The stable ranking: repeatedly take the first icon of minimal area.
/// This sorts ascending by area, and equal-area icons keep their relative
/// input order.
pub open spec fn spec_rank(s: Seq<Icon>) -> Seq<Icon>
    decreases s.len(),
    via spec_rank_decreases
{
    if s.len() == 0 {
        Seq::empty()
    } else {
        let k = min_area_index(s);
        seq![s[k]] + spec_rank(s.remove(k))
    }
}

#[via_fn]
proof fn spec_rank_decreases(s: Seq<Icon>) {
    if s.len() > 0 {
        lemma_min_area_index(s);
    }
}

/// The ordered result set of one discovery run: the validated icons,
/// sorted ascending by pixel area, equal areas kept in emission order.
pub struct IconCollection {
    icons: Vec<Icon>,
}

impl View for IconCollection {
    type V = Seq<Icon>;

    closed spec fn view(&self) -> Seq<Icon> {
        self.icons@
    }
}

impl IconCollection {
    /// A well-formed collection holds sized icons only, sorted ascending
    /// by area.
    pub open spec fn wf(self) -> bool {
        all_sized(self@) && sorted_by_area(self@)
    }

    /// Ranks validated icons: sorts them ascending by pixel area with a
    /// stable order, keeping exactly the given icons. The result is the
    /// one stable ranking of the input: `spec_rank` pins down where every
    /// icon, equal areas included, ends up.
    pub fn from_raw(icons: Vec<Icon>) -> (r: IconCollection)
        requires
            all_sized(icons@),
        ensures
            r.wf(),
            r@ == spec_rank(icons@),
            r@.to_multiset() == icons@.to_multiset(),
            r@.len() == icons@.len(),
    {
        broadcast use vstd::seq_lib::group_to_multiset_ensures;
        broadcast use vstd::multiset::group_multiset_axioms;

        let ghost orig = icons@;
        let mut input = icons;
        let mut output: Vec<Icon> = Vec::new();
        proof {
            assert(output@.to_multiset() =~= Multiset::<Icon>::empty());
            assert(output@.to_multiset().add(input@.to_multiset()) =~= input@.to_multiset());
            assert(output@ + spec_rank(input@) =~= spec_rank(orig));
        }
        while input.len() > 0
            invariant
                all_sized(input@),
                all_sized(output@),
                sorted_by_area(output@),
                forall|i: int, j: int|
                    0 <= i < output@.len() && 0 <= j < input@.len() ==> spec_area_of(
                        #[trigger] output@[i],
                    ) <= spec_area_of(#[trigger] input@[j]),
                output@.to_multiset().add(input@.to_multiset()) == orig.to_multiset(),
                output@ + spec_rank(input@) == spec_rank(orig),
                output@.len() + input@.len() == orig.len(),
            decreases input@.len(),
        {
            let mut best: usize = 0;
            let mut k: usize = 1;
            while k < input.len()
                invariant
                    0 <= best < k <= input@.len(),
                    all_sized(input@),
                    forall|j: int|
                        0 <= j < k ==> spec_area_of(input@[best as int]) <= spec_area_of(
                            #[trigger] input@[j],
                        ),
                    forall|j: int|
                        0 <= j < best ==> spec_area_of(input@[best as int]) < spec_area_of(
                            #[trigger] input@[j],
                        ),
                decreases input@.len() - k,
            {
                if icon_area(&input[k]) < icon_area(&input[best]) {
                    best = k;
                }
                k += 1;
            }
            let ghost out_before = output@;
            let ghost in_before = input@;
            let chosen = input.remove(best);
            proof {
                lemma_transfer_multiset(out_before, in_before, best as int);
                lemma_min_area_index_unique(in_before, best as int);
                assert(spec_rank(in_before) == seq![in_before[best as int]] + spec_rank(
                    in_before.remove(best as int),
                ));
                assert(out_before.push(in_before[best as int]) + spec_rank(
                    in_before.remove(best as int),
                ) =~= out_before + spec_rank(in_before));
            }
            output.push(chosen);
            proof {
                assert forall|i: int, j: int|
                    0 <= i < output@.len() && 0 <= j < input@.len() implies spec_area_of(
                    #[trigger] output@[i],
                ) <= spec_area_of(#[trigger] input@[j]) by {
                    assert(input@[j] == if j < best {
                        in_before[j]
                    } else {
                        in_before[j + 1]
                    });
                    if i < output@.len() - 1 {
                        assert(output@[i] == out_before[i]);
                    } else {
                        assert(output@[i] == in_before[best as int]);
                    }
                }
                assert(sorted_by_area(output@)) by {
                    assert forall|i: int, j: int| 0 <= i < j < output@.len() implies spec_area_of(
                        #[trigger] output@[i],
                    ) <= spec_area_of(#[trigger] output@[j]) by {
                        if j < output@.len() - 1 {
                            assert(output@[i] == out_before[i] && output@[j] == out_before[j]);
                        } else {
                            assert(output@[j] == in_before[best as int]);
                            assert(output@[i] == out_before[i]);
                        }
                    }
                }
            }
        }
        proof {
            assert(input@.to_multiset() =~= Multiset::<Icon>::empty()) by {
                assert forall|x: Icon| input@.to_multiset().count(x) == Multiset::<
                    Icon,
                >::empty().count(x) by {
                    assert(!input@.contains(x));
                }
            }
            assert(output@.to_multiset().add(input@.to_multiset()) =~= output@.to_multiset());
            assert(output@ + spec_rank(input@) =~= output@);
        }
        IconCollection { icons: output }
    }

    /// What `at_least` answers on a non-empty collection: the smallest
    /// qualifying icon before the last position, or, when no icon before
    /// the last position qualifies, the last (largest) icon.
    pub open spec fn at_least_post(s: Seq<Icon>, width: u32, height: u32, ic: Icon) -> bool {
        ||| exists|i: int|
            0 <= i < s.len() - 1 && qualifies(#[trigger] s[i], width, height) && ic == s[i] && (
            forall|j: int| 0 <= j < i ==> !qualifies(#[trigger] s[j], width, height))
        ||| (forall|j: int| 0 <= j < s.len() - 1 ==> !qualifies(#[trigger] s[j], width, height))
            && ic == s[s.len() - 1]
    }

    /// Returns an icon at least as large as the given dimensions: the
    /// smallest qualifying one, or the largest icon of all when none
    /// qualifies; nothing only when the collection is empty.
    pub fn at_least(self, width: u32, height: u32) -> (r: Option<Icon>)
        requires
            self.wf(),
        ensures
            self@.len() == 0 ==> r is None,
            self@.len() > 0 ==> (r matches Some(ic) && Self::at_least_post(
                self@,
                width,
                height,
                ic,
            )),
    {
        let mut icons = self.icons;
        let n = icons.len();
        if n == 0 {
            return None;
        }
        let mut i: usize = 0;
        while i < n - 1
            invariant
                0 <= i <= n - 1,
                n == icons@.len(),
                icons@ == self@,
                forall|j: int| 0 <= j < i ==> !qualifies(#[trigger] icons@[j], width, height),
            decreases n - 1 - i,
        {
            if icon_qualifies(&icons[i], width, height) {
                let ic = icons.remove(i);
                return Some(ic);
            }
            i += 1;
        }
        let last = icons.remove(n - 1);
        Some(last)
    }

    /// Returns the largest icon, or nothing when the collection is empty.
    pub fn largest(self) -> (r: Option<Icon>)
        ensures
            self@.len() == 0 ==> r is None,
            self@.len() > 0 ==> r == Some(self@.last()),
    {
        let mut icons = self.icons;
        icons.pop()
    }

    /// Gives up ownership of the inner data structure: the icons sorted
    /// ascending by area.
    pub fn into_raw_parts(self) -> (r: Vec<Icon>)
        ensures
            r@ == self@,
    {
        self.icons
    }

    /// Assembles one discovery run: the validated markup candidates in
    /// emission order, followed by the fallback survivor if the probe found
    /// one, ranked into a collection. This fixes the tie-break order that
    /// equal-area icons keep.
    pub fn assemble(markup: Vec<Icon>, fallback: Option<Icon>) -> (r: IconCollection)
        requires
            all_sized(markup@),
            fallback matches Some(ic) ==> ic.size is Some,
        ensures
            r.wf(),
            r@ == spec_rank(
                match fallback {
                    Some(ic) => markup@.push(ic),
                    None => markup@,
                },
            ),
            r@.to_multiset() == (match fallback {
                Some(ic) => markup@.push(ic),
                None => markup@,
            }).to_multiset(),
    {
        let mut all = markup;
        match fallback {
            Some(ic) => all.push(ic),
            None => (),
        }
        Self::from_raw(all)
    }
}

// ---------- the collection's laws ----------

/// The icons of one given area, as a filter predicate.
pub open spec fn has_area(a: int) -> spec_fn(Icon) -> bool {
    |ic: Icon| spec_area_of(ic) == a
}

proof fn lemma_filter_none(s: Seq<Icon>, pred: spec_fn(Icon) -> bool)
    requires
        forall|i: int| 0 <= i < s.len() ==> !pred(#[trigger] s[i]),
    ensures
        s.filter(pred) == Seq::<Icon>::empty(),
    decreases s.len(),
{
    reveal(Seq::filter);
    if s.len() == 0 {
        assert(s.filter(pred) =~= Seq::<Icon>::empty());
    } else {
        assert(!pred(s[s.len() - 1]));
        lemma_filter_none(s.drop_last(), pred);
    }
}

/// Ranking is stable: for every area value, the icons of that area stand
/// in the ranked output in exactly their input order.
pub proof fn lemma_rank_stable(s: Seq<Icon>, a: int)
    ensures
        spec_rank(s).filter(has_area(a)) == s.filter(has_area(a)),
    decreases s.len(),
{
    reveal(Seq::filter);
    let pred = has_area(a);
    if s.len() == 0 {
    } else {
        lemma_min_area_index(s);
        let k = min_area_index(s);
        let rest = s.remove(k);
        let head = seq![s[k]];
        let left = s.subrange(0, k);
        let right = s.subrange(k + 1, s.len() as int);
        lemma_rank_stable(rest, a);
        Seq::filter_distributes_over_add(head, spec_rank(rest), pred);
        assert(rest =~= left + right);
        Seq::filter_distributes_over_add(left, right, pred);
        assert(s =~= (left + head) + right);
        Seq::filter_distributes_over_add(left + head, right, pred);
        Seq::filter_distributes_over_add(left, head, pred);
        assert(head.drop_last() =~= Seq::<Icon>::empty());
        assert(head.drop_last().filter(pred) =~= Seq::<Icon>::empty());
        assert(head.last() == s[k]);
        if pred(s[k]) {
            assert(head.filter(pred) =~= head) by {
                assert(head.filter(pred) == head.drop_last().filter(pred).push(s[k]));
            }
            // everything before the first minimum has a strictly larger
            // area, so nothing on the left carries this area
            assert forall|i: int| 0 <= i < left.len() implies !pred(#[trigger] left[i]) by {
                assert(left[i] == s[i]);
            }
            lemma_filter_none(left, pred);
            assert(head.filter(pred) =~= head);
            assert(spec_rank(s).filter(pred) =~= s.filter(pred));
        } else {
            assert(head.filter(pred) =~= Seq::<Icon>::empty()) by {
                assert(head.filter(pred) == head.drop_last().filter(pred));
            }
            assert(spec_rank(s).filter(pred) =~= s.filter(pred));
        }
    }
}

/// In a non-empty well-formed collection, the last element (what
/// `largest` returns) carries the maximum area; with several icons of the
/// maximal area, it is the one ranked last among them.
pub proof fn lemma_largest_has_max_area(c: IconCollection)
    requires
        c.wf(),
        c@.len() > 0,
    ensures
        forall|i: int|
            0 <= i < c@.len() ==> spec_area_of(#[trigger] c@[i]) <= spec_area_of(c@.last()),
{
}

/// When any icon of a non-empty well-formed collection qualifies for the
/// requested minimum size, the icon `at_least` answers with qualifies too;
/// when none qualifies, `at_least` answers with the largest icon.
pub proof fn lemma_at_least_quality(c: IconCollection, width: u32, height: u32, ic: Icon)
    requires
        c.wf(),
        c@.len() > 0,
        IconCollection::at_least_post(c@, width, height, ic),
    ensures
        (exists|i: int| 0 <= i < c@.len() && qualifies(#[trigger] c@[i], width, height))
            ==> qualifies(ic, width, height),
        (forall|i: int| 0 <= i < c@.len() ==> !qualifies(#[trigger] c@[i], width, height)) ==> ic
            == c@.last(),
{
    let s = c@;
    if exists|i: int| 0 <= i < s.len() && qualifies(#[trigger] s[i], width, height) {
        let i0 = choose|i: int| 0 <= i < s.len() && qualifies(#[trigger] s[i], width, height);
        if !(exists|i: int|
            0 <= i < s.len() - 1 && qualifies(#[trigger] s[i], width, height) && ic == s[i] && (
            forall|j: int| 0 <= j < i ==> !qualifies(#[trigger] s[j], width, height))) {
            // the fallback case: nothing before the last position
            // qualifies, so the qualifying icon is the last one
            assert(i0 == s.len() - 1);
            assert(qualifies(ic, width, height));
        }
    }
}

} // verus!
