use vstd::prelude::*;

use crate::error::ProfileError;
use crate::span::{RawSpan, forest_wf, lemma_window_bounds, span_wf, window_end, window_start};

verus! {

broadcast use vstd::std_specs::vec::axiom_vec_index_decreases;

/// The global time window that every span of one forest is measured against.
///
/// A time `t` maps to the fraction `(t - start) / normalization`.
pub struct NormalizationParams {
    pub start: u64,
    pub end: u64,
    pub normalization: u64,
}

impl NormalizationParams {
    pub open spec fn wf(&self) -> bool {
        self.start <= self.end && self.normalization == self.end - self.start
    }
}

/// A span in window coordinates.
///
/// With `u64` coordinates, `start` and `end` are numerators over the window
/// length: the region covers `[start / n, end / n]` of the window of length `n`.
#[derive(Debug)]
pub struct RegionTree<T> {
    pub start: T,
    pub end: T,
    pub regions: Vec<RegionTree<T>>,
    pub desc: String,
}

/// A normalized forest together with the length of its window.
#[derive(Debug)]
pub struct NormalizedForest {
    pub regions: Vec<RegionTree<u64>>,
    pub normalization: u64,
}

/// The span lies within `[lo, hi]`.
pub open spec fn span_within(s: RawSpan, lo: int, hi: int) -> bool {
    lo <= s.start && s.end <= hi
}

/// `r` is what span `s` becomes on a window opening at `origin`, at every depth.
pub open spec fn region_of(r: RegionTree<u64>, s: RawSpan, origin: int) -> bool
    decreases s,
{
    &&& r.start == s.start - origin
    &&& r.end == s.end - origin
    &&& r.desc@ == s.name@
    &&& r.regions.len() == s.children.len()
    &&& forall|i: int|
        #![trigger r.regions[i]]
        0 <= i < s.children.len() ==> region_of(r.regions[i], s.children[i], origin)
}

/// `lo <= start <= end <= hi`, and each child region lies within its parent,
/// at every depth.
pub open spec fn region_within(r: RegionTree<u64>, lo: int, hi: int) -> bool
    decreases r,
{
    &&& lo <= r.start <= r.end <= hi
    &&& forall|i: int|
        #![trigger r.regions[i]]
        0 <= i < r.regions.len() ==> region_within(r.regions[i], r.start as int, r.end as int)
}

impl NormalizedForest {
    /// The window has positive length and every region, with its descendants,
    /// lies in `[0, normalization]`, each child inside its parent.
    pub open spec fn wf(&self) -> bool {
        &&& self.normalization > 0
        &&& forall|i: int|
            0 <= i < self.regions.len() ==> region_within(
                #[trigger] self.regions[i],
                0,
                self.normalization as int,
            )
    }
}

/// `f` is the normalization of the top-level spans `spans`: each region is
/// its span measured from the window's start, over the window's length.
pub open spec fn normalized_from(f: NormalizedForest, spans: Seq<RawSpan>) -> bool {
    &&& f.normalization == window_end(spans) - window_start(spans)
    &&& f.regions.len() == spans.len()
    &&& forall|i: int|
        0 <= i < spans.len() ==> region_of(#[trigger] f.regions[i], spans[i], window_start(spans) as int)
}

/// A region normalized from a well-formed span lies within the span's own
/// window coordinates, and so does every descendant within its parent.
pub proof fn lemma_region_within(r: RegionTree<u64>, s: RawSpan, origin: int)
    requires
        region_of(r, s, origin),
        span_wf(s),
        origin <= s.start,
    ensures
        region_within(r, s.start - origin, s.end - origin),
    decreases s,
{
    assert forall|i: int| 0 <= i < r.regions.len() implies region_within(
        #[trigger] r.regions[i],
        r.start as int,
        r.end as int,
    ) by {
        lemma_region_within(r.regions[i], s.children[i], origin);
    }
}

/// Maps each span, at every depth, to window coordinates.
pub fn from_flame(spans: &Vec<RawSpan>, norm_params: &NormalizationParams) -> (r: Vec<RegionTree<u64>>)
    requires
        norm_params.wf(),
        forall|i: int|
            0 <= i < spans.len() ==> span_wf(#[trigger] spans[i]) && span_within(
                spans[i],
                norm_params.start as int,
                norm_params.end as int,
            ),
    ensures
        r.len() == spans.len(),
        forall|i: int|
            0 <= i < spans.len() ==> region_of(#[trigger] r[i], spans[i], norm_params.start as int),
        forall|i: int|
            0 <= i < spans.len() ==> region_within(#[trigger] r[i], 0, norm_params.normalization as int),
    decreases spans,
{
    let mut out: Vec<RegionTree<u64>> = Vec::new();
    let mut i: usize = 0;
    while i < spans.len()
        invariant
            norm_params.wf(),
            forall|j: int|
                0 <= j < spans.len() ==> span_wf(#[trigger] spans[j]) && span_within(
                    spans[j],
                    norm_params.start as int,
                    norm_params.end as int,
                ),
            i <= spans.len(),
            out.len() == i,
            forall|j: int| 0 <= j < i ==> region_of(#[trigger] out[j], spans[j], norm_params.start as int),
            forall|j: int|
                0 <= j < i ==> region_within(#[trigger] out[j], 0, norm_params.normalization as int),
        decreases spans.len() - i,
    {
        let span = &spans[i];
        assert(span_wf(spans[i as int]));
        let start = span.start - norm_params.start;
        let end = start + (span.end - span.start);
        proof {
            assert forall|j: int| 0 <= j < span.children.len() implies span_wf(
                #[trigger] span.children[j],
            ) && span_within(span.children[j], norm_params.start as int, norm_params.end as int) by {}
        }
        let regions = from_flame(&span.children, norm_params);
        let region = RegionTree { start, end, regions, desc: span.name.clone() };
        proof {
            assert(region_of(region, *span, norm_params.start as int));
            lemma_region_within(region, *span, norm_params.start as int);
        }
        out.push(region);
        i = i + 1;
    }
    out
}

impl RegionTree<u64> {
    /// Normalizes a forest against the window that its top-level spans cover.
    ///
    /// Fails with `EmptyForest` when there are no spans and with
    /// `DegenerateWindow` when the window has length zero.
    pub fn from_flame(spans: &Vec<RawSpan>) -> (r: Result<NormalizedForest, ProfileError>)
        requires
            forest_wf(spans@),
        ensures
            spans.len() == 0 ==> r == Err::<NormalizedForest, ProfileError>(ProfileError::EmptyForest),
            spans.len() > 0 && window_start(spans@) == window_end(spans@) ==> r == Err::<
                NormalizedForest,
                ProfileError,
            >(ProfileError::DegenerateWindow),
            spans.len() > 0 && window_start(spans@) < window_end(spans@) ==> (r matches Ok(f)
                && f.wf() && normalized_from(f, spans@)),
    {
        let mut start = u64::MAX;
        let mut end: u64 = 0;
        let mut i: usize = 0;
        while i < spans.len()
            invariant
                i <= spans.len(),
                start == window_start(spans@.subrange(0, i as int)),
                end == window_end(spans@.subrange(0, i as int)),
            decreases spans.len() - i,
        {
            proof {
                assert(spans@.subrange(0, i + 1).drop_last() =~= spans@.subrange(0, i as int));
            }
            if spans[i].start < start {
                start = spans[i].start;
            }
            if spans[i].end > end {
                end = spans[i].end;
            }
            i = i + 1;
        }
        assert(spans@.subrange(0, spans.len() as int) =~= spans@);
        if spans.len() == 0 {
            return Err(ProfileError::EmptyForest);
        }
        proof {
            lemma_window_bounds(spans@);
            let a = choose|i: int| 0 <= i < spans.len() && (#[trigger] spans@[i]).start == window_start(spans@);
            assert(span_wf(spans@[a]));
        }
        if start == end {
            return Err(ProfileError::DegenerateWindow);
        }
        let norm_params = NormalizationParams { start, end, normalization: end - start };
        let regions = from_flame(spans, &norm_params);
        Ok(NormalizedForest { regions, normalization: norm_params.normalization })
    }
}

} // verus!
