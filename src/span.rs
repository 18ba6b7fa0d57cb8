use vstd::prelude::*;

verus! {

broadcast use vstd::std_specs::vec::axiom_vec_index_decreases;

/// A named time interval with the intervals nested inside it.
#[derive(Debug)]
pub struct RawSpan {
    pub name: String,
    pub start: u64,
    pub end: u64,
    pub children: Vec<RawSpan>,
}

/// The span ends no earlier than it starts, and every child, at any depth,
/// lies inside its parent.
pub open spec fn span_wf(s: RawSpan) -> bool
    decreases s,
{
    &&& s.start <= s.end
    &&& forall|i: int|
        0 <= i < s.children.len() ==> {
            &&& s.start <= (#[trigger] s.children[i]).start
            &&& s.children[i].end <= s.end
            &&& span_wf(s.children[i])
        }
}

/// Every span of the forest is well formed.
pub open spec fn forest_wf(spans: Seq<RawSpan>) -> bool {
    forall|i: int| 0 <= i < spans.len() ==> span_wf(#[trigger] spans[i])
}

/// Tells whether a span and everything under it is well formed.
pub fn span_is_well_formed(s: &RawSpan) -> (r: bool)
    ensures
        r == span_wf(*s),
    decreases s,
{
    if s.start > s.end {
        return false;
    }
    let mut i: usize = 0;
    while i < s.children.len()
        invariant
            s.start <= s.end,
            i <= s.children.len(),
            forall|k: int|
                0 <= k < i ==> {
                    &&& s.start <= (#[trigger] s.children[k]).start
                    &&& s.children[k].end <= s.end
                    &&& span_wf(s.children[k])
                },
        decreases s.children.len() - i,
    {
        let c = &s.children[i];
        if c.start < s.start || c.end > s.end || !span_is_well_formed(c) {
            return false;
        }
        i = i + 1;
    }
    true
}

/// Tells whether every span of a forest is well formed.
pub fn is_well_formed(spans: &Vec<RawSpan>) -> (r: bool)
    ensures
        r == forest_wf(spans@),
{
    let mut i: usize = 0;
    while i < spans.len()
        invariant
            i <= spans.len(),
            forall|k: int| 0 <= k < i ==> span_wf(#[trigger] spans@[k]),
        decreases spans.len() - i,
    {
        if !span_is_well_formed(&spans[i]) {
            return false;
        }
        i = i + 1;
    }
    true
}

/// The earliest start among the top-level spans (`u64::MAX` for none).
pub open spec fn window_start(spans: Seq<RawSpan>) -> u64
    decreases spans.len(),
{
    if spans.len() == 0 {
        u64::MAX
    } else {
        let m = window_start(spans.drop_last());
        if spans.last().start < m { spans.last().start } else { m }
    }
}

/// The latest end among the top-level spans (`0` for none).
pub open spec fn window_end(spans: Seq<RawSpan>) -> u64
    decreases spans.len(),
{
    if spans.len() == 0 {
        0
    } else {
        let m = window_end(spans.drop_last());
        if spans.last().end > m { spans.last().end } else { m }
    }
}

/// The window bounds every top-level span, and is reached by some of them.
pub proof fn lemma_window_bounds(spans: Seq<RawSpan>)
    ensures
        forall|i: int|
            0 <= i < spans.len() ==> window_start(spans) <= (#[trigger] spans[i]).start
                && spans[i].end <= window_end(spans),
        spans.len() > 0 ==> exists|i: int|
            0 <= i < spans.len() && (#[trigger] spans[i]).start == window_start(spans),
        spans.len() > 0 ==> exists|i: int|
            0 <= i < spans.len() && (#[trigger] spans[i]).end == window_end(spans),
    decreases spans.len(),
{
    if spans.len() > 0 {
        let init = spans.drop_last();
        lemma_window_bounds(init);
        assert forall|i: int| 0 <= i < init.len() implies init[i] == spans[i] by {}
        if init.len() > 0 {
            let a = choose|i: int| 0 <= i < init.len() && (#[trigger] init[i]).start == window_start(init);
            let b = choose|i: int| 0 <= i < init.len() && (#[trigger] init[i]).end == window_end(init);
            assert(spans[a] == init[a]);
            assert(spans[b] == init[b]);
        }
        assert(spans[spans.len() - 1] == spans.last());
    }
}

} // verus!
