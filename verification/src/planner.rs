//! The planner: bounded search over the format graph for ranked conversion
//! paths.
//!
//! A candidate path is a chain of capability edges from the source format to
//! the target format that visits no format twice. Fidelity loss compounds
//! multiplicatively, so a path's `total_quality` is the scaled product of
//! its steps' qualities, and a path is returned only when that product
//! clears the caller's threshold. Results are ranked best-first by
//! `total_quality` descending, then estimated time ascending, then hop count
//! ascending; ties keep discovery order.
//!
//! The per-step time estimate is the planner's configurable base cost;
//! refining it by input size is a pluggable concern. A path's merged `risks`
//! collect the free-text risks of its steps' capabilities and are
//! informational.

use vstd::prelude::*;

use crate::capability::CapView;
use crate::capability::CapabilityRecord;
use crate::conversion::{ConversionPath, ConversionStep, ConversionTarget, PathView, StepView};
use crate::error::AppError;
use crate::registry::{triple, Registry};
use crate::text::{clone_strings, contains_str, str_eq};
use crate::{mul_scores, score_mul, valid_score, SCALE};

verus! {

/// One step of a chain is backed by a registered capability: the capability
/// carries the step's converter id and quality, declares the step's formats
/// among its aliases, and clears the quality threshold.
pub open spec fn step_valid(caps: Seq<CapView>, s: StepView, threshold: u32) -> bool {
    &&& s.quality >= threshold
    &&& exists|j: int|
        0 <= j < caps.len() && {
            let c = #[trigger] caps[j];
            &&& c.id == s.converter_id
            &&& c.has_input_alias(s.from_format)
            &&& c.has_output_alias(s.to_format)
            &&& c.quality == s.quality
        }
}

/// The chain runs from `source` to `target` with adjacent steps joined.
pub open spec fn chain_linked(steps: Seq<StepView>, source: Seq<char>, target: Seq<char>) -> bool {
    &&& steps.len() >= 1
    &&& steps[0].from_format == source
    &&& steps[steps.len() - 1].to_format == target
    &&& forall|i: int|
        0 <= i < steps.len() - 1 ==> (#[trigger] steps[i]).to_format == steps[i + 1].from_format
}

/// The chain visits no format twice: its departure formats are pairwise
/// distinct and none equals the target, which is only ever arrived at.
pub open spec fn chain_simple(steps: Seq<StepView>, target: Seq<char>) -> bool {
    &&& forall|i: int, j: int|
        0 <= i < j < steps.len() ==> (#[trigger] steps[i]).from_format != (
        #[trigger] steps[j]).from_format
    &&& forall|i: int| 0 <= i < steps.len() ==> (#[trigger] steps[i]).from_format != target
}

/// Scaled product of the steps' qualities; the empty chain is the identity
/// conversion of perfect quality.
pub open spec fn chain_quality(steps: Seq<StepView>) -> u32
    decreases steps.len(),
{
    if steps.len() == 0 {
        SCALE
    } else {
        score_mul(chain_quality(steps.drop_last()), steps[steps.len() - 1].quality)
    }
}

/// A path the planner may return for `plan(source, target, threshold)`.
pub open spec fn valid_path(
    caps: Seq<CapView>,
    p: PathView,
    source: Seq<char>,
    target: Seq<char>,
    threshold: u32,
    base_step_ms: u64,
) -> bool {
    &&& chain_linked(p.steps, source, target)
    &&& chain_simple(p.steps, target)
    &&& forall|i: int| 0 <= i < p.steps.len() ==> step_valid(caps, #[trigger] p.steps[i], threshold)
    &&& p.total_quality == chain_quality(p.steps)
    &&& p.total_quality >= threshold
    &&& p.estimated_time_ms == base_step_ms * p.steps.len()
}

/// A direct edge from `f` to `t` whose capability clears the threshold.
pub open spec fn direct_ok(
    caps: Seq<CapView>,
    x: Seq<char>,
    f: Seq<char>,
    t: Seq<char>,
    threshold: u32,
) -> bool {
    exists|j: int|
        0 <= j < caps.len() && {
            let c = #[trigger] caps[j];
            &&& c.id == x
            &&& c.has_input_alias(f)
            &&& c.has_output_alias(t)
            &&& c.quality >= threshold
        }
}

/// Some listed path is the one-hop conversion through converter `x`.
pub open spec fn has_direct(paths: Seq<PathView>, x: Seq<char>) -> bool {
    exists|k: int|
        0 <= k < paths.len() && (#[trigger] paths[k]).steps.len() == 1
            && paths[k].steps[0].converter_id == x
}

/// `to` is reachable from `from` by a walk of at most `k` capability
/// edges. Any walk contains a simple path no longer than itself, so this is
/// the union of targets reachable across all hop counts up to `k`.
pub open spec fn walk_reach(caps: Seq<CapView>, from: Seq<char>, to: Seq<char>, k: int) -> bool
    decreases k,
{
    k >= 1 && (crate::registry::reachable(caps, from, to) || (exists|mid: Seq<char>|
        walk_reach(caps, from, mid, k - 1) && #[trigger] crate::registry::reachable(
            caps,
            mid,
            to,
        )))
}

/// Every tool the capability requires is among the present ones.
pub open spec fn tools_present(c: CapView, present: Seq<Seq<char>>) -> bool {
    forall|i: int|
        0 <= i < c.requires.tools.len() ==> present.contains(#[trigger] c.requires.tools[i])
}

/// Some capability producing `fmt` has all of its required tools present.
pub open spec fn producer_available(
    caps: Seq<CapView>,
    fmt: Seq<char>,
    present: Seq<Seq<char>>,
) -> bool {
    exists|j: int|
        0 <= j < caps.len() && (#[trigger] caps[j]).has_output_alias(fmt) && tools_present(
            caps[j],
            present,
        )
}

/// `m` is an absent tool required by some capability producing `fmt`.
pub open spec fn missing_for(
    caps: Seq<CapView>,
    fmt: Seq<char>,
    present: Seq<Seq<char>>,
    m: Seq<char>,
) -> bool {
    !present.contains(m) && exists|j: int|
        0 <= j < caps.len() && (#[trigger] caps[j]).has_output_alias(fmt)
            && caps[j].requires.tools.contains(m)
}

/// Completeness of a planned result: every admissible simple chain within
/// the hop bound whose compounded quality clears the threshold is listed.
pub open spec fn plan_complete(
    caps: Seq<CapView>,
    paths: Seq<PathView>,
    source: Seq<char>,
    target: Seq<char>,
    threshold: u32,
    max_hops: int,
) -> bool {
    forall|c: Seq<StepView>|
        #![trigger chain_ok(caps, c, source, target, threshold, seq![source], max_hops)]
        chain_ok(caps, c, source, target, threshold, seq![source], max_hops) && chain_quality(c)
            >= threshold ==> (exists|k: int|
            0 <= k < paths.len() && (#[trigger] paths[k]).steps == c)
}

/// Ranking order of the result list: quality descending, then estimated
/// time ascending, then hop count ascending.
pub open spec fn rank_geq(a: PathView, b: PathView) -> bool {
    ||| a.total_quality > b.total_quality
    ||| (a.total_quality == b.total_quality && (a.estimated_time_ms < b.estimated_time_ms || (
    a.estimated_time_ms == b.estimated_time_ms && a.steps.len() <= b.steps.len())))
}

/// True when the list is sorted best-first.
pub open spec fn ranked(s: Seq<PathView>) -> bool {
    forall|k: int, l: int| 0 <= k < l < s.len() ==> rank_geq(#[trigger] s[k], #[trigger] s[l])
}

/// A chain the search may report from `current` to `target` without
/// touching the `visited` formats again.
pub open spec fn chain_ok(
    caps: Seq<CapView>,
    c: Seq<StepView>,
    current: Seq<char>,
    target: Seq<char>,
    threshold: u32,
    visited: Seq<Seq<char>>,
    hops: int,
) -> bool {
    &&& 1 <= c.len() <= hops
    &&& c[0].from_format == current
    &&& c[c.len() - 1].to_format == target
    &&& forall|i: int|
        0 <= i < c.len() - 1 ==> (#[trigger] c[i]).to_format == c[i + 1].from_format
    &&& forall|i: int| 0 <= i < c.len() ==> step_valid(caps, #[trigger] c[i], threshold)
    &&& forall|i: int| 1 <= i < c.len() ==> !visited.contains((#[trigger] c[i]).from_format)
    &&& forall|i: int, j: int|
        0 <= i < j < c.len() ==> (#[trigger] c[i]).from_format != (#[trigger] c[j]).from_format
    &&& forall|i: int| 0 <= i < c.len() ==> (#[trigger] c[i]).from_format != target
}

/// Every reported chain is admissible.
pub open spec fn chains_ok(
    caps: Seq<CapView>,
    chains: Seq<Seq<StepView>>,
    current: Seq<char>,
    target: Seq<char>,
    threshold: u32,
    visited: Seq<Seq<char>>,
    hops: int,
) -> bool {
    forall|n: int|
        0 <= n < chains.len() ==> chain_ok(
            caps,
            #[trigger] chains[n],
            current,
            target,
            threshold,
            visited,
            hops,
        )
}

/// Some reported chain is the one-hop chain through converter `x`.
pub open spec fn chains_have_direct(chains: Seq<Seq<StepView>>, x: Seq<char>) -> bool {
    exists|n: int|
        0 <= n < chains.len() && (#[trigger] chains[n]).len() == 1 && chains[n][0].converter_id == x
}

/// The chain `c` is listed verbatim.
pub open spec fn chains_list(chains: Seq<Seq<StepView>>, c: Seq<StepView>) -> bool {
    exists|n: int| 0 <= n < chains.len() && #[trigger] chains[n] == c
}

/// Every admissible chain is listed: the search misses nothing.
pub open spec fn chains_complete(
    caps: Seq<CapView>,
    chains: Seq<Seq<StepView>>,
    current: Seq<char>,
    target: Seq<char>,
    threshold: u32,
    visited: Seq<Seq<char>>,
    hops: int,
) -> bool {
    forall|c: Seq<StepView>|
        #![trigger chain_ok(caps, c, current, target, threshold, visited, hops)]
        chain_ok(caps, c, current, target, threshold, visited, hops) ==> chains_list(chains, c)
}

/// In a table with distinct ids, a contained capability is the one at any
/// position carrying its id.
proof fn lemma_cap_by_id(caps: Seq<CapView>, c: CapView, j: int)
    requires
        forall|a: int, b: int|
            0 <= a < b < caps.len() ==> (#[trigger] caps[a]).id != (#[trigger] caps[b]).id,
        caps.contains(c),
        0 <= j < caps.len(),
        caps[j].id == c.id,
    ensures
        caps[j] == c,
{
    let k = choose|k: int| 0 <= k < caps.len() && caps[k] == c;
    if k < j {
        assert(caps[k].id != caps[j].id);
    } else if j < k {
        assert(caps[j].id != caps[k].id);
    }
}

/// Builds the chain `step` followed by `sub`.
fn prepend_step(step: &ConversionStep, sub: &Vec<ConversionStep>) -> (r: Vec<ConversionStep>)
    ensures
        r.deep_view() == seq![step@] + sub.deep_view(),
{
    let mut r: Vec<ConversionStep> = Vec::new();
    r.push(step.clone());
    proof {
        assert(r.deep_view() =~= seq![step@]);
    }
    let mut i: usize = 0;
    while i < sub.len()
        invariant
            i <= sub.len(),
            r.deep_view() =~= seq![step@] + sub.deep_view().subrange(0, i as int),
        decreases sub.len() - i,
    {
        let ghost prev = r.deep_view();
        r.push(sub[i].clone());
        proof {
            assert(r.deep_view() =~= prev.push(sub.deep_view()[i as int]));
            assert(r.deep_view() =~= seq![step@] + sub.deep_view().subrange(0, i as int + 1));
        }
        i = i + 1;
    }
    proof {
        assert(sub.deep_view().subrange(0, sub.len() as int) =~= sub.deep_view());
        assert(r.deep_view() =~= seq![step@] + sub.deep_view());
    }
    r
}

/// Depth-first search for admissible chains from `current` to `target`,
/// avoiding the formats already visited, with at most `hops_left` hops.
fn search(
    registry: &Registry,
    current: &str,
    target: &str,
    threshold: u32,
    visited: &Vec<String>,
    hops_left: usize,
) -> (r: Vec<Vec<ConversionStep>>)
    requires
        registry@.wf(),
        threshold <= SCALE,
        visited.deep_view().contains(current@),
        !visited.deep_view().contains(target@),
        current@ != target@,
    ensures
        chains_ok(
            registry@.caps,
            r.deep_view(),
            current@,
            target@,
            threshold,
            visited.deep_view(),
            hops_left as int,
        ),
        hops_left >= 1 ==> forall|x: Seq<char>|
            #![trigger direct_ok(registry@.caps, x, current@, target@, threshold)]
            direct_ok(registry@.caps, x, current@, target@, threshold) ==> chains_have_direct(
                r.deep_view(),
                x,
            ),
        chains_complete(
            registry@.caps,
            r.deep_view(),
            current@,
            target@,
            threshold,
            visited.deep_view(),
            hops_left as int,
        ),
    decreases hops_left,
{
    let ghost caps = registry@.caps;
    let ghost vis0 = visited.deep_view();
    let mut result: Vec<Vec<ConversionStep>> = Vec::new();
    proof {
        assert(result.deep_view() =~= Seq::<Seq<StepView>>::empty());
    }
    if hops_left == 0 {
        proof {
            assert forall|c: Seq<StepView>|
                #![trigger chain_ok(caps, c, current@, target@, threshold, vis0, hops_left as int)]
                chain_ok(caps, c, current@, target@, threshold, vis0, hops_left as int) implies
                chains_list(result.deep_view(), c) by {}
            assert(chains_complete(
                caps,
                result.deep_view(),
                current@,
                target@,
                threshold,
                vis0,
                hops_left as int,
            ));
        }
        return result;
    }
    let targets = registry.get_targets(current);
    let ghost tv = targets.deep_view();
    let mut ti: usize = 0;
    while ti < targets.len()
        invariant
            ti <= targets.len(),
            caps == registry@.caps,
            vis0 == visited.deep_view(),
            tv == targets.deep_view(),
            registry@.wf(),
            threshold <= SCALE,
            hops_left >= 1,
            vis0.contains(current@),
            !vis0.contains(target@),
            current@ != target@,
            forall|k: int| 0 <= k < tv.len() ==> crate::registry::reachable(
                caps,
                current@,
                (#[trigger] tv[k]).format,
            ),
            forall|to: Seq<char>| #![trigger crate::registry::reachable(caps, current@, to)]
                crate::registry::reachable(caps, current@, to) ==> crate::registry::target_listed(
                    tv,
                    to,
                ),
            chains_ok(caps, result.deep_view(), current@, target@, threshold, vis0, hops_left as int),
            forall|x: Seq<char>|
                #![trigger direct_ok(caps, x, current@, target@, threshold)]
                direct_ok(caps, x, current@, target@, threshold) && (exists|k: int|
                    0 <= k < ti && (#[trigger] tv[k]).format == target@) ==> chains_have_direct(
                    result.deep_view(),
                    x,
                ),
            forall|c: Seq<StepView>|
                #![trigger chain_ok(caps, c, current@, target@, threshold, vis0, hops_left as int)]
                chain_ok(caps, c, current@, target@, threshold, vis0, hops_left as int) && (exists|
                    k: int,
                |
                    0 <= k < ti && (#[trigger] tv[k]).format == c[0].to_format) ==> chains_list(
                    result.deep_view(),
                    c,
                ),
        decreases targets.len() - ti,
    {
        let to_format = &targets[ti].format;
        let is_target = str_eq(to_format.as_str(), target);
        let ids = registry.find_converters(current, to_format.as_str());
        let ghost idv = ids.deep_view();
        if is_target {
            // direct edges to the target: one chain per admissible converter
            let mut ii: usize = 0;
            while ii < ids.len()
                invariant
                    ii <= ids.len(),
                    ti < targets.len(),
                    caps == registry@.caps,
                    vis0 == visited.deep_view(),
                    tv == targets.deep_view(),
                    idv == ids.deep_view(),
                    registry@.wf(),
                    threshold <= SCALE,
                    hops_left >= 1,
                    vis0.contains(current@),
                    current@ != target@,
                    tv[ti as int].format == target@,
                    to_format@ == tv[ti as int].format,
                    forall|x: Seq<char>| #![trigger idv.contains(x)]
                        idv.contains(x) <==> triple(caps, x, current@, target@),
                    chains_ok(
                        caps,
                        result.deep_view(),
                        current@,
                        target@,
                        threshold,
                        vis0,
                        hops_left as int,
                    ),
                    forall|x: Seq<char>|
                        #![trigger direct_ok(caps, x, current@, target@, threshold)]
                        direct_ok(caps, x, current@, target@, threshold) && (exists|l: int|
                            0 <= l < ii && idv[l] == x) ==> chains_have_direct(
                            result.deep_view(),
                            x,
                        ),
                    forall|c: Seq<StepView>|
                        #![trigger chain_ok(caps, c, current@, target@, threshold, vis0, hops_left as int)]
                        chain_ok(caps, c, current@, target@, threshold, vis0, hops_left as int) && (
                        exists|k: int|
                            0 <= k < ti && (#[trigger] tv[k]).format == c[0].to_format)
                            ==> chains_list(result.deep_view(), c),
                    forall|c: Seq<StepView>|
                        #![trigger chain_ok(caps, c, current@, target@, threshold, vis0, hops_left as int)]
                        chain_ok(caps, c, current@, target@, threshold, vis0, hops_left as int)
                            && c.len() == 1 && (exists|l: int|
                            0 <= l < ii && idv[l] == c[0].converter_id) ==> chains_list(
                            result.deep_view(),
                            c,
                        ),
                decreases ids.len() - ii,
            {
                match registry.get(ids[ii].as_str()) {
                    Some(cap) => {
                        if cap.quality >= threshold {
                            let step = ConversionStep {
                                converter_id: ids[ii].clone(),
                                from_format: current.to_owned(),
                                to_format: to_format.clone(),
                                quality: cap.quality,
                            };
                            let ghost sv = step@;
                            let mut chain: Vec<ConversionStep> = Vec::new();
                            chain.push(step);
                            let ghost prev = result.deep_view();
                            let ghost cd = chain.deep_view();
                            proof {
                                assert(cd.len() == 1);
                                assert(cd[0] == sv);
                                assert(sv.converter_id == idv[ii as int]);
                                assert(sv.from_format == current@);
                                assert(sv.to_format == target@);
                                assert(sv.quality == cap.quality);
                                // the capability found by id backs this step
                                assert(idv.contains(idv[ii as int]));
                                assert(triple(caps, idv[ii as int], current@, target@));
                                let j = choose|j: int|
                                    0 <= j < caps.len() && (#[trigger] caps[j]).id
                                        == idv[ii as int] && caps[j].has_input_alias(current@)
                                        && caps[j].has_output_alias(target@);
                                lemma_cap_by_id(caps, cap@, j);
                                assert(step_valid(caps, cd[0], threshold));
                                assert(chain_ok(
                                    caps,
                                    cd,
                                    current@,
                                    target@,
                                    threshold,
                                    vis0,
                                    hops_left as int,
                                ));
                            }
                            result.push(chain);
                            proof {
                                assert(result.deep_view() =~= prev.push(cd));
                                assert forall|x: Seq<char>|
                                    #![trigger direct_ok(caps, x, current@, target@, threshold)]
                                    direct_ok(caps, x, current@, target@, threshold) && (exists|
                                        l: int,
                                    |
                                        0 <= l < ii + 1 && idv[l] == x) implies chains_have_direct(
                                    result.deep_view(),
                                    x,
                                ) by {
                                    let l = choose|l: int| 0 <= l < ii + 1 && idv[l] == x;
                                    if l < ii {
                                        assert(chains_have_direct(prev, x));
                                        let n = choose|n: int|
                                            0 <= n < prev.len() && (#[trigger] prev[n]).len() == 1
                                                && prev[n][0].converter_id == x;
                                        assert(result.deep_view()[n] == prev[n]);
                                    } else {
                                        assert(x == idv[ii as int]);
                                        assert(result.deep_view()[prev.len() as int] == cd);
                                    }
                                }
                                assert forall|c: Seq<StepView>|
                                    #![trigger chain_ok(caps, c, current@, target@, threshold, vis0, hops_left as int)]
                                    chain_ok(
                                        caps,
                                        c,
                                        current@,
                                        target@,
                                        threshold,
                                        vis0,
                                        hops_left as int,
                                    ) && (exists|k: int|
                                        0 <= k < ti && (#[trigger] tv[k]).format == c[0].to_format)
                                        implies chains_list(result.deep_view(), c) by {
                                    assert(chains_list(prev, c));
                                    let n = choose|n: int| 0 <= n < prev.len() && prev[n] == c;
                                    assert(result.deep_view()[n] == c);
                                }
                                assert forall|c: Seq<StepView>|
                                    #![trigger chain_ok(caps, c, current@, target@, threshold, vis0, hops_left as int)]
                                    chain_ok(
                                        caps,
                                        c,
                                        current@,
                                        target@,
                                        threshold,
                                        vis0,
                                        hops_left as int,
                                    ) && c.len() == 1 && (exists|l: int|
                                        0 <= l < ii + 1 && idv[l] == c[0].converter_id) implies
                                    chains_list(result.deep_view(), c) by {
                                    let l = choose|l: int|
                                        0 <= l < ii + 1 && idv[l] == c[0].converter_id;
                                    if l < ii {
                                        assert(chains_list(prev, c));
                                        let n = choose|n: int| 0 <= n < prev.len() && prev[n] == c;
                                        assert(result.deep_view()[n] == c);
                                    } else {
                                        // the pushed chain is exactly this one
                                        assert(step_valid(caps, c[0], threshold));
                                        let j2 = choose|j2: int|
                                            0 <= j2 < caps.len() && {
                                                let cp = #[trigger] caps[j2];
                                                &&& cp.id == c[0].converter_id
                                                &&& cp.has_input_alias(c[0].from_format)
                                                &&& cp.has_output_alias(c[0].to_format)
                                                &&& cp.quality == c[0].quality
                                            };
                                        lemma_cap_by_id(caps, cap@, j2);
                                        assert(c[0].quality == cap@.quality);
                                        assert(c[0].from_format == current@);
                                        assert(c[0].to_format == target@);
                                        assert(c[0] == sv);
                                        assert(c =~= cd);
                                        assert(result.deep_view()[prev.len() as int] == cd);
                                    }
                                }
                            }
                        } else {
                            proof {
                                // a converter below the threshold backs no direct chain
                                assert forall|x: Seq<char>|
                                    #![trigger direct_ok(caps, x, current@, target@, threshold)]
                                    direct_ok(caps, x, current@, target@, threshold) && (exists|
                                        l: int,
                                    |
                                        0 <= l < ii + 1 && idv[l] == x) implies chains_have_direct(
                                    result.deep_view(),
                                    x,
                                ) by {
                                    let l = choose|l: int| 0 <= l < ii + 1 && idv[l] == x;
                                    if l == ii && x == idv[ii as int] {
                                        let j = choose|j: int|
                                            0 <= j < caps.len() && {
                                                let c = #[trigger] caps[j];
                                                &&& c.id == x
                                                &&& c.has_input_alias(current@)
                                                &&& c.has_output_alias(target@)
                                                &&& c.quality >= threshold
                                            };
                                        lemma_cap_by_id(caps, cap@, j);
                                    }
                                }
                                assert forall|c: Seq<StepView>|
                                    #![trigger chain_ok(caps, c, current@, target@, threshold, vis0, hops_left as int)]
                                    chain_ok(
                                        caps,
                                        c,
                                        current@,
                                        target@,
                                        threshold,
                                        vis0,
                                        hops_left as int,
                                    ) && c.len() == 1 && (exists|l: int|
                                        0 <= l < ii + 1 && idv[l] == c[0].converter_id) implies
                                    chains_list(result.deep_view(), c) by {
                                    let l = choose|l: int|
                                        0 <= l < ii + 1 && idv[l] == c[0].converter_id;
                                    if l == ii {
                                        // no admissible step runs this converter
                                        assert(step_valid(caps, c[0], threshold));
                                        let j2 = choose|j2: int|
                                            0 <= j2 < caps.len() && {
                                                let cp = #[trigger] caps[j2];
                                                &&& cp.id == c[0].converter_id
                                                &&& cp.has_input_alias(c[0].from_format)
                                                &&& cp.has_output_alias(c[0].to_format)
                                                &&& cp.quality == c[0].quality
                                            };
                                        lemma_cap_by_id(caps, cap@, j2);
                                    }
                                }
                            }
                        }
                    },
                    None => {
                        proof {
                            // an unregistered id cannot satisfy direct_ok
                            assert forall|x: Seq<char>|
                                #![trigger direct_ok(caps, x, current@, target@, threshold)]
                                direct_ok(caps, x, current@, target@, threshold) && (exists|l: int|
                                    0 <= l < ii + 1 && idv[l] == x) implies chains_have_direct(
                                result.deep_view(),
                                x,
                            ) by {
                                let l = choose|l: int| 0 <= l < ii + 1 && idv[l] == x;
                                if l == ii && x == idv[ii as int] {
                                    let j = choose|j: int|
                                        0 <= j < caps.len() && {
                                            let c = #[trigger] caps[j];
                                            &&& c.id == x
                                            &&& c.has_input_alias(current@)
                                            &&& c.has_output_alias(target@)
                                            &&& c.quality >= threshold
                                        };
                                    assert(registry@.has_cap(idv[ii as int]));
                                }
                            }
                            assert forall|c: Seq<StepView>|
                                #![trigger chain_ok(caps, c, current@, target@, threshold, vis0, hops_left as int)]
                                chain_ok(caps, c, current@, target@, threshold, vis0, hops_left as int)
                                    && c.len() == 1 && (exists|l: int|
                                    0 <= l < ii + 1 && idv[l] == c[0].converter_id) implies
                                chains_list(result.deep_view(), c) by {
                                let l = choose|l: int|
                                    0 <= l < ii + 1 && idv[l] == c[0].converter_id;
                                if l == ii {
                                    // an unregistered id backs no admissible step
                                    assert(step_valid(caps, c[0], threshold));
                                    let j2 = choose|j2: int|
                                        0 <= j2 < caps.len() && {
                                            let cp = #[trigger] caps[j2];
                                            &&& cp.id == c[0].converter_id
                                            &&& cp.has_input_alias(c[0].from_format)
                                            &&& cp.has_output_alias(c[0].to_format)
                                            &&& cp.quality == c[0].quality
                                        };
                                    assert(registry@.has_cap(idv[ii as int]));
                                }
                            }
                        }
                    },
                }
                ii = ii + 1;
            }
            proof {
                assert forall|x: Seq<char>|
                    #![trigger direct_ok(caps, x, current@, target@, threshold)]
                    direct_ok(caps, x, current@, target@, threshold) && (exists|k: int|
                        0 <= k < ti + 1 && (#[trigger] tv[k]).format == target@) implies
                    chains_have_direct(result.deep_view(), x) by {
                    assert(triple(caps, x, current@, target@));
                    assert(idv.contains(x));
                    let l = choose|l: int| 0 <= l < idv.len() && idv[l] == x;
                    assert(exists|l2: int| 0 <= l2 < ids.len() && idv[l2] == x);
                }
                // every admissible chain arriving at this target format is a
                // single hop and is now listed
                assert forall|c: Seq<StepView>|
                    #![trigger chain_ok(caps, c, current@, target@, threshold, vis0, hops_left as int)]
                    chain_ok(caps, c, current@, target@, threshold, vis0, hops_left as int)
                        && c[0].to_format == tv[ti as int].format implies chains_list(
                    result.deep_view(),
                    c,
                ) by {
                    if c.len() >= 2 {
                        assert(c[1].from_format == c[0].to_format);
                        assert(c[1].from_format != target@);
                        assert(false);
                    }
                    assert(c.len() == 1);
                    assert(step_valid(caps, c[0], threshold));
                    let j2 = choose|j2: int|
                        0 <= j2 < caps.len() && {
                            let cp = #[trigger] caps[j2];
                            &&& cp.id == c[0].converter_id
                            &&& cp.has_input_alias(c[0].from_format)
                            &&& cp.has_output_alias(c[0].to_format)
                            &&& cp.quality == c[0].quality
                        };
                    assert(triple(caps, c[0].converter_id, current@, target@));
                    assert(idv.contains(c[0].converter_id));
                    let l = choose|l: int| 0 <= l < idv.len() && idv[l] == c[0].converter_id;
                    assert(exists|l2: int| 0 <= l2 < ids.len() && idv[l2] == c[0].converter_id);
                }
                assert forall|c: Seq<StepView>|
                    #![trigger chain_ok(caps, c, current@, target@, threshold, vis0, hops_left as int)]
                    chain_ok(caps, c, current@, target@, threshold, vis0, hops_left as int) && (
                    exists|k: int|
                        0 <= k < ti + 1 && (#[trigger] tv[k]).format == c[0].to_format) implies
                    chains_list(result.deep_view(), c) by {
                    let k = choose|k: int|
                        0 <= k < ti + 1 && (#[trigger] tv[k]).format == c[0].to_format;
                    if k == ti {
                        assert(c[0].to_format == tv[ti as int].format);
                    }
                }
            }
        } else {
            if hops_left > 1 && !contains_str(visited, to_format.as_str()) {
                let mut pushed = clone_strings(visited);
                pushed.push(to_format.clone());
                proof {
                    assert(pushed.deep_view() =~= vis0.push(tv[ti as int].format));
                    crate::text::lemma_push_contains(vis0, tv[ti as int].format, tv[ti as int].format);
                    crate::text::lemma_push_contains(vis0, tv[ti as int].format, target@);
                }
                let subs = search(
                    registry,
                    to_format.as_str(),
                    target,
                    threshold,
                    &pushed,
                    hops_left - 1,
                );
                let ghost subv = subs.deep_view();
                let mut si: usize = 0;
                while si < subs.len()
                    invariant
                        si <= subs.len(),
                        ti < targets.len(),
                        caps == registry@.caps,
                        vis0 == visited.deep_view(),
                        tv == targets.deep_view(),
                        idv == ids.deep_view(),
                        subv == subs.deep_view(),
                        registry@.wf(),
                        threshold <= SCALE,
                        hops_left >= 2,
                        vis0.contains(current@),
                        !vis0.contains(target@),
                        !vis0.contains(tv[ti as int].format),
                        current@ != target@,
                        tv[ti as int].format != target@,
                        tv[ti as int].format != current@,
                        to_format@ == tv[ti as int].format,
                        forall|x: Seq<char>| #![trigger idv.contains(x)]
                            idv.contains(x) <==> triple(caps, x, current@, tv[ti as int].format),
                        chains_ok(
                            caps,
                            subv,
                            tv[ti as int].format,
                            target@,
                            threshold,
                            vis0.push(tv[ti as int].format),
                            hops_left as int - 1,
                        ),
                        chains_ok(
                            caps,
                            result.deep_view(),
                            current@,
                            target@,
                            threshold,
                            vis0,
                            hops_left as int,
                        ),
                        forall|x: Seq<char>|
                            #![trigger direct_ok(caps, x, current@, target@, threshold)]
                            direct_ok(caps, x, current@, target@, threshold) && (exists|k: int|
                                0 <= k < ti && (#[trigger] tv[k]).format == target@) ==>
                                chains_have_direct(result.deep_view(), x),
                        forall|c: Seq<StepView>|
                            #![trigger chain_ok(caps, c, current@, target@, threshold, vis0, hops_left as int)]
                            chain_ok(caps, c, current@, target@, threshold, vis0, hops_left as int)
                                && (exists|k: int|
                                0 <= k < ti && (#[trigger] tv[k]).format == c[0].to_format)
                                ==> chains_list(result.deep_view(), c),
                        forall|c: Seq<StepView>|
                            #![trigger chain_ok(caps, c, current@, target@, threshold, vis0, hops_left as int)]
                            chain_ok(caps, c, current@, target@, threshold, vis0, hops_left as int)
                                && c.len() >= 2 && c[0].to_format == tv[ti as int].format && (exists|
                                s: int,
                            |
                                0 <= s < si && subv[s] == c.skip(1)) ==> chains_list(
                                result.deep_view(),
                                c,
                            ),
                    decreases subs.len() - si,
                {
                    let mut ii: usize = 0;
                    while ii < ids.len()
                        invariant
                            ii <= ids.len(),
                            si < subs.len(),
                            ti < targets.len(),
                            caps == registry@.caps,
                            vis0 == visited.deep_view(),
                            tv == targets.deep_view(),
                            idv == ids.deep_view(),
                            subv == subs.deep_view(),
                            registry@.wf(),
                            threshold <= SCALE,
                            hops_left >= 2,
                            vis0.contains(current@),
                            !vis0.contains(target@),
                            !vis0.contains(tv[ti as int].format),
                            current@ != target@,
                            tv[ti as int].format != target@,
                            tv[ti as int].format != current@,
                            to_format@ == tv[ti as int].format,
                            forall|x: Seq<char>| #![trigger idv.contains(x)]
                                idv.contains(x) <==> triple(
                                    caps,
                                    x,
                                    current@,
                                    tv[ti as int].format,
                                ),
                            chains_ok(
                                caps,
                                subv,
                                tv[ti as int].format,
                                target@,
                                threshold,
                                vis0.push(tv[ti as int].format),
                                hops_left as int - 1,
                            ),
                            chains_ok(
                                caps,
                                result.deep_view(),
                                current@,
                                target@,
                                threshold,
                                vis0,
                                hops_left as int,
                            ),
                            forall|x: Seq<char>|
                                #![trigger direct_ok(caps, x, current@, target@, threshold)]
                                direct_ok(caps, x, current@, target@, threshold) && (exists|k: int|
                                    0 <= k < ti && (#[trigger] tv[k]).format == target@) ==>
                                    chains_have_direct(result.deep_view(), x),
                            forall|c: Seq<StepView>|
                                #![trigger chain_ok(caps, c, current@, target@, threshold, vis0, hops_left as int)]
                                chain_ok(caps, c, current@, target@, threshold, vis0, hops_left as int)
                                    && (exists|k: int|
                                    0 <= k < ti && (#[trigger] tv[k]).format == c[0].to_format)
                                    ==> chains_list(result.deep_view(), c),
                            forall|c: Seq<StepView>|
                                #![trigger chain_ok(caps, c, current@, target@, threshold, vis0, hops_left as int)]
                                chain_ok(
                                    caps,
                                    c,
                                    current@,
                                    target@,
                                    threshold,
                                    vis0,
                                    hops_left as int,
                                ) && c.len() >= 2 && c[0].to_format == tv[ti as int].format && ((
                                exists|s: int|
                                    0 <= s < si && subv[s] == c.skip(1)) || (subv[si as int]
                                    == c.skip(1) && (exists|l: int|
                                    0 <= l < ii && idv[l] == c[0].converter_id))) ==> chains_list(
                                    result.deep_view(),
                                    c,
                                ),
                        decreases ids.len() - ii,
                    {
                        match registry.get(ids[ii].as_str()) {
                            Some(cap) => {
                                if cap.quality >= threshold {
                                    let step = ConversionStep {
                                        converter_id: ids[ii].clone(),
                                        from_format: current.to_owned(),
                                        to_format: to_format.clone(),
                                        quality: cap.quality,
                                    };
                                    let chain = prepend_step(&step, &subs[si]);
                                    let ghost prev = result.deep_view();
                                    let ghost cd = chain.deep_view();
                                    let ghost sd = subv[si as int];
                                    proof {
                                        assert(cd == seq![step@] + sd);
                                        assert(cd.len() == 1 + sd.len());
                                        assert(cd[0] == step@);
                                        assert forall|i: int| 1 <= i < cd.len() implies cd[i]
                                            == sd[i - 1] by {}
                                        assert(chain_ok(
                                            caps,
                                            sd,
                                            tv[ti as int].format,
                                            target@,
                                            threshold,
                                            vis0.push(tv[ti as int].format),
                                            hops_left as int - 1,
                                        ));
                                        // the capability found by id backs this step
                                        assert(idv.contains(idv[ii as int]));
                                        assert(triple(caps, idv[ii as int], current@, tv[ti as int].format));
                                        let j = choose|j: int|
                                            0 <= j < caps.len() && (#[trigger] caps[j]).id == idv[ii as int]
                                                && caps[j].has_input_alias(current@)
                                                && caps[j].has_output_alias(tv[ti as int].format);
                                        lemma_cap_by_id(caps, cap@, j);
                                        assert(step_valid(caps, cd[0], threshold));
                                        // departure formats: current, then the sub-chain's
                                        assert forall|i: int| 1 <= i < cd.len() implies !vis0.contains(
                                            (#[trigger] cd[i]).from_format,
                                        ) by {
                                            if i == 1 {
                                                assert(cd[1] == sd[0]);
                                                assert(sd[0].from_format == tv[ti as int].format);
                                            } else {
                                                assert(!vis0.push(tv[ti as int].format).contains(
                                                    sd[i - 1].from_format,
                                                ));
                                                crate::text::lemma_push_contains(
                                                    vis0,
                                                    tv[ti as int].format,
                                                    sd[i - 1].from_format,
                                                );
                                            }
                                        }
                                        assert forall|i: int, j2: int| 0 <= i < j2 < cd.len() implies (
                                        #[trigger] cd[i]).from_format != (
                                        #[trigger] cd[j2]).from_format by {
                                            if i == 0 {
                                                if j2 == 1 {
                                                    assert(cd[j2].from_format == tv[ti as int].format);
                                                } else {
                                                    assert(!vis0.push(tv[ti as int].format).contains(
                                                        sd[j2 - 1].from_format,
                                                    ));
                                                    crate::text::lemma_push_contains(
                                                        vis0,
                                                        tv[ti as int].format,
                                                        sd[j2 - 1].from_format,
                                                    );
                                                }
                                            } else {
                                                if i == 1 {
                                                    assert(sd[0].from_format == tv[ti as int].format);
                                                    assert(!vis0.push(tv[ti as int].format).contains(
                                                        sd[j2 - 1].from_format,
                                                    ));
                                                    crate::text::lemma_push_contains(
                                                        vis0,
                                                        tv[ti as int].format,
                                                        sd[j2 - 1].from_format,
                                                    );
                                                }
                                            }
                                        }
                                        assert(chain_ok(
                                            caps,
                                            cd,
                                            current@,
                                            target@,
                                            threshold,
                                            vis0,
                                            hops_left as int,
                                        ));
                                    }
                                    result.push(chain);
                                    proof {
                                        assert(result.deep_view() =~= prev.push(cd));
                                        assert forall|x: Seq<char>|
                                            #![trigger direct_ok(caps, x, current@, target@, threshold)]
                                            direct_ok(caps, x, current@, target@, threshold) && (
                                            exists|k: int|
                                                0 <= k < ti && (#[trigger] tv[k]).format == target@)
                                            implies chains_have_direct(result.deep_view(), x) by {
                                            let n = choose|n: int|
                                                0 <= n < prev.len() && (#[trigger] prev[n]).len() == 1
                                                    && prev[n][0].converter_id == x;
                                            assert(result.deep_view()[n] == prev[n]);
                                        }
                                        assert forall|c: Seq<StepView>|
                                            #![trigger chain_ok(caps, c, current@, target@, threshold, vis0, hops_left as int)]
                                            chain_ok(
                                                caps,
                                                c,
                                                current@,
                                                target@,
                                                threshold,
                                                vis0,
                                                hops_left as int,
                                            ) && (exists|k: int|
                                                0 <= k < ti && (#[trigger] tv[k]).format
                                                    == c[0].to_format) implies chains_list(
                                            result.deep_view(),
                                            c,
                                        ) by {
                                            assert(chains_list(prev, c));
                                            let n = choose|n: int|
                                                0 <= n < prev.len() && prev[n] == c;
                                            assert(result.deep_view()[n] == c);
                                        }
                                        assert forall|c: Seq<StepView>|
                                            #![trigger chain_ok(caps, c, current@, target@, threshold, vis0, hops_left as int)]
                                            chain_ok(
                                                caps,
                                                c,
                                                current@,
                                                target@,
                                                threshold,
                                                vis0,
                                                hops_left as int,
                                            ) && c.len() >= 2 && c[0].to_format
                                                == tv[ti as int].format && ((exists|s: int|
                                                0 <= s < si && subv[s] == c.skip(1)) || (
                                            subv[si as int] == c.skip(1) && (exists|l: int|
                                                0 <= l < ii + 1 && idv[l] == c[0].converter_id)))
                                            implies chains_list(result.deep_view(), c) by {
                                            if exists|s: int| 0 <= s < si && subv[s] == c.skip(1) {
                                                assert(chains_list(prev, c));
                                                let n = choose|n: int|
                                                    0 <= n < prev.len() && prev[n] == c;
                                                assert(result.deep_view()[n] == c);
                                            } else {
                                                let l = choose|l: int|
                                                    0 <= l < ii + 1 && idv[l] == c[0].converter_id;
                                                if l < ii {
                                                    assert(chains_list(prev, c));
                                                    let n = choose|n: int|
                                                        0 <= n < prev.len() && prev[n] == c;
                                                    assert(result.deep_view()[n] == c);
                                                } else {
                                                    // the pushed chain is exactly this one
                                                    assert(step_valid(caps, c[0], threshold));
                                                    let j2 = choose|j2: int|
                                                        0 <= j2 < caps.len() && {
                                                            let cp = #[trigger] caps[j2];
                                                            &&& cp.id == c[0].converter_id
                                                            &&& cp.has_input_alias(c[0].from_format)
                                                            &&& cp.has_output_alias(c[0].to_format)
                                                            &&& cp.quality == c[0].quality
                                                        };
                                                    lemma_cap_by_id(caps, cap@, j2);
                                                    assert(c[0].from_format == current@);
                                                    assert(c[0] == step@);
                                                    assert forall|i2: int|
                                                        0 <= i2 < c.len() implies c[i2] == cd[i2] by {
                                                        if i2 >= 1 {
                                                            assert(c.skip(1)[i2 - 1] == c[i2]);
                                                            assert(cd[i2] == sd[i2 - 1]);
                                                        }
                                                    }
                                                    assert(c =~= cd);
                                                    assert(result.deep_view()[prev.len() as int]
                                                        == cd);
                                                }
                                            }
                                        }
                                    }
                                } else {
                                    proof {
                                        // below the threshold: no admissible chain
                                        // runs this converter
                                        assert forall|c: Seq<StepView>|
                                            #![trigger chain_ok(caps, c, current@, target@, threshold, vis0, hops_left as int)]
                                            chain_ok(
                                                caps,
                                                c,
                                                current@,
                                                target@,
                                                threshold,
                                                vis0,
                                                hops_left as int,
                                            ) && c.len() >= 2 && c[0].to_format
                                                == tv[ti as int].format && (subv[si as int]
                                                == c.skip(1) && (exists|l: int|
                                                0 <= l < ii + 1 && idv[l] == c[0].converter_id))
                                            implies chains_list(result.deep_view(), c) by {
                                            let l = choose|l: int|
                                                0 <= l < ii + 1 && idv[l] == c[0].converter_id;
                                            if l == ii {
                                                assert(step_valid(caps, c[0], threshold));
                                                let j2 = choose|j2: int|
                                                    0 <= j2 < caps.len() && {
                                                        let cp = #[trigger] caps[j2];
                                                        &&& cp.id == c[0].converter_id
                                                        &&& cp.has_input_alias(c[0].from_format)
                                                        &&& cp.has_output_alias(c[0].to_format)
                                                        &&& cp.quality == c[0].quality
                                                    };
                                                lemma_cap_by_id(caps, cap@, j2);
                                            }
                                        }
                                    }
                                }
                            },
                            None => {
                                proof {
                                    // an unregistered id backs no admissible chain
                                    assert forall|c: Seq<StepView>|
                                        #![trigger chain_ok(caps, c, current@, target@, threshold, vis0, hops_left as int)]
                                        chain_ok(
                                            caps,
                                            c,
                                            current@,
                                            target@,
                                            threshold,
                                            vis0,
                                            hops_left as int,
                                        ) && c.len() >= 2 && c[0].to_format == tv[ti as int].format
                                            && (subv[si as int] == c.skip(1) && (exists|l: int|
                                            0 <= l < ii + 1 && idv[l] == c[0].converter_id))
                                        implies chains_list(result.deep_view(), c) by {
                                        let l = choose|l: int|
                                            0 <= l < ii + 1 && idv[l] == c[0].converter_id;
                                        if l == ii {
                                            assert(step_valid(caps, c[0], threshold));
                                            let j2 = choose|j2: int|
                                                0 <= j2 < caps.len() && {
                                                    let cp = #[trigger] caps[j2];
                                                    &&& cp.id == c[0].converter_id
                                                    &&& cp.has_input_alias(c[0].from_format)
                                                    &&& cp.has_output_alias(c[0].to_format)
                                                    &&& cp.quality == c[0].quality
                                                };
                                            assert(registry@.has_cap(idv[ii as int]));
                                        }
                                    }
                                }
                            },
                        }
                        ii = ii + 1;
                    }
                    proof {
                        // every converter serving this edge was tried
                        assert forall|c: Seq<StepView>|
                            #![trigger chain_ok(caps, c, current@, target@, threshold, vis0, hops_left as int)]
                            chain_ok(caps, c, current@, target@, threshold, vis0, hops_left as int)
                                && c.len() >= 2 && c[0].to_format == tv[ti as int].format && (exists|
                                s: int,
                            |
                                0 <= s < si + 1 && subv[s] == c.skip(1)) implies chains_list(
                            result.deep_view(),
                            c,
                        ) by {
                            let sx = choose|sx: int| 0 <= sx < si + 1 && subv[sx] == c.skip(1);
                            if sx == si {
                                assert(step_valid(caps, c[0], threshold));
                                let j2 = choose|j2: int|
                                    0 <= j2 < caps.len() && {
                                        let cp = #[trigger] caps[j2];
                                        &&& cp.id == c[0].converter_id
                                        &&& cp.has_input_alias(c[0].from_format)
                                        &&& cp.has_output_alias(c[0].to_format)
                                        &&& cp.quality == c[0].quality
                                    };
                                assert(c[0].from_format == current@);
                                assert(triple(caps, c[0].converter_id, current@, c[0].to_format));
                                assert(idv.contains(c[0].converter_id));
                                let l = choose|l: int|
                                    0 <= l < idv.len() && idv[l] == c[0].converter_id;
                                assert(exists|l2: int|
                                    0 <= l2 < ids.len() && idv[l2] == c[0].converter_id);
                            }
                        }
                    }
                    si = si + 1;
                }
                proof {
                    // every admissible chain through this format continues
                    // with a chain the recursion reported
                    assert forall|c: Seq<StepView>|
                        #![trigger chain_ok(caps, c, current@, target@, threshold, vis0, hops_left as int)]
                        chain_ok(caps, c, current@, target@, threshold, vis0, hops_left as int)
                            && c[0].to_format == tv[ti as int].format implies chains_list(
                        result.deep_view(),
                        c,
                    ) by {
                        if c.len() == 1 {
                            assert(c[0].to_format == target@);
                            assert(false);
                        }
                        let cprime = c.skip(1);
                        assert(cprime.len() == c.len() - 1);
                        assert forall|i2: int| 0 <= i2 < cprime.len() implies #[trigger] cprime[i2]
                            == c[i2 + 1] by {}
                        assert(cprime[0].from_format == c[1].from_format);
                        assert(c[0].to_format == c[1].from_format);
                        assert(cprime[cprime.len() - 1].to_format == target@);
                        assert forall|i2: int| 0 <= i2 < cprime.len() - 1 implies (
                        #[trigger] cprime[i2]).to_format == cprime[i2 + 1].from_format by {
                            assert(c[i2 + 1].to_format == c[i2 + 2].from_format);
                        }
                        assert forall|i2: int| 0 <= i2 < cprime.len() implies step_valid(
                            caps,
                            #[trigger] cprime[i2],
                            threshold,
                        ) by {
                            assert(step_valid(caps, c[i2 + 1], threshold));
                        }
                        assert forall|i2: int| 1 <= i2 < cprime.len() implies !vis0.push(
                            tv[ti as int].format,
                        ).contains((#[trigger] cprime[i2]).from_format) by {
                            assert(!vis0.contains(c[i2 + 1].from_format));
                            assert(c[1].from_format != c[i2 + 1].from_format);
                            crate::text::lemma_push_contains(
                                vis0,
                                tv[ti as int].format,
                                c[i2 + 1].from_format,
                            );
                        }
                        assert forall|i2: int, j3: int| 0 <= i2 < j3 < cprime.len() implies (
                        #[trigger] cprime[i2]).from_format != (
                        #[trigger] cprime[j3]).from_format by {
                            assert(c[i2 + 1].from_format != c[j3 + 1].from_format);
                        }
                        assert forall|i2: int| 0 <= i2 < cprime.len() implies (
                        #[trigger] cprime[i2]).from_format != target@ by {
                            assert(c[i2 + 1].from_format != target@);
                        }
                        assert(chain_ok(
                            caps,
                            cprime,
                            to_format@,
                            target@,
                            threshold,
                            pushed.deep_view(),
                            (hops_left - 1) as int,
                        ));
                        assert(chains_list(subv, cprime));
                        let sx = choose|sx: int| 0 <= sx < subv.len() && subv[sx] == cprime;
                        assert(exists|s2: int| 0 <= s2 < subs.len() && subv[s2] == c.skip(1));
                    }
                }
            } else {
                proof {
                    // no admissible chain arrives here: a single hop would
                    // end at the target, and a longer chain needs an
                    // unvisited intermediate format and hops to spare
                    assert forall|c: Seq<StepView>|
                        #![trigger chain_ok(caps, c, current@, target@, threshold, vis0, hops_left as int)]
                        chain_ok(caps, c, current@, target@, threshold, vis0, hops_left as int)
                            && c[0].to_format == tv[ti as int].format implies chains_list(
                        result.deep_view(),
                        c,
                    ) by {
                        if c.len() == 1 {
                            assert(c[0].to_format == target@);
                            assert(false);
                        }
                        assert(c[1].from_format == c[0].to_format);
                        if vis0.contains(tv[ti as int].format) {
                            assert(!vis0.contains(c[1].from_format));
                            assert(false);
                        }
                        assert(hops_left <= 1);
                        assert(c.len() <= hops_left);
                        assert(false);
                    }
                }
            }
            proof {
                assert forall|x: Seq<char>|
                    #![trigger direct_ok(caps, x, current@, target@, threshold)]
                    direct_ok(caps, x, current@, target@, threshold) && (exists|k: int|
                        0 <= k < ti + 1 && (#[trigger] tv[k]).format == target@) implies
                    chains_have_direct(result.deep_view(), x) by {
                    let k = choose|k: int| 0 <= k < ti + 1 && (#[trigger] tv[k]).format == target@;
                    assert(k < ti);
                }
                assert forall|c: Seq<StepView>|
                    #![trigger chain_ok(caps, c, current@, target@, threshold, vis0, hops_left as int)]
                    chain_ok(caps, c, current@, target@, threshold, vis0, hops_left as int) && (
                    exists|k: int|
                        0 <= k < ti + 1 && (#[trigger] tv[k]).format == c[0].to_format) implies
                    chains_list(result.deep_view(), c) by {
                    let k = choose|k: int|
                        0 <= k < ti + 1 && (#[trigger] tv[k]).format == c[0].to_format;
                    if k == ti {
                        assert(c[0].to_format == tv[ti as int].format);
                    }
                }
            }
        }
        ti = ti + 1;
    }
    proof {
        assert forall|x: Seq<char>|
            #![trigger direct_ok(caps, x, current@, target@, threshold)]
            direct_ok(caps, x, current@, target@, threshold) implies chains_have_direct(
            result.deep_view(),
            x,
        ) by {
            let j = choose|j: int|
                0 <= j < caps.len() && {
                    let c = #[trigger] caps[j];
                    &&& c.id == x
                    &&& c.has_input_alias(current@)
                    &&& c.has_output_alias(target@)
                    &&& c.quality >= threshold
                };
            assert(triple(caps, x, current@, target@));
            assert(crate::registry::reachable(caps, current@, target@));
            assert(crate::registry::target_listed(tv, target@));
            let k = choose|k: int| 0 <= k < tv.len() && (#[trigger] tv[k]).format == target@;
            assert(exists|k2: int| 0 <= k2 < targets.len() && (#[trigger] tv[k2]).format == target@);
        }
        // every admissible chain leaves by a listed direct edge, so all
        // were found
        assert forall|c: Seq<StepView>|
            #![trigger chain_ok(caps, c, current@, target@, threshold, vis0, hops_left as int)]
            chain_ok(caps, c, current@, target@, threshold, vis0, hops_left as int) implies
            chains_list(result.deep_view(), c) by {
            assert(step_valid(caps, c[0], threshold));
            let j = choose|j: int|
                0 <= j < caps.len() && {
                    let cp = #[trigger] caps[j];
                    &&& cp.id == c[0].converter_id
                    &&& cp.has_input_alias(c[0].from_format)
                    &&& cp.has_output_alias(c[0].to_format)
                    &&& cp.quality == c[0].quality
                };
            assert(c[0].from_format == current@);
            assert(triple(caps, c[0].converter_id, current@, c[0].to_format));
            assert(crate::registry::reachable(caps, current@, c[0].to_format));
            assert(crate::registry::target_listed(tv, c[0].to_format));
            let k = choose|k: int| 0 <= k < tv.len() && (#[trigger] tv[k]).format == c[0].to_format;
            assert(exists|k2: int|
                0 <= k2 < targets.len() && (#[trigger] tv[k2]).format == c[0].to_format);
        }
        assert(chains_complete(
            caps,
            result.deep_view(),
            current@,
            target@,
            threshold,
            vis0,
            hops_left as int,
        ));
    }
    result
}

/// Rank comparison of two candidate paths.
fn ranks_geq(a: &ConversionPath, b: &ConversionPath) -> (r: bool)
    ensures
        r == rank_geq(a@, b@),
{
    if a.total_quality > b.total_quality {
        true
    } else if a.total_quality == b.total_quality {
        if a.estimated_time_ms < b.estimated_time_ms {
            true
        } else if a.estimated_time_ms == b.estimated_time_ms {
            a.steps.len() <= b.steps.len()
        } else {
            false
        }
    } else {
        false
    }
}

/// First position whose path does not rank at least as well as `p`.
fn find_slot(out: &Vec<ConversionPath>, p: &ConversionPath) -> (k: usize)
    ensures
        k <= out.len(),
        forall|j: int| 0 <= j < k ==> rank_geq(#[trigger] out.deep_view()[j], p@),
        k < out.len() ==> !rank_geq(out.deep_view()[k as int], p@),
{
    let mut k: usize = 0;
    while k < out.len()
        invariant
            k <= out.len(),
            forall|j: int| 0 <= j < k ==> rank_geq(#[trigger] out.deep_view()[j], p@),
        decreases out.len() - k,
    {
        if !ranks_geq(&out[k], p) {
            return k;
        }
        k = k + 1;
    }
    k
}

/// `s1` is `s0` with `p` inserted after every element ranking at least as
/// well and before the first element ranking strictly worse — so paths of
/// equal rank keep their discovery order.
pub open spec fn inserted_one(s0: Seq<PathView>, s1: Seq<PathView>, p: PathView) -> bool {
    exists|k: int|
        0 <= k <= s0.len() && s1 == s0.insert(k, p) && (forall|j: int|
            0 <= j < k ==> rank_geq(#[trigger] s0[j], p)) && (k < s0.len() ==> !rank_geq(
            s0[k],
            p,
        ))
}

/// Inserts a path into a best-first sorted list, after every path that ranks
/// at least as well, so equal ranks keep discovery order.
fn insert_ranked(out: &mut Vec<ConversionPath>, p: ConversionPath)
    requires
        ranked(old(out).deep_view()),
    ensures
        ranked(final(out).deep_view()),
        inserted_one(old(out).deep_view(), final(out).deep_view(), p@),
{
    let ghost s0 = old(out).deep_view();
    let ghost pv = p@;
    let k = find_slot(out, &p);
    let ghost kk = k as int;
    out.insert(k, p);
    proof {
        assert(out.deep_view() =~= s0.insert(kk, pv));
        assert(0 <= kk <= s0.len() && out.deep_view() == s0.insert(kk, pv) && (forall|j: int|
            0 <= j < kk ==> rank_geq(#[trigger] s0[j], pv)) && (kk < s0.len() ==> !rank_geq(
            s0[kk],
            pv,
        )));
        assert(inserted_one(s0, out.deep_view(), pv));
        let s1 = out.deep_view();
        assert forall|a: int, b: int| 0 <= a < b < s1.len() implies rank_geq(
            #[trigger] s1[a],
            #[trigger] s1[b],
        ) by {
            if a < kk && b < kk {
                assert(s1[a] == s0[a] && s1[b] == s0[b]);
            } else if a < kk && b == kk {
                assert(s1[a] == s0[a] && s1[b] == pv);
            } else if a < kk && b > kk {
                assert(s1[a] == s0[a] && s1[b] == s0[b - 1]);
            } else if a == kk && b > kk {
                // p ranks at least as well as the first not-better element,
                // and ranking is transitive
                assert(s1[a] == pv && s1[b] == s0[b - 1]);
                assert(kk < s0.len() ==> !rank_geq(s0[kk], pv));
                assert(rank_geq(s0[kk], s0[b - 1]));
            } else if a > kk && b > kk {
                assert(s1[a] == s0[a - 1] && s1[b] == s0[b - 1]);
            }
        }
    }
}

/// Compares two step chains by their models.
fn steps_equal(a: &Vec<ConversionStep>, b: &Vec<ConversionStep>) -> (r: bool)
    ensures
        r == (a.deep_view() == b.deep_view()),
{
    if a.len() != b.len() {
        proof {
            assert(a.deep_view().len() != b.deep_view().len());
        }
        return false;
    }
    let mut i: usize = 0;
    while i < a.len()
        invariant
            i <= a.len(),
            a.len() == b.len(),
            forall|m: int| 0 <= m < i ==> a.deep_view()[m] == b.deep_view()[m],
        decreases a.len() - i,
    {
        let sa = &a[i];
        let sb = &b[i];
        let same = str_eq(sa.converter_id.as_str(), sb.converter_id.as_str()) && str_eq(
            sa.from_format.as_str(),
            sb.from_format.as_str(),
        ) && str_eq(sa.to_format.as_str(), sb.to_format.as_str()) && sa.quality == sb.quality;
        if !same {
            proof {
                assert(a.deep_view()[i as int] != b.deep_view()[i as int]);
            }
            return false;
        }
        proof {
            assert(a.deep_view()[i as int] == b.deep_view()[i as int]);
        }
        i = i + 1;
    }
    proof {
        assert(a.deep_view() =~= b.deep_view());
    }
    true
}

/// True when some listed path runs exactly this chain of steps.
fn contains_chain(paths: &Vec<ConversionPath>, chain: &Vec<ConversionStep>) -> (r: bool)
    ensures
        r == (exists|k: int|
            0 <= k < paths.deep_view().len() && (#[trigger] paths.deep_view()[k]).steps
                == chain.deep_view()),
{
    let mut k: usize = 0;
    while k < paths.len()
        invariant
            k <= paths.len(),
            forall|m: int| 0 <= m < k ==> (#[trigger] paths.deep_view()[m]).steps
                != chain.deep_view(),
        decreases paths.len() - k,
    {
        if steps_equal(&paths[k].steps, chain) {
            proof {
                assert((paths.deep_view()[k as int]).steps == chain.deep_view());
            }
            return true;
        }
        k = k + 1;
    }
    false
}

/// Assembles a [`ConversionPath`] from a chain of steps, computing the
/// compounded quality, the time estimate, and the merged risks of the
/// steps' capabilities.
fn build_path(registry: &Registry, chain: &Vec<ConversionStep>, base_step_ms: u64) -> (r:
    ConversionPath)
    requires
        registry@.wf(),
        1 <= base_step_ms <= 1000000,
        chain.deep_view().len() <= 8,
        forall|i: int|
            0 <= i < chain.deep_view().len() ==> (#[trigger] chain.deep_view()[i]).quality <= SCALE,
    ensures
        r@.steps == chain.deep_view(),
        r@.total_quality == chain_quality(chain.deep_view()),
        r@.estimated_time_ms == base_step_ms * chain.deep_view().len(),
{
    let ghost cd = chain.deep_view();
    let steps = crate::conversion::clone_steps(chain);
    let mut q: u32 = SCALE;
    let mut i: usize = 0;
    proof {
        assert(cd.subrange(0, 0) =~= Seq::<StepView>::empty());
    }
    while i < chain.len()
        invariant
            i <= chain.len(),
            cd == chain.deep_view(),
            q == chain_quality(cd.subrange(0, i as int)),
            valid_score(q),
            forall|k: int| 0 <= k < cd.len() ==> (#[trigger] cd[k]).quality <= SCALE,
        decreases chain.len() - i,
    {
        proof {
            assert(chain[i as int]@ == cd[i as int]);
            assert((cd[i as int]).quality <= SCALE);
        }
        q = mul_scores(q, chain[i].quality);
        proof {
            let pre = cd.subrange(0, i as int);
            let post = cd.subrange(0, i as int + 1);
            assert(post.drop_last() =~= pre);
            assert(post[post.len() - 1] == cd[i as int]);
        }
        i = i + 1;
    }
    proof {
        assert(cd.subrange(0, chain.len() as int) =~= cd);
    }
    let mut risks: Vec<String> = Vec::new();
    let mut n: usize = 0;
    while n < chain.len()
        invariant
            n <= chain.len(),
            registry@.wf(),
        decreases chain.len() - n,
    {
        match registry.get(chain[n].converter_id.as_str()) {
            Some(cap) => {
                let mut m: usize = 0;
                while m < cap.risks.len()
                    invariant
                        m <= cap.risks.len(),
                    decreases cap.risks.len() - m,
                {
                    risks.push(cap.risks[m].clone());
                    m = m + 1;
                }
            },
            None => {},
        }
        n = n + 1;
    }
    let len64: u64 = chain.len() as u64;
    proof {
        assert(base_step_ms * len64 <= 1000000 * 8) by (nonlinear_arith)
            requires base_step_ms <= 1000000, len64 <= 8, 0 <= base_step_ms, 0 <= len64;
    }
    let time: u64 = base_step_ms * len64;
    ConversionPath { steps, total_quality: q, estimated_time_ms: time, risks }
}


/// Whether `m` is an alias of one of the capability's output formats.
fn cap_has_output_alias(cap: &CapabilityRecord, m: &str) -> (r: bool)
    ensures
        r == cap@.has_output_alias(m@),
{
    let mut i: usize = 0;
    while i < cap.outputs.len()
        invariant
            i <= cap.outputs.len(),
            forall|k: int| 0 <= k < i ==> !(#[trigger] cap.outputs.deep_view()[k]).has_alias(m@),
        decreases cap.outputs.len() - i,
    {
        let fs = &cap.outputs[i];
        if str_eq(fs.mime.as_str(), m) || contains_str(&fs.extensions, m) {
            proof {
                assert((cap.outputs.deep_view()[i as int]).has_alias(m@));
                assert(crate::capability::some_alias(cap@.outputs, m@));
            }
            return true;
        }
        proof {
            assert(!(cap.outputs.deep_view()[i as int]).has_alias(m@));
        }
        i = i + 1;
    }
    proof {
        assert(!crate::capability::some_alias(cap@.outputs, m@)) by {
            if crate::capability::some_alias(cap@.outputs, m@) {
                let k = choose|k: int|
                    0 <= k < cap@.outputs.len() && (#[trigger] cap@.outputs[k]).has_alias(m@);
            }
        }
    }
    false
}

/// Whether every tool the capability requires is present.
fn cap_tools_present(cap: &CapabilityRecord, present: &Vec<String>) -> (r: bool)
    ensures
        r == tools_present(cap@, present.deep_view()),
{
    let mut i: usize = 0;
    while i < cap.requires.tools.len()
        invariant
            i <= cap.requires.tools.len(),
            forall|k: int| 0 <= k < i ==> present.deep_view().contains(
                #[trigger] cap.requires.tools.deep_view()[k],
            ),
        decreases cap.requires.tools.len() - i,
    {
        if !contains_str(present, cap.requires.tools[i].as_str()) {
            proof {
                assert(!present.deep_view().contains(cap@.requires.tools[i as int]));
            }
            return false;
        }
        i = i + 1;
    }
    true
}

/// Annotates one reachable format with tool availability: available when
/// some capability producing it has all required tools present, else the
/// absent tools of its producers are listed.
fn annotate_target(caps: &Vec<CapabilityRecord>, fmt: &String, present: &Vec<String>) -> (t:
    ConversionTarget)
    ensures
        t@.format == fmt@,
        t@.mime_type == fmt@,
        t@.paths.len() == 0,
        !t@.recommended,
        t@.available == producer_available(caps.deep_view(), fmt@, present.deep_view()),
        t@.available ==> t@.missing_requirements.len() == 0,
        !t@.available ==> forall|m: Seq<char>|
            #![trigger t@.missing_requirements.contains(m)]
            t@.missing_requirements.contains(m) <==> missing_for(
                caps.deep_view(),
                fmt@,
                present.deep_view(),
                m,
            ),
{
    let ghost cv = caps.deep_view();
    let ghost pv = present.deep_view();
    let mut available = false;
    let mut missing: Vec<String> = Vec::new();
    proof {
        assert(missing.deep_view() =~= Seq::<Seq<char>>::empty());
    }
    let mut j: usize = 0;
    while j < caps.len()
        invariant
            j <= caps.len(),
            cv == caps.deep_view(),
            pv == present.deep_view(),
            available == (exists|k: int|
                0 <= k < j && (#[trigger] cv[k]).has_output_alias(fmt@) && tools_present(
                    cv[k],
                    pv,
                )),
            forall|m: Seq<char>| #![trigger missing.deep_view().contains(m)]
                missing.deep_view().contains(m) <==> (!pv.contains(m) && exists|k: int|
                    0 <= k < j && (#[trigger] cv[k]).has_output_alias(fmt@)
                        && cv[k].requires.tools.contains(m)),
        decreases caps.len() - j,
    {
        let produces = cap_has_output_alias(&caps[j], fmt.as_str());
        if produces {
            if cap_tools_present(&caps[j], present) {
                available = true;
                proof {
                    assert((cv[j as int]).has_output_alias(fmt@) && tools_present(
                        cv[j as int],
                        pv,
                    ));
                }
            }
            let tools = &caps[j].requires.tools;
            let ghost tv = tools.deep_view();
            let mut ti: usize = 0;
            while ti < tools.len()
                invariant
                    ti <= tools.len(),
                    j < caps.len(),
                    cv == caps.deep_view(),
                    pv == present.deep_view(),
                    tv == cv[j as int].requires.tools,
                    tv == tools.deep_view(),
                    (cv[j as int]).has_output_alias(fmt@),
                    forall|m: Seq<char>| #![trigger missing.deep_view().contains(m)]
                        missing.deep_view().contains(m) <==> (!pv.contains(m) && ((exists|k: int|
                            0 <= k < j && (#[trigger] cv[k]).has_output_alias(fmt@)
                                && cv[k].requires.tools.contains(m)) || (exists|l: int|
                            0 <= l < ti && tv[l] == m))),
                decreases tools.len() - ti,
            {
                let absent = !contains_str(present, tools[ti].as_str());
                let listed = contains_str(&missing, tools[ti].as_str());
                if absent && !listed {
                    let ghost mi = missing.deep_view();
                    missing.push(tools[ti].clone());
                    proof {
                        assert(missing.deep_view() =~= mi.push(tv[ti as int]));
                        assert forall|m: Seq<char>| #![trigger missing.deep_view().contains(m)]
                            missing.deep_view().contains(m) <==> (!pv.contains(m) && ((exists|
                                k: int,
                            |
                                0 <= k < j && (#[trigger] cv[k]).has_output_alias(fmt@)
                                    && cv[k].requires.tools.contains(m)) || (exists|l: int|
                                0 <= l < ti + 1 && tv[l] == m))) by {
                            crate::text::lemma_push_contains(mi, tv[ti as int], m);
                            if m == tv[ti as int] {
                                assert(exists|l: int| 0 <= l < ti + 1 && tv[l] == m);
                            }
                        }
                    }
                } else {
                    proof {
                        assert forall|m: Seq<char>| #![trigger missing.deep_view().contains(m)]
                            missing.deep_view().contains(m) <==> (!pv.contains(m) && ((exists|
                                k: int,
                            |
                                0 <= k < j && (#[trigger] cv[k]).has_output_alias(fmt@)
                                    && cv[k].requires.tools.contains(m)) || (exists|l: int|
                                0 <= l < ti + 1 && tv[l] == m))) by {
                            if m == tv[ti as int] && !pv.contains(m) {
                                assert(listed);
                                assert(missing.deep_view().contains(m));
                            }
                        }
                    }
                }
                ti = ti + 1;
            }
            proof {
                assert forall|m: Seq<char>| #![trigger missing.deep_view().contains(m)]
                    missing.deep_view().contains(m) <==> (!pv.contains(m) && exists|k: int|
                        0 <= k < j + 1 && (#[trigger] cv[k]).has_output_alias(fmt@)
                            && cv[k].requires.tools.contains(m)) by {
                    if exists|l: int| 0 <= l < tv.len() && tv[l] == m {
                        assert(cv[j as int].requires.tools.contains(m));
                    }
                    if cv[j as int].requires.tools.contains(m) {
                        let l = choose|l: int| 0 <= l < tv.len() && tv[l] == m;
                        assert(exists|l2: int| 0 <= l2 < tv.len() && tv[l2] == m);
                    }
                    if exists|k: int|
                        0 <= k < j + 1 && (#[trigger] cv[k]).has_output_alias(fmt@)
                            && cv[k].requires.tools.contains(m) {
                        let k = choose|k: int|
                            0 <= k < j + 1 && (#[trigger] cv[k]).has_output_alias(fmt@)
                                && cv[k].requires.tools.contains(m);
                        if k < j {
                            assert(exists|k2: int|
                                0 <= k2 < j && (#[trigger] cv[k2]).has_output_alias(fmt@)
                                    && cv[k2].requires.tools.contains(m));
                        }
                    }
                }
                assert(available == (exists|k: int|
                    0 <= k < j + 1 && (#[trigger] cv[k]).has_output_alias(fmt@) && tools_present(
                        cv[k],
                        pv,
                    ))) by {
                    if !available {
                        if exists|k: int|
                            0 <= k < j + 1 && (#[trigger] cv[k]).has_output_alias(fmt@)
                                && tools_present(cv[k], pv) {
                            let k = choose|k: int|
                                0 <= k < j + 1 && (#[trigger] cv[k]).has_output_alias(fmt@)
                                    && tools_present(cv[k], pv);
                            assert(k < j);
                        }
                    }
                }
            }
        } else {
            proof {
                assert forall|m: Seq<char>| #![trigger missing.deep_view().contains(m)]
                    missing.deep_view().contains(m) <==> (!pv.contains(m) && exists|k: int|
                        0 <= k < j + 1 && (#[trigger] cv[k]).has_output_alias(fmt@)
                            && cv[k].requires.tools.contains(m)) by {
                    if exists|k: int|
                        0 <= k < j + 1 && (#[trigger] cv[k]).has_output_alias(fmt@)
                            && cv[k].requires.tools.contains(m) {
                        let k = choose|k: int|
                            0 <= k < j + 1 && (#[trigger] cv[k]).has_output_alias(fmt@)
                                && cv[k].requires.tools.contains(m);
                        assert(k < j);
                    }
                }
                assert(available == (exists|k: int|
                    0 <= k < j + 1 && (#[trigger] cv[k]).has_output_alias(fmt@) && tools_present(
                        cv[k],
                        pv,
                    ))) by {
                    if !available {
                        if exists|k: int|
                            0 <= k < j + 1 && (#[trigger] cv[k]).has_output_alias(fmt@)
                                && tools_present(cv[k], pv) {
                            let k = choose|k: int|
                                0 <= k < j + 1 && (#[trigger] cv[k]).has_output_alias(fmt@)
                                    && tools_present(cv[k], pv);
                            assert(k < j);
                        }
                    }
                }
            }
        }
        j = j + 1;
    }
    if available {
        let t = ConversionTarget {
            format: fmt.clone(),
            mime_type: fmt.clone(),
            paths: Vec::new(),
            recommended: false,
            available: true,
            missing_requirements: Vec::new(),
        };
        proof {
            assert(t@.paths =~= Seq::<PathView>::empty());
            assert(t@.missing_requirements =~= Seq::<Seq<char>>::empty());
        }
        t
    } else {
        let t = ConversionTarget {
            format: fmt.clone(),
            mime_type: fmt.clone(),
            paths: Vec::new(),
            recommended: false,
            available: false,
            missing_requirements: missing,
        };
        proof {
            assert(t@.paths =~= Seq::<PathView>::empty());
        }
        t
    }
}

/// Collects every format reachable from `source_mime` within `max_hops`
/// edges, by bounded rounds of frontier expansion over the registry's
/// direct edges.
fn reachable_formats(registry: &Registry, source_mime: &str, max_hops: usize) -> (r: Vec<String>)
    requires
        registry@.wf(),
        max_hops >= 1,
    ensures
        crate::registry::distinct_seq(r.deep_view()),
        forall|t: Seq<char>| #![trigger r.deep_view().contains(t)]
            r.deep_view().contains(t) <==> walk_reach(
                registry@.caps,
                source_mime@,
                t,
                max_hops as int,
            ),
{
    let ghost caps = registry@.caps;
    let mut found: Vec<String> = Vec::new();
    proof {
        assert(found.deep_view() =~= Seq::<Seq<char>>::empty());
    }
    let mut round: usize = 0;
    while round < max_hops
        invariant
            round <= max_hops,
            caps == registry@.caps,
            registry@.wf(),
            crate::registry::distinct_seq(found.deep_view()),
            forall|t: Seq<char>| #![trigger found.deep_view().contains(t)]
                found.deep_view().contains(t) <==> walk_reach(caps, source_mime@, t, round as int),
        decreases max_hops - round,
    {
        let ghost prevfound = found.deep_view();
        let mut next: Vec<String> = Vec::new();
        proof {
            assert(next.deep_view() =~= Seq::<Seq<char>>::empty());
        }
        // everything one direct edge from the source
        let ts = registry.get_targets(source_mime);
        let ghost tsv = ts.deep_view();
        let mut a: usize = 0;
        while a < ts.len()
            invariant
                a <= ts.len(),
                caps == registry@.caps,
                tsv == ts.deep_view(),
                forall|k: int| 0 <= k < tsv.len() ==> crate::registry::reachable(
                    caps,
                    source_mime@,
                    (#[trigger] tsv[k]).format,
                ),
                crate::registry::distinct_seq(next.deep_view()),
                forall|t: Seq<char>| #![trigger next.deep_view().contains(t)]
                    next.deep_view().contains(t) <==> (exists|k: int|
                        0 <= k < a && (#[trigger] tsv[k]).format == t),
            decreases ts.len() - a,
        {
            let f = &ts[a].format;
            if !contains_str(&next, f.as_str()) {
                let ghost nx = next.deep_view();
                next.push(f.clone());
                proof {
                    assert(next.deep_view() =~= nx.push(tsv[a as int].format));
                    assert forall|x: int, y: int| 0 <= x < y < next.deep_view().len() implies
                        next.deep_view()[x] != next.deep_view()[y] by {
                        if y == next.deep_view().len() - 1 {
                            assert(next.deep_view()[x] == nx[x]);
                            assert(nx.contains(nx[x]));
                        }
                    }
                    assert forall|t: Seq<char>| #![trigger next.deep_view().contains(t)]
                        next.deep_view().contains(t) <==> (exists|k: int|
                            0 <= k < a + 1 && (#[trigger] tsv[k]).format == t) by {
                        crate::text::lemma_push_contains(nx, tsv[a as int].format, t);
                        if t == tsv[a as int].format {
                            assert(exists|k: int| 0 <= k < a + 1 && (#[trigger] tsv[k]).format == t);
                        }
                    }
                }
            } else {
                proof {
                    assert forall|t: Seq<char>| #![trigger next.deep_view().contains(t)]
                        next.deep_view().contains(t) <==> (exists|k: int|
                            0 <= k < a + 1 && (#[trigger] tsv[k]).format == t) by {
                        if t == tsv[a as int].format {
                            assert(next.deep_view().contains(t));
                        }
                    }
                }
            }
            a = a + 1;
        }
        proof {
            // the first stage holds exactly the directly reachable formats
            assert forall|t: Seq<char>| #![trigger next.deep_view().contains(t)]
                next.deep_view().contains(t) <==> crate::registry::reachable(
                caps,
                source_mime@,
                t,
            ) by {
                if next.deep_view().contains(t) {
                    let k = choose|k: int| 0 <= k < tsv.len() && (#[trigger] tsv[k]).format == t;
                }
                if crate::registry::reachable(caps, source_mime@, t) {
                    assert(crate::registry::target_listed(tsv, t));
                    let k = choose|k: int| 0 <= k < tsv.len() && (#[trigger] tsv[k]).format == t;
                    assert(exists|k2: int| 0 <= k2 < ts.len() && (#[trigger] tsv[k2]).format == t);
                }
            }
        }
        // everything one direct edge from a previously reached format
        let mut fi: usize = 0;
        while fi < found.len()
            invariant
                fi <= found.len(),
                caps == registry@.caps,
                registry@.wf(),
                prevfound == found.deep_view(),
                crate::registry::distinct_seq(next.deep_view()),
                forall|t: Seq<char>| #![trigger next.deep_view().contains(t)]
                    next.deep_view().contains(t) <==> (crate::registry::reachable(
                        caps,
                        source_mime@,
                        t,
                    ) || (exists|g: int|
                        0 <= g < fi && crate::registry::reachable(
                            caps,
                            #[trigger] prevfound[g],
                            t,
                        ))),
            decreases found.len() - fi,
        {
            let ts2 = registry.get_targets(found[fi].as_str());
            let ghost ts2v = ts2.deep_view();
            let mut b: usize = 0;
            while b < ts2.len()
                invariant
                    b <= ts2.len(),
                    fi < found.len(),
                    caps == registry@.caps,
                    prevfound == found.deep_view(),
                    ts2v == ts2.deep_view(),
                    forall|k: int| 0 <= k < ts2v.len() ==> crate::registry::reachable(
                        caps,
                        prevfound[fi as int],
                        (#[trigger] ts2v[k]).format,
                    ),
                    crate::registry::distinct_seq(next.deep_view()),
                    forall|t: Seq<char>| #![trigger next.deep_view().contains(t)]
                        next.deep_view().contains(t) <==> (crate::registry::reachable(
                            caps,
                            source_mime@,
                            t,
                        ) || (exists|g: int|
                            0 <= g < fi && crate::registry::reachable(
                                caps,
                                #[trigger] prevfound[g],
                                t,
                            )) || (exists|k: int| 0 <= k < b && (#[trigger] ts2v[k]).format == t)),
                decreases ts2.len() - b,
            {
                let f = &ts2[b].format;
                if !contains_str(&next, f.as_str()) {
                    let ghost nx = next.deep_view();
                    next.push(f.clone());
                    proof {
                        assert(next.deep_view() =~= nx.push(ts2v[b as int].format));
                        assert forall|x: int, y: int| 0 <= x < y < next.deep_view().len() implies
                            next.deep_view()[x] != next.deep_view()[y] by {
                            if y == next.deep_view().len() - 1 {
                                assert(next.deep_view()[x] == nx[x]);
                                assert(nx.contains(nx[x]));
                            }
                        }
                        assert forall|t: Seq<char>| #![trigger next.deep_view().contains(t)]
                            next.deep_view().contains(t) <==> (crate::registry::reachable(
                                caps,
                                source_mime@,
                                t,
                            ) || (exists|g: int|
                                0 <= g < fi && crate::registry::reachable(
                                    caps,
                                    #[trigger] prevfound[g],
                                    t,
                                )) || (exists|k: int|
                                0 <= k < b + 1 && (#[trigger] ts2v[k]).format == t)) by {
                            crate::text::lemma_push_contains(nx, ts2v[b as int].format, t);
                            if t == ts2v[b as int].format {
                                assert(exists|k: int|
                                    0 <= k < b + 1 && (#[trigger] ts2v[k]).format == t);
                            }
                        }
                    }
                } else {
                    proof {
                        assert forall|t: Seq<char>| #![trigger next.deep_view().contains(t)]
                            next.deep_view().contains(t) <==> (crate::registry::reachable(
                                caps,
                                source_mime@,
                                t,
                            ) || (exists|g: int|
                                0 <= g < fi && crate::registry::reachable(
                                    caps,
                                    #[trigger] prevfound[g],
                                    t,
                                )) || (exists|k: int|
                                0 <= k < b + 1 && (#[trigger] ts2v[k]).format == t)) by {
                            if t == ts2v[b as int].format {
                                assert(next.deep_view().contains(t));
                            }
                        }
                    }
                }
                b = b + 1;
            }
            proof {
                // fold this frontier element's targets into the bound
                assert forall|t: Seq<char>| #![trigger next.deep_view().contains(t)]
                    next.deep_view().contains(t) <==> (crate::registry::reachable(
                        caps,
                        source_mime@,
                        t,
                    ) || (exists|g: int|
                        0 <= g < fi + 1 && crate::registry::reachable(
                            caps,
                            #[trigger] prevfound[g],
                            t,
                        ))) by {
                    if exists|k: int| 0 <= k < ts2v.len() && (#[trigger] ts2v[k]).format == t {
                        let k = choose|k: int|
                            0 <= k < ts2v.len() && (#[trigger] ts2v[k]).format == t;
                        assert(crate::registry::reachable(caps, prevfound[fi as int], t));
                    }
                    if exists|g: int|
                        0 <= g < fi + 1 && crate::registry::reachable(
                            caps,
                            #[trigger] prevfound[g],
                            t,
                        ) {
                        let g = choose|g: int|
                            0 <= g < fi + 1 && crate::registry::reachable(
                                caps,
                                #[trigger] prevfound[g],
                                t,
                            );
                        if g == fi {
                            assert(crate::registry::target_listed(ts2v, t));
                            let k = choose|k: int|
                                0 <= k < ts2v.len() && (#[trigger] ts2v[k]).format == t;
                            assert(exists|k2: int|
                                0 <= k2 < ts2.len() && (#[trigger] ts2v[k2]).format == t);
                        } else {
                            assert(exists|g2: int|
                                0 <= g2 < fi && crate::registry::reachable(
                                    caps,
                                    #[trigger] prevfound[g2],
                                    t,
                                ));
                        }
                    }
                }
            }
            fi = fi + 1;
        }
        found = next;
        proof {
            // one more hop: exactly the walk-reachable set grows by a round
            assert forall|t: Seq<char>| #![trigger found.deep_view().contains(t)]
                found.deep_view().contains(t) <==> walk_reach(
                caps,
                source_mime@,
                t,
                round as int + 1,
            ) by {
                if found.deep_view().contains(t) {
                    if !crate::registry::reachable(caps, source_mime@, t) {
                        let g = choose|g: int|
                            0 <= g < prevfound.len() && crate::registry::reachable(
                                caps,
                                #[trigger] prevfound[g],
                                t,
                            );
                        assert(prevfound.contains(prevfound[g]));
                        assert(walk_reach(caps, source_mime@, prevfound[g], round as int));
                    }
                }
                if walk_reach(caps, source_mime@, t, round as int + 1) {
                    if !crate::registry::reachable(caps, source_mime@, t) {
                        let mid = choose|mid: Seq<char>|
                            walk_reach(caps, source_mime@, mid, round as int)
                                && #[trigger] crate::registry::reachable(caps, mid, t);
                        assert(prevfound.contains(mid));
                        let g = choose|g: int| 0 <= g < prevfound.len() && prevfound[g] == mid;
                        assert(exists|g2: int|
                            0 <= g2 < prevfound.len() && crate::registry::reachable(
                                caps,
                                #[trigger] prevfound[g2],
                                t,
                            ));
                    }
                }
            }
        }
        round = round + 1;
    }
    found
}

/// The planner: searches the format graph for ranked conversion paths.
pub struct Planner {
    /// Bound on the number of hops of any reported path.
    pub max_hops: usize,
    /// Configurable per-step time estimate in milliseconds.
    pub base_step_ms: u64,
}

impl Planner {
    /// The configuration stays in ranges that keep every intermediate
    /// computation in bounds.
    pub open spec fn wf(self) -> bool {
        &&& 1 <= self.max_hops <= 8
        &&& 1 <= self.base_step_ms <= 1000000
    }

    /// A planner with the default hop bound and base step cost.
    pub fn new() -> (r: Planner)
        ensures
            r.max_hops == 3,
            r.base_step_ms == 1000,
            r.wf(),
    {
        Planner { max_hops: 3, base_step_ms: 1000 }
    }

    /// Plans ranked conversion paths from `source_mime` to `target_mime`
    /// whose compounded quality clears `quality_threshold`.
    ///
    /// When source and target coincide, the single zero-step identity path
    /// of perfect quality is returned for any threshold. Otherwise every
    /// returned path is an admissible simple chain whose `total_quality` is
    /// the scaled product of its steps' qualities and clears the threshold,
    /// the list is ranked best-first, and every direct edge whose
    /// capability clears the threshold is included. An empty result means
    /// "no plan", which is data, not an error.
    #[verifier::rlimit(50)]
    pub fn plan(
        &self,
        registry: &Registry,
        source_mime: &str,
        target_mime: &str,
        quality_threshold: u32,
    ) -> (r: Result<Vec<ConversionPath>, AppError>)
        requires
            self.wf(),
            registry@.wf(),
            valid_score(quality_threshold),
        ensures
            r is Ok,
            match r {
                Ok(paths) => {
                    &&& source_mime@ == target_mime@ ==> (paths.deep_view().len() == 1 && (
                    paths.deep_view()[0]).steps.len() == 0 && (paths.deep_view()[0]).total_quality
                        == SCALE && (paths.deep_view()[0]).estimated_time_ms == 0 && (
                    paths.deep_view()[0]).risks.len() == 0)
                    &&& source_mime@ != target_mime@ ==> (forall|k: int|
                        0 <= k < paths.deep_view().len() ==> valid_path(
                            registry@.caps,
                            #[trigger] paths.deep_view()[k],
                            source_mime@,
                            target_mime@,
                            quality_threshold,
                            self.base_step_ms,
                        ))
                    &&& ranked(paths.deep_view())
                    &&& forall|k: int, l: int|
                        0 <= k < l < paths.deep_view().len() ==> (
                        #[trigger] paths.deep_view()[k]).steps != (
                        #[trigger] paths.deep_view()[l]).steps
                    &&& source_mime@ != target_mime@ ==> (forall|x: Seq<char>|
                        #![trigger direct_ok(registry@.caps, x, source_mime@, target_mime@, quality_threshold)]
                        direct_ok(
                            registry@.caps,
                            x,
                            source_mime@,
                            target_mime@,
                            quality_threshold,
                        ) ==> has_direct(paths.deep_view(), x))
                    // every admissible simple chain within the hop bound
                    // whose compounded quality clears the threshold is
                    // listed
                    &&& source_mime@ != target_mime@ ==> plan_complete(
                        registry@.caps,
                        paths.deep_view(),
                        source_mime@,
                        target_mime@,
                        quality_threshold,
                        self.max_hops as int,
                    )
                },
                Err(_) => false,
            },
    {
        let ghost caps = registry@.caps;
        if str_eq(source_mime, target_mime) {
            let identity = ConversionPath {
                steps: Vec::new(),
                total_quality: SCALE,
                estimated_time_ms: 0,
                risks: Vec::new(),
            };
            proof {
                assert(identity@.steps =~= Seq::<StepView>::empty());
                assert(identity@.risks =~= Seq::<Seq<char>>::empty());
            }
            let mut paths: Vec<ConversionPath> = Vec::new();
            let ghost iv = identity@;
            paths.push(identity);
            proof {
                assert(paths.deep_view() =~= seq![iv]);
            }
            return Ok(paths);
        }
        let mut visited: Vec<String> = Vec::new();
        let ghost ve = visited.deep_view();
        visited.push(source_mime.to_owned());
        proof {
            assert(ve =~= Seq::<Seq<char>>::empty());
            assert(visited.deep_view() =~= ve.push(source_mime@));
            crate::text::lemma_push_contains(ve, source_mime@, source_mime@);
            crate::text::lemma_push_contains(ve, source_mime@, target_mime@);
            assert(visited.deep_view() =~= seq![source_mime@]);
        }
        let chains = search(
            registry,
            source_mime,
            target_mime,
            quality_threshold,
            &visited,
            self.max_hops,
        );
        let ghost cv = chains.deep_view();
        let mut paths: Vec<ConversionPath> = Vec::new();
        proof {
            assert(paths.deep_view() =~= Seq::<PathView>::empty());
        }
        let mut n: usize = 0;
        while n < chains.len()
            invariant
                n <= chains.len(),
                caps == registry@.caps,
                cv == chains.deep_view(),
                registry@.wf(),
                self.wf(),
                valid_score(quality_threshold),
                source_mime@ != target_mime@,
                chains_ok(
                    caps,
                    cv,
                    source_mime@,
                    target_mime@,
                    quality_threshold,
                    seq![source_mime@],
                    self.max_hops as int,
                ),
                ranked(paths.deep_view()),
                forall|k: int, l: int|
                    0 <= k < l < paths.deep_view().len() ==> (
                    #[trigger] paths.deep_view()[k]).steps != (
                    #[trigger] paths.deep_view()[l]).steps,
                forall|k: int|
                    0 <= k < paths.deep_view().len() ==> valid_path(
                        caps,
                        #[trigger] paths.deep_view()[k],
                        source_mime@,
                        target_mime@,
                        quality_threshold,
                        self.base_step_ms,
                    ),
                forall|x: Seq<char>|
                    #![trigger chains_have_direct(cv.subrange(0, n as int), x)]
                    chains_have_direct(cv.subrange(0, n as int), x) ==> has_direct(
                        paths.deep_view(),
                        x,
                    ),
                forall|c: Seq<StepView>|
                    #![trigger chains_list(cv.subrange(0, n as int), c)]
                    chains_list(cv.subrange(0, n as int), c) && chain_quality(c)
                        >= quality_threshold ==> (exists|k: int|
                        0 <= k < paths.deep_view().len() && (#[trigger] paths.deep_view()[k]).steps
                            == c),
            decreases chains.len() - n,
        {
            let ghost chv = cv[n as int];
            proof {
                assert(chain_ok(
                    caps,
                    chv,
                    source_mime@,
                    target_mime@,
                    quality_threshold,
                    seq![source_mime@],
                    self.max_hops as int,
                ));
                assert forall|i: int| 0 <= i < chv.len() implies (#[trigger] chv[i]).quality
                    <= SCALE by {
                    assert(step_valid(caps, chv[i], quality_threshold));
                    let j = choose|j: int|
                        0 <= j < caps.len() && {
                            let c = #[trigger] caps[j];
                            &&& c.id == chv[i].converter_id
                            &&& c.has_input_alias(chv[i].from_format)
                            &&& c.has_output_alias(chv[i].to_format)
                            &&& c.quality == chv[i].quality
                        };
                    assert(caps[j].wf());
                }
                assert(chains[n as int].deep_view() == chv);
            }
            let p = build_path(registry, &chains[n], self.base_step_ms);
            let ghost prevp = paths.deep_view();
            let ghost pv = p@;
            let quality_ok = p.total_quality >= quality_threshold;
            let duplicate = contains_chain(&paths, &chains[n]);
            let kept = quality_ok && !duplicate;
            if kept {
                proof {
                    assert(valid_path(
                        caps,
                        pv,
                        source_mime@,
                        target_mime@,
                        quality_threshold,
                        self.base_step_ms,
                    ));
                }
                insert_ranked(&mut paths, p);
            }
            proof {
                if kept {
                    let k = choose|k: int|
                        0 <= k <= prevp.len() && paths.deep_view() == prevp.insert(k, pv);
                    assert forall|m: int| 0 <= m < paths.deep_view().len() implies valid_path(
                        caps,
                        #[trigger] paths.deep_view()[m],
                        source_mime@,
                        target_mime@,
                        quality_threshold,
                        self.base_step_ms,
                    ) by {
                        if m < k {
                            assert(paths.deep_view()[m] == prevp[m]);
                        } else if m == k {
                            assert(paths.deep_view()[m] == pv);
                        } else {
                            assert(paths.deep_view()[m] == prevp[m - 1]);
                        }
                    }
                    // the inserted chain was not listed yet, so chains stay
                    // pairwise distinct
                    assert forall|a: int, b: int|
                        0 <= a < b < paths.deep_view().len() implies (
                    #[trigger] paths.deep_view()[a]).steps != (
                    #[trigger] paths.deep_view()[b]).steps by {
                        let pa = if a < k {
                            prevp[a]
                        } else if a == k {
                            pv
                        } else {
                            prevp[a - 1]
                        };
                        let pb = if b < k {
                            prevp[b]
                        } else if b == k {
                            pv
                        } else {
                            prevp[b - 1]
                        };
                        assert(paths.deep_view()[a] == pa);
                        assert(paths.deep_view()[b] == pb);
                        if a == k {
                            assert(pb == prevp[b - 1]);
                            assert(pv.steps != prevp[b - 1].steps);
                        } else if b == k {
                            assert(pa == prevp[a]);
                            assert(pv.steps != prevp[a].steps);
                        }
                    }
                }
                assert forall|x: Seq<char>|
                    #![trigger chains_have_direct(cv.subrange(0, n as int + 1), x)]
                    chains_have_direct(cv.subrange(0, n as int + 1), x) implies has_direct(
                    paths.deep_view(),
                    x,
                ) by {
                    let m = choose|m: int|
                        0 <= m < cv.subrange(0, n as int + 1).len() && (#[trigger] cv.subrange(
                            0,
                            n as int + 1,
                        )[m]).len() == 1 && cv.subrange(0, n as int + 1)[m][0].converter_id == x;
                    if m < n {
                        assert(cv.subrange(0, n as int)[m] == cv[m]);
                        assert(chains_have_direct(cv.subrange(0, n as int), x));
                        assert(has_direct(prevp, x));
                        if kept {
                            let k = choose|k: int|
                                0 <= k <= prevp.len() && paths.deep_view() == prevp.insert(k, pv);
                            let q = choose|q: int|
                                0 <= q < prevp.len() && (#[trigger] prevp[q]).steps.len() == 1
                                    && prevp[q].steps[0].converter_id == x;
                            if q < k {
                                assert(paths.deep_view()[q] == prevp[q]);
                            } else {
                                assert(paths.deep_view()[q + 1] == prevp[q]);
                            }
                        }
                    } else {
                        // the direct chain just processed clears the filter:
                        // a one-hop path's quality is its step's quality
                        assert(cv.subrange(0, n as int + 1)[m] == chv);
                        assert(chv.len() == 1);
                        assert(pv.steps == chv);
                        assert(step_valid(caps, chv[0], quality_threshold));
                        assert(chv.drop_last() =~= Seq::<StepView>::empty());
                        assert(chain_quality(Seq::<StepView>::empty()) == SCALE);
                        assert(chain_quality(chv) == score_mul(SCALE, chv[0].quality));
                        assert((SCALE * chv[0].quality) / (SCALE as int) == chv[0].quality)
                            by (nonlinear_arith)
                            requires chv[0].quality >= 0, SCALE > 0;
                        assert(pv.total_quality == chv[0].quality);
                        assert(quality_ok);
                        if kept {
                            let k = choose|k: int|
                                0 <= k <= prevp.len() && paths.deep_view() == prevp.insert(k, pv);
                            assert(paths.deep_view()[k] == pv);
                            assert(has_direct(paths.deep_view(), x));
                        } else {
                            // an equal chain is already listed
                            let q = choose|q: int|
                                0 <= q < prevp.len() && (#[trigger] prevp[q]).steps
                                    == chains[n as int].deep_view();
                            assert(paths.deep_view()[q].steps.len() == 1);
                            assert(paths.deep_view()[q].steps[0].converter_id == x);
                            assert(has_direct(paths.deep_view(), x));
                        }
                    }
                }
                assert forall|c: Seq<StepView>|
                    #![trigger chains_list(cv.subrange(0, n as int + 1), c)]
                    chains_list(cv.subrange(0, n as int + 1), c) && chain_quality(c)
                        >= quality_threshold implies (exists|k: int|
                    0 <= k < paths.deep_view().len() && (#[trigger] paths.deep_view()[k]).steps
                        == c) by {
                    let m = choose|m: int|
                        0 <= m < cv.subrange(0, n as int + 1).len() && #[trigger] cv.subrange(
                            0,
                            n as int + 1,
                        )[m] == c;
                    if m < n {
                        assert(cv.subrange(0, n as int)[m] == c);
                        assert(chains_list(cv.subrange(0, n as int), c));
                        let q = choose|q: int|
                            0 <= q < prevp.len() && (#[trigger] prevp[q]).steps == c;
                        if kept {
                            let k = choose|k: int|
                                0 <= k <= prevp.len() && paths.deep_view() == prevp.insert(k, pv);
                            if q < k {
                                assert(paths.deep_view()[q] == prevp[q]);
                            } else {
                                assert(paths.deep_view()[q + 1] == prevp[q]);
                            }
                        }
                    } else {
                        // this iteration's own chain
                        assert(c == chv);
                        assert(pv.steps == c);
                        assert(pv.total_quality == chain_quality(c));
                        assert(quality_ok);
                        if kept {
                            let k = choose|k: int|
                                0 <= k <= prevp.len() && paths.deep_view() == prevp.insert(k, pv);
                            assert(paths.deep_view()[k] == pv);
                        } else {
                            let q = choose|q: int|
                                0 <= q < prevp.len() && (#[trigger] prevp[q]).steps
                                    == chains[n as int].deep_view();
                            assert(paths.deep_view()[q].steps == c);
                        }
                    }
                }
            }
            n = n + 1;
        }
        proof {
            assert(cv.subrange(0, chains.len() as int) =~= cv);
            assert forall|x: Seq<char>|
                #![trigger direct_ok(caps, x, source_mime@, target_mime@, quality_threshold)]
                direct_ok(caps, x, source_mime@, target_mime@, quality_threshold) implies
                has_direct(paths.deep_view(), x) by {
                assert(chains_have_direct(cv, x));
                assert(chains_have_direct(cv.subrange(0, chains.len() as int), x));
            }
            assert forall|c: Seq<StepView>|
                #![trigger chain_ok(caps, c, source_mime@, target_mime@, quality_threshold, seq![source_mime@], self.max_hops as int)]
                chain_ok(
                    caps,
                    c,
                    source_mime@,
                    target_mime@,
                    quality_threshold,
                    seq![source_mime@],
                    self.max_hops as int,
                ) && chain_quality(c) >= quality_threshold implies (exists|k: int|
                0 <= k < paths.deep_view().len() && (#[trigger] paths.deep_view()[k]).steps
                    == c) by {
                assert(chain_ok(
                    caps,
                    c,
                    source_mime@,
                    target_mime@,
                    quality_threshold,
                    visited.deep_view(),
                    self.max_hops as int,
                ));
                assert(chains_list(cv, c));
                assert(chains_list(cv.subrange(0, chains.len() as int), c));
            }
            assert(plan_complete(
                caps,
                paths.deep_view(),
                source_mime@,
                target_mime@,
                quality_threshold,
                self.max_hops as int,
            ));
        }
        Ok(paths)
    }

    /// Reports the union of target formats reachable from `source_mime`
    /// across all hop counts up to the planner's bound, each annotated with
    /// whether the tools of some capability producing it are all present —
    /// and, if not, which required tools are missing. Tool presence is
    /// probed outside and handed in as plain values.
    pub fn get_available_targets(
        &self,
        registry: &Registry,
        source_mime: &str,
        present_tools: &Vec<String>,
    ) -> (r: Vec<ConversionTarget>)
        requires
            self.wf(),
            registry@.wf(),
        ensures
            forall|k: int| 0 <= k < r.deep_view().len() ==> walk_reach(
                registry@.caps,
                source_mime@,
                (#[trigger] r.deep_view()[k]).format,
                self.max_hops as int,
            ),
            forall|to: Seq<char>|
                #![trigger walk_reach(registry@.caps, source_mime@, to, self.max_hops as int)]
                walk_reach(registry@.caps, source_mime@, to, self.max_hops as int)
                    ==> crate::registry::target_listed(r.deep_view(), to),
            forall|k: int, l: int|
                0 <= k < l < r.deep_view().len() ==> (#[trigger] r.deep_view()[k]).format != (
                #[trigger] r.deep_view()[l]).format,
            forall|k: int| 0 <= k < r.deep_view().len() ==> {
                let t = #[trigger] r.deep_view()[k];
                &&& t.format == t.mime_type
                &&& t.paths.len() == 0
                &&& !t.recommended
                &&& t.available == producer_available(
                    registry@.caps,
                    t.format,
                    present_tools.deep_view(),
                )
                &&& (t.available ==> t.missing_requirements.len() == 0)
                &&& (!t.available ==> forall|m: Seq<char>|
                    #![trigger t.missing_requirements.contains(m)]
                    t.missing_requirements.contains(m) <==> missing_for(
                        registry@.caps,
                        t.format,
                        present_tools.deep_view(),
                        m,
                    ))
            },
    {
        let ghost capsv = registry@.caps;
        let formats = reachable_formats(registry, source_mime, self.max_hops);
        let ghost fv = formats.deep_view();
        let caps = registry.list_all();
        let mut r: Vec<ConversionTarget> = Vec::new();
        proof {
            assert(r.deep_view() =~= Seq::<crate::conversion::TargetView>::empty());
        }
        let mut i: usize = 0;
        while i < formats.len()
            invariant
                i <= formats.len(),
                capsv == registry@.caps,
                fv == formats.deep_view(),
                caps.deep_view() == capsv,
                crate::registry::distinct_seq(fv),
                forall|t: Seq<char>| #![trigger fv.contains(t)]
                    fv.contains(t) <==> walk_reach(capsv, source_mime@, t, self.max_hops as int),
                r.deep_view().len() == i,
                forall|k: int| 0 <= k < i ==> (#[trigger] r.deep_view()[k]).format == fv[k],
                forall|k: int| 0 <= k < i ==> {
                    let t = #[trigger] r.deep_view()[k];
                    &&& t.format == t.mime_type
                    &&& t.paths.len() == 0
                    &&& !t.recommended
                    &&& t.available == producer_available(
                        capsv,
                        t.format,
                        present_tools.deep_view(),
                    )
                    &&& (t.available ==> t.missing_requirements.len() == 0)
                    &&& (!t.available ==> forall|m: Seq<char>|
                        #![trigger t.missing_requirements.contains(m)]
                        t.missing_requirements.contains(m) <==> missing_for(
                            capsv,
                            t.format,
                            present_tools.deep_view(),
                            m,
                        ))
                },
            decreases formats.len() - i,
        {
            let ghost prev = r.deep_view();
            let t = annotate_target(&caps, &formats[i], present_tools);
            r.push(t);
            proof {
                assert(r.deep_view() =~= prev.push(r.deep_view()[prev.len() as int]));
                assert((r.deep_view()[i as int]).format == fv[i as int]);
            }
            i = i + 1;
        }
        proof {
            assert forall|k: int| 0 <= k < r.deep_view().len() implies walk_reach(
                capsv,
                source_mime@,
                (#[trigger] r.deep_view()[k]).format,
                self.max_hops as int,
            ) by {
                assert(r.deep_view()[k].format == fv[k]);
                assert(fv.contains(fv[k]));
            }
            assert forall|to: Seq<char>|
                #![trigger walk_reach(capsv, source_mime@, to, self.max_hops as int)]
                walk_reach(capsv, source_mime@, to, self.max_hops as int) implies
                crate::registry::target_listed(r.deep_view(), to) by {
                assert(fv.contains(to));
                let k = choose|k: int| 0 <= k < fv.len() && fv[k] == to;
                assert((r.deep_view()[k]).format == to);
            }
        }
        r
    }

    /// Composite score of a path; ranking is by quality first.
    pub fn score_path(&self, path: &ConversionPath) -> (r: u32)
        ensures
            r == path@.total_quality,
    {
        path.total_quality
    }
}

} // verus!
