//! The divergence detector: a two-state scan over sampled distances that
//! finds maximal contiguous runs above a threshold, filters out runs shorter
//! than a minimum great-circle length, and emits one record per survivor.

use vstd::prelude::*;

use crate::geom::{
    points_length_mm, polyline_len, valid_point, valid_points, PctaSection, Point, Polyline,
    MAX_GC_MM,
};
use crate::index::{index_dist, IndexedSegment, SpatialIndex};
use crate::sample::{sample_along, sample_spec};

verus! {

/// One sampled point together with its distance to the nearest indexed
/// segment, in millimeters. `u64::MAX` stands for "no segment at all".
#[derive(Clone, Copy, Debug, PartialEq, Eq, Structural)]
pub struct Sample {
    pub point: Point,
    pub dist_mm: u64,
}

/// Whether one sample lies beyond the divergence threshold.
pub open spec fn divergent(s: Sample, threshold_mm: u64) -> bool {
    s.dist_mm > threshold_mm
}

/// The maximal contiguous divergent runs of `samples` from position `i` on,
/// as half-open index ranges in scan order. `start` carries the opening index
/// of a run the scan stands inside, exactly as the two-state automaton does:
/// outside a run when `start` is `None`, inside one opened at `s` when it is
/// `Some(s)`. A run still open at the end of the sequence is closed there.
pub open spec fn scan_runs(
    samples: Seq<Sample>,
    threshold_mm: u64,
    i: int,
    start: Option<int>,
) -> Seq<(int, int)>
    decreases samples.len() - i + 1,
{
    if i < 0 || i >= samples.len() {
        match start {
            Some(s) => seq![(s, samples.len() as int)],
            None => Seq::empty(),
        }
    } else if divergent(samples[i], threshold_mm) {
        scan_runs(
            samples,
            threshold_mm,
            i + 1,
            match start {
                Some(s) => Some(s),
                None => Some(i),
            },
        )
    } else {
        match start {
            Some(s) => seq![(s, i)] + scan_runs(samples, threshold_mm, i + 1, None),
            None => scan_runs(samples, threshold_mm, i + 1, None),
        }
    }
}

/// The maximal contiguous divergent runs of a sample sequence.
pub open spec fn runs(samples: Seq<Sample>, threshold_mm: u64) -> Seq<(int, int)> {
    scan_runs(samples, threshold_mm, 0, None)
}

/// The points of the samples in the half-open range `[s, e)`.
pub open spec fn run_points(samples: Seq<Sample>, s: int, e: int) -> Seq<Point> {
    samples.subrange(s, e).map_values(|x: Sample| x.point)
}

/// The largest sampled distance within `[s, e)`, zero for an empty range.
pub open spec fn max_dist_from(samples: Seq<Sample>, s: int, e: int) -> u64
    decreases e - s,
{
    if s < 0 || s >= e || e > samples.len() {
        0
    } else {
        let rest = max_dist_from(samples, s + 1, e);
        if samples[s].dist_mm >= rest {
            samples[s].dist_mm
        } else {
            rest
        }
    }
}

/// The sum of the sampled distances within `[s, e)`.
pub open spec fn sum_dist_from(samples: Seq<Sample>, s: int, e: int) -> int
    decreases e - s,
{
    if s < 0 || s >= e || e > samples.len() {
        0
    } else {
        samples[s].dist_mm + sum_dist_from(samples, s + 1, e)
    }
}

/// The mathematical content of one divergence record.
pub struct DivergenceModel {
    pub points: Seq<Point>,
    pub section_name: Seq<char>,
    pub max_distance_mm: int,
    pub mean_distance_mm: int,
    pub length_mm: int,
}

/// The record the run `[s, e)` of `samples` gives rise to.
pub open spec fn run_model(
    samples: Seq<Sample>,
    name: Seq<char>,
    s: int,
    e: int,
) -> DivergenceModel {
    DivergenceModel {
        points: run_points(samples, s, e),
        section_name: name,
        max_distance_mm: max_dist_from(samples, s, e) as int,
        mean_distance_mm: sum_dist_from(samples, s, e) / (if e > s {
            e - s
        } else {
            1
        }),
        length_mm: polyline_len(run_points(samples, s, e)),
    }
}

/// Whether the run `[r.0, r.1)` is long enough to be reported.
pub open spec fn qualifies(samples: Seq<Sample>, min_length_mm: u64, r: (int, int)) -> bool {
    polyline_len(run_points(samples, r.0, r.1)) >= min_length_mm
}

/// The records of the runs in `rs` that are long enough, in order.
pub open spec fn recs(
    samples: Seq<Sample>,
    name: Seq<char>,
    min_length_mm: u64,
    rs: Seq<(int, int)>,
) -> Seq<DivergenceModel> {
    rs.filter(|r: (int, int)| qualifies(samples, min_length_mm, r)).map_values(
        |r: (int, int)| run_model(samples, name, r.0, r.1),
    )
}

/// Every record the detector owes for one sample sequence: one per maximal
/// divergent run whose sub-polyline is at least `min_length_mm` long.
pub open spec fn expected_records(
    samples: Seq<Sample>,
    name: Seq<char>,
    threshold_mm: u64,
    min_length_mm: u64,
) -> Seq<DivergenceModel> {
    recs(samples, name, min_length_mm, runs(samples, threshold_mm))
}

/// A detected divergence between the reference dataset and the comparison
/// index: a sub-polyline of one section, with the largest and mean sampled
/// distance over the run and the run's great-circle length.
pub struct Divergence {
    pub pcta_segment: Polyline,
    pub section_name: String,
    pub max_distance_mm: u64,
    pub mean_distance_mm: u64,
    pub length_mm: u128,
}

impl Divergence {
    /// The mathematical content of this record.
    pub open spec fn model(&self) -> DivergenceModel {
        DivergenceModel {
            points: self.pcta_segment.points@,
            section_name: self.section_name@,
            max_distance_mm: self.max_distance_mm as int,
            mean_distance_mm: self.mean_distance_mm as int,
            length_mm: self.length_mm as int,
        }
    }

    pub open spec fn wf(&self) -> bool {
        self.pcta_segment.wf()
    }
}

/// The models of a sequence of records.
pub open spec fn models(ds: Seq<Divergence>) -> Seq<DivergenceModel> {
    ds.map_values(|d: Divergence| d.model())
}

/// `recs` distributes over concatenation of run lists.
proof fn lemma_recs_add(
    samples: Seq<Sample>,
    name: Seq<char>,
    min_length_mm: u64,
    a: Seq<(int, int)>,
    b: Seq<(int, int)>,
)
    ensures
        recs(samples, name, min_length_mm, a + b) == recs(samples, name, min_length_mm, a) + recs(
            samples,
            name,
            min_length_mm,
            b,
        ),
{
    let pred = |r: (int, int)| qualifies(samples, min_length_mm, r);
    let f = |r: (int, int)| run_model(samples, name, r.0, r.1);
    Seq::filter_distributes_over_add(a, b, pred);
    assert((a.filter(pred) + b.filter(pred)).map_values(f) =~= a.filter(pred).map_values(f)
        + b.filter(pred).map_values(f));
}

/// `recs` of a single run keeps it exactly when it is long enough.
proof fn lemma_recs_single(samples: Seq<Sample>, name: Seq<char>, min_length_mm: u64, r: (int, int))
    ensures
        recs(samples, name, min_length_mm, seq![r]) == (if qualifies(samples, min_length_mm, r) {
            seq![run_model(samples, name, r.0, r.1)]
        } else {
            Seq::<DivergenceModel>::empty()
        }),
{
    reveal(Seq::filter);
    let pred = |r: (int, int)| qualifies(samples, min_length_mm, r);
    let f = |r: (int, int)| run_model(samples, name, r.0, r.1);
    let single = seq![r];
    assert(single.drop_last() =~= Seq::<(int, int)>::empty());
    assert(single.last() == r);
    assert(Seq::<(int, int)>::empty().filter(pred) =~= Seq::<(int, int)>::empty());
    if pred(r) {
        assert(single.filter(pred) =~= seq![r]);
        assert(single.filter(pred).map_values(f) =~= seq![run_model(samples, name, r.0, r.1)]);
    } else {
        assert(single.filter(pred) =~= Seq::<(int, int)>::empty());
        assert(single.filter(pred).map_values(f) =~= Seq::<DivergenceModel>::empty());
    }
}

/// A sum of at most `n` distances each at most `u64::MAX` fits `u128`.
proof fn lemma_sum_fits(count: int, bound: int)
    requires
        0 <= count <= 0xffff_ffff_ffff_ffff,
        0 <= bound <= 0xffff_ffff_ffff_ffff,
    ensures
        count * bound <= 0xffff_ffff_ffff_ffff_0000_0000_0000_0001,
{
    assert(count * bound <= 0xffff_ffff_ffff_ffff_0000_0000_0000_0001) by (nonlinear_arith)
        requires
            0 <= count <= 0xffff_ffff_ffff_ffff,
            0 <= bound <= 0xffff_ffff_ffff_ffff,
    ;
}

/// Close the run `[s, e)`: build its sub-polyline, measure it, and append a
/// record to `divergences` exactly when the run is at least `min_length_mm`
/// long.
fn emit_divergence(
    samples: &Vec<Sample>,
    s: usize,
    e: usize,
    section_name: &String,
    min_length_mm: u64,
    divergences: &mut Vec<Divergence>,
)
    requires
        s < e <= samples@.len(),
        forall|k: int| 0 <= k < samples@.len() ==> valid_point(
            (#[trigger] samples@[k]).point,
        ),
        forall|k: int| 0 <= k < old(divergences)@.len() ==> (#[trigger] old(divergences)@[k]).wf(),
    ensures
        models(final(divergences)@) == models(old(divergences)@) + (if qualifies(
            samples@,
            min_length_mm,
            (s as int, e as int),
        ) {
            seq![run_model(samples@, section_name@, s as int, e as int)]
        } else {
            Seq::<DivergenceModel>::empty()
        }),
        forall|k: int| 0 <= k < final(divergences)@.len() ==> (#[trigger] final(divergences)@[k]).wf(),
{
    let ghost sams = samples@;
    let mut pts: Vec<Point> = Vec::new();
    let mut k: usize = s;
    while k < e
        invariant
            s <= k <= e <= sams.len(),
            sams == samples@,
            forall|j: int| 0 <= j < sams.len() ==> valid_point((#[trigger] sams[j]).point),
            pts@ == run_points(sams, s as int, k as int),
            valid_points(pts@),
        decreases e - k,
    {
        pts.push(samples[k].point);
        assert(pts@ =~= run_points(sams, s as int, k as int + 1));
        k = k + 1;
    }
    let length: u128 = points_length_mm(&pts);
    if length < min_length_mm as u128 {
        assert(!qualifies(sams, min_length_mm, (s as int, e as int)));
        assert(models(divergences@) =~= models(divergences@)
            + Seq::<DivergenceModel>::empty());
        return ;
    }
    let mut maxd: u64 = 0;
    let mut sum: u128 = 0;
    let mut k2: usize = s;
    while k2 < e
        invariant
            s <= k2 <= e <= sams.len(),
            sams == samples@,
            (if maxd as int >= max_dist_from(sams, k2 as int, e as int) {
                maxd as int
            } else {
                max_dist_from(sams, k2 as int, e as int) as int
            }) == max_dist_from(sams, s as int, e as int) as int,
            sum as int + sum_dist_from(sams, k2 as int, e as int) == sum_dist_from(
                sams,
                s as int,
                e as int,
            ),
            sum <= (k2 - s) * (u64::MAX as int),
        decreases e - k2,
    {
        let d: u64 = samples[k2].dist_mm;
        if d > maxd {
            maxd = d;
        }
        proof {
            lemma_sum_fits(k2 - s + 1, u64::MAX as int);
            lemma_sum_fits(k2 - s, u64::MAX as int);
        }
        sum = sum + d as u128;
        k2 = k2 + 1;
    }
    let count: u128 = (e - s) as u128;
    proof {
        vstd::arithmetic::mul::lemma_mul_inequality(
            (e - s) as int,
            u64::MAX as int,
            u64::MAX as int,
        );
        lemma_sum_fits((e - s) as int, u64::MAX as int);
        vstd::arithmetic::div_mod::lemma_div_is_ordered(
            sum as int,
            (e - s) as int * (u64::MAX as int),
            (e - s) as int,
        );
        vstd::arithmetic::div_mod::lemma_div_multiples_vanish(
            u64::MAX as int,
            (e - s) as int,
        );
        assert((e - s) as int * (u64::MAX as int) == (e - s) as int * (u64::MAX as int));
    }
    let mean: u64 = (sum / count) as u64;
    let record = Divergence {
        pcta_segment: Polyline { points: pts },
        section_name: section_name.clone(),
        max_distance_mm: maxd,
        mean_distance_mm: mean,
        length_mm: length,
    };
    proof {
        assert(record.model() == run_model(sams, section_name@, s as int, e as int));
    }
    divergences.push(record);
    proof {
        assert(models(divergences@) =~= models(old(divergences)@) + seq![
            run_model(sams, section_name@, s as int, e as int),
        ]);
    }
}


/// Each point of a sequence paired with its distance to the nearest indexed
/// segment.
pub open spec fn attach_dists(segs: Seq<IndexedSegment>, pts: Seq<Point>) -> Seq<Sample> {
    pts.map_values(|p: Point| Sample { point: p, dist_mm: index_dist(segs, p) as u64 })
}

/// The samples the detector scans for one polyline: the polyline sampled at
/// the given interval, each sample point with its nearest-segment distance.
pub open spec fn sampled_with_dists(
    segs: Seq<IndexedSegment>,
    pts: Seq<Point>,
    interval: int,
) -> Seq<Sample> {
    attach_dists(segs, sample_spec(pts, interval))
}

/// The scan state as the ghost automaton carries it.
spec fn opt_int(o: Option<usize>) -> Option<int> {
    match o {
        Some(s) => Some(s as int),
        None => None,
    }
}

/// Find the divergent stretches of one polyline: sample it, look every sample
/// point up in the index, and scan the distances in order for maximal runs
/// above `threshold_mm`, keeping those at least `min_length_mm` long.
pub fn process_linestring(
    ls: &Polyline,
    section_name: &String,
    osm_index: &SpatialIndex,
    threshold_mm: u64,
    min_length_mm: u64,
    sample_interval_mm: u64,
) -> (r: Vec<Divergence>)
    requires
        ls.wf(),
        osm_index.wf(),
        1 <= sample_interval_mm,
        sample_interval_mm + MAX_GC_MM <= u64::MAX,
    ensures
        models(r@) == expected_records(
            sampled_with_dists(osm_index.segments@, ls.points@, sample_interval_mm as int),
            section_name@,
            threshold_mm,
            min_length_mm,
        ),
        forall|k: int| 0 <= k < r@.len() ==> (#[trigger] r@[k]).wf(),
{
    let pts: Vec<Point> = sample_along(ls, sample_interval_mm);
    let ghost segs = osm_index.segments@;
    let ghost spts = pts@;
    let n: usize = pts.len();
    let mut samples: Vec<Sample> = Vec::new();
    let mut k: usize = 0;
    proof {
        assert(samples@ =~= attach_dists(segs, spts.take(0)));
    }
    while k < n
        invariant
            0 <= k <= n,
            n == spts.len(),
            spts == pts@,
            segs == osm_index.segments@,
            osm_index.wf(),
            valid_points(spts),
            samples@ == attach_dists(segs, spts.take(k as int)),
        decreases n - k,
    {
        assert(valid_point(spts[k as int]));
        let d: u64 = osm_index.nearest_distance(&pts[k]);
        samples.push(Sample { point: pts[k], dist_mm: d });
        proof {
            assert(samples@ =~= attach_dists(segs, spts.take(k as int + 1)));
        }
        k = k + 1;
    }
    proof {
        assert(spts.take(n as int) =~= spts);
    }
    let ghost sams = samples@;
    let ghost expected = expected_records(sams, section_name@, threshold_mm, min_length_mm);
    proof {
        assert(sams == sampled_with_dists(segs, ls.points@, sample_interval_mm as int));
        assert(forall|j: int|
            0 <= j < sams.len() ==> valid_point((#[trigger] sams[j]).point)) by {
            assert(forall|j: int|
                0 <= j < sams.len() ==> (#[trigger] sams[j]).point == spts[j]);
        }
    }
    let mut divergences: Vec<Divergence> = Vec::new();
    let mut run_start: Option<usize> = None;
    let mut idx: usize = 0;
    while idx < n
        invariant
            0 <= idx <= n,
            n == sams.len(),
            sams == samples@,
            forall|j: int| 0 <= j < sams.len() ==> valid_point((#[trigger] sams[j]).point),
            expected == expected_records(sams, section_name@, threshold_mm, min_length_mm),
            (match run_start {
                Some(st) => st < idx,
                None => true,
            }),
            models(divergences@) + recs(
                sams,
                section_name@,
                min_length_mm,
                scan_runs(sams, threshold_mm, idx as int, opt_int(run_start)),
            ) == expected,
            forall|j: int| 0 <= j < divergences@.len() ==> (#[trigger] divergences@[j]).wf(),
        decreases n - idx,
    {
        let divergent_now: bool = samples[idx].dist_mm > threshold_mm;
        match run_start {
            None => {
                if divergent_now {
                    proof {
                        assert(scan_runs(sams, threshold_mm, idx as int, None::<int>)
                            == scan_runs(sams, threshold_mm, idx as int + 1, Some(idx as int)));
                    }
                    run_start = Some(idx);
                } else {
                    proof {
                        assert(scan_runs(sams, threshold_mm, idx as int, None::<int>)
                            == scan_runs(sams, threshold_mm, idx as int + 1, None::<int>));
                    }
                }
            },
            Some(st) => {
                if !divergent_now {
                    let ghost tail = scan_runs(sams, threshold_mm, idx as int + 1, None::<int>);
                    proof {
                        assert(scan_runs(sams, threshold_mm, idx as int, Some(st as int))
                            =~= seq![(st as int, idx as int)] + tail);
                        lemma_recs_add(
                            sams,
                            section_name@,
                            min_length_mm,
                            seq![(st as int, idx as int)],
                            tail,
                        );
                        lemma_recs_single(
                            sams,
                            section_name@,
                            min_length_mm,
                            (st as int, idx as int),
                        );
                    }
                    let ghost before = models(divergences@);
                    emit_divergence(
                        &samples,
                        st,
                        idx,
                        section_name,
                        min_length_mm,
                        &mut divergences,
                    );
                    proof {
                        assert(models(divergences@) + recs(sams, section_name@, min_length_mm, tail)
                            =~= before + recs(
                            sams,
                            section_name@,
                            min_length_mm,
                            scan_runs(sams, threshold_mm, idx as int, Some(st as int)),
                        ));
                    }
                    run_start = None;
                } else {
                    proof {
                        assert(scan_runs(sams, threshold_mm, idx as int, Some(st as int))
                            == scan_runs(sams, threshold_mm, idx as int + 1, Some(st as int)));
                    }
                }
            },
        }
        idx = idx + 1;
    }
    match run_start {
        Some(st) => {
            proof {
                assert(scan_runs(sams, threshold_mm, n as int, Some(st as int)) =~= seq![
                    (st as int, n as int),
                ]);
                lemma_recs_single(sams, section_name@, min_length_mm, (st as int, n as int));
            }
            let ghost before = models(divergences@);
            emit_divergence(&samples, st, n, section_name, min_length_mm, &mut divergences);
            proof {
                assert(models(divergences@) =~= before + recs(
                    sams,
                    section_name@,
                    min_length_mm,
                    scan_runs(sams, threshold_mm, n as int, Some(st as int)),
                ));
            }
        },
        None => {
            proof {
                reveal(Seq::filter);
                assert(scan_runs(sams, threshold_mm, n as int, None::<int>) =~= Seq::<
                    (int, int),
                >::empty());
                assert(recs(sams, section_name@, min_length_mm, Seq::<(int, int)>::empty()) =~= Seq::<
                    DivergenceModel,
                >::empty());
                assert(models(divergences@) =~= models(divergences@)
                    + Seq::<DivergenceModel>::empty());
            }
        },
    }
    divergences
}

/// The records owed for the polylines of one section from index `i` on.
pub open spec fn expected_for_lines(
    segs: Seq<IndexedSegment>,
    lines: Seq<Polyline>,
    name: Seq<char>,
    threshold_mm: u64,
    min_length_mm: u64,
    interval: int,
    i: int,
) -> Seq<DivergenceModel>
    decreases lines.len() - i,
{
    if i < 0 || i >= lines.len() {
        Seq::empty()
    } else {
        expected_records(
            sampled_with_dists(segs, lines[i].points@, interval),
            name,
            threshold_mm,
            min_length_mm,
        ) + expected_for_lines(segs, lines, name, threshold_mm, min_length_mm, interval, i + 1)
    }
}

/// The records owed for the sections from index `i` on, section by section,
/// polyline by polyline, in input order.
pub open spec fn expected_divergences(
    segs: Seq<IndexedSegment>,
    sections: Seq<PctaSection>,
    threshold_mm: u64,
    min_length_mm: u64,
    interval: int,
    i: int,
) -> Seq<DivergenceModel>
    decreases sections.len() - i,
{
    if i < 0 || i >= sections.len() {
        Seq::empty()
    } else {
        expected_for_lines(
            segs,
            sections[i].geometry@,
            sections[i].section_name@,
            threshold_mm,
            min_length_mm,
            interval,
            0,
        ) + expected_divergences(segs, sections, threshold_mm, min_length_mm, interval, i + 1)
    }
}

/// Find every divergence between the reference sections and the comparison
/// index: every section's every polyline is sampled, scanned, and its
/// qualifying runs reported, all in input order.
pub fn find_divergences(
    pcta_sections: &Vec<PctaSection>,
    osm_index: &SpatialIndex,
    threshold_mm: u64,
    min_length_mm: u64,
    sample_interval_mm: u64,
) -> (r: Vec<Divergence>)
    requires
        forall|i: int| 0 <= i < pcta_sections@.len() ==> (#[trigger] pcta_sections@[i]).wf(),
        osm_index.wf(),
        1 <= sample_interval_mm,
        sample_interval_mm + MAX_GC_MM <= u64::MAX,
    ensures
        models(r@) == expected_divergences(
            osm_index.segments@,
            pcta_sections@,
            threshold_mm,
            min_length_mm,
            sample_interval_mm as int,
            0,
        ),
        forall|k: int| 0 <= k < r@.len() ==> (#[trigger] r@[k]).wf(),
{
    let ghost segs = osm_index.segments@;
    let ghost secs = pcta_sections@;
    let ghost goal = expected_divergences(
        segs,
        secs,
        threshold_mm,
        min_length_mm,
        sample_interval_mm as int,
        0,
    );
    let mut result: Vec<Divergence> = Vec::new();
    let n: usize = pcta_sections.len();
    let mut i: usize = 0;
    proof {
        assert(models(result@) =~= Seq::<DivergenceModel>::empty());
    }
    while i < n
        invariant
            0 <= i <= n,
            n == secs.len(),
            secs == pcta_sections@,
            segs == osm_index.segments@,
            osm_index.wf(),
            forall|j: int| 0 <= j < secs.len() ==> (#[trigger] secs[j]).wf(),
            1 <= sample_interval_mm,
            sample_interval_mm + MAX_GC_MM <= u64::MAX,
            goal == expected_divergences(
                segs,
                secs,
                threshold_mm,
                min_length_mm,
                sample_interval_mm as int,
                0,
            ),
            models(result@) + expected_divergences(
                segs,
                secs,
                threshold_mm,
                min_length_mm,
                sample_interval_mm as int,
                i as int,
            ) == goal,
            forall|j: int| 0 <= j < result@.len() ==> (#[trigger] result@[j]).wf(),
        decreases n - i,
    {
        let section = &pcta_sections[i];
        let ghost lines = section.geometry@;
        let ghost name = section.section_name@;
        let m: usize = section.geometry.len();
        let mut j: usize = 0;
        while j < m
            invariant
                0 <= j <= m,
                0 <= i < n,
                n == secs.len(),
                secs == pcta_sections@,
                segs == osm_index.segments@,
                osm_index.wf(),
                forall|q: int| 0 <= q < secs.len() ==> (#[trigger] secs[q]).wf(),
                1 <= sample_interval_mm,
                sample_interval_mm + MAX_GC_MM <= u64::MAX,
                section == &pcta_sections[i as int],
                lines == section.geometry@,
                name == section.section_name@,
                m == lines.len(),
                goal == expected_divergences(
                    segs,
                    secs,
                    threshold_mm,
                    min_length_mm,
                    sample_interval_mm as int,
                    0,
                ),
                models(result@) + expected_for_lines(
                    segs,
                    lines,
                    name,
                    threshold_mm,
                    min_length_mm,
                    sample_interval_mm as int,
                    j as int,
                ) + expected_divergences(
                    segs,
                    secs,
                    threshold_mm,
                    min_length_mm,
                    sample_interval_mm as int,
                    i as int + 1,
                ) == goal,
                forall|q: int| 0 <= q < result@.len() ==> (#[trigger] result@[q]).wf(),
            decreases m - j,
        {
            proof {
                assert(secs[i as int].wf());
                assert(lines[j as int].wf());
            }
            let mut divs = process_linestring(
                &section.geometry[j],
                &section.section_name,
                osm_index,
                threshold_mm,
                min_length_mm,
                sample_interval_mm,
            );
            let ghost divs_models = models(divs@);
            let ghost before = models(result@);
            result.append(&mut divs);
            proof {
                assert(models(result@) =~= before + divs_models);
                assert((before + divs_models) + expected_for_lines(
                    segs,
                    lines,
                    name,
                    threshold_mm,
                    min_length_mm,
                    sample_interval_mm as int,
                    j as int + 1,
                ) =~= before + (divs_models + expected_for_lines(
                    segs,
                    lines,
                    name,
                    threshold_mm,
                    min_length_mm,
                    sample_interval_mm as int,
                    j as int + 1,
                )));
                assert(divs_models + expected_for_lines(
                    segs,
                    lines,
                    name,
                    threshold_mm,
                    min_length_mm,
                    sample_interval_mm as int,
                    j as int + 1,
                ) == expected_for_lines(
                    segs,
                    lines,
                    name,
                    threshold_mm,
                    min_length_mm,
                    sample_interval_mm as int,
                    j as int,
                ));
                assert((before + expected_for_lines(
                    segs,
                    lines,
                    name,
                    threshold_mm,
                    min_length_mm,
                    sample_interval_mm as int,
                    j as int,
                )) + expected_divergences(
                    segs,
                    secs,
                    threshold_mm,
                    min_length_mm,
                    sample_interval_mm as int,
                    i as int + 1,
                ) =~= (before + (expected_for_lines(
                    segs,
                    lines,
                    name,
                    threshold_mm,
                    min_length_mm,
                    sample_interval_mm as int,
                    j as int,
                ) + expected_divergences(
                    segs,
                    secs,
                    threshold_mm,
                    min_length_mm,
                    sample_interval_mm as int,
                    i as int + 1,
                ))));
                assert((models(result@) + expected_for_lines(
                    segs,
                    lines,
                    name,
                    threshold_mm,
                    min_length_mm,
                    sample_interval_mm as int,
                    j as int + 1,
                )) + expected_divergences(
                    segs,
                    secs,
                    threshold_mm,
                    min_length_mm,
                    sample_interval_mm as int,
                    i as int + 1,
                ) =~= models(result@) + (expected_for_lines(
                    segs,
                    lines,
                    name,
                    threshold_mm,
                    min_length_mm,
                    sample_interval_mm as int,
                    j as int + 1,
                ) + expected_divergences(
                    segs,
                    secs,
                    threshold_mm,
                    min_length_mm,
                    sample_interval_mm as int,
                    i as int + 1,
                )));
            }
            j = j + 1;
        }
        proof {
            assert(expected_for_lines(
                segs,
                lines,
                name,
                threshold_mm,
                min_length_mm,
                sample_interval_mm as int,
                j as int,
            ) =~= Seq::<DivergenceModel>::empty());
            assert(models(result@) + (Seq::<DivergenceModel>::empty() + expected_divergences(
                segs,
                secs,
                threshold_mm,
                min_length_mm,
                sample_interval_mm as int,
                i as int + 1,
            )) =~= (models(result@) + Seq::<DivergenceModel>::empty()) + expected_divergences(
                segs,
                secs,
                threshold_mm,
                min_length_mm,
                sample_interval_mm as int,
                i as int + 1,
            ));
            assert(Seq::<DivergenceModel>::empty() + expected_divergences(
                segs,
                secs,
                threshold_mm,
                min_length_mm,
                sample_interval_mm as int,
                i as int + 1,
            ) =~= expected_divergences(
                segs,
                secs,
                threshold_mm,
                min_length_mm,
                sample_interval_mm as int,
                i as int + 1,
            ));
            assert(models(result@) + Seq::<DivergenceModel>::empty() =~= models(result@));
        }
        i = i + 1;
    }
    proof {
        assert(expected_divergences(
            segs,
            secs,
            threshold_mm,
            min_length_mm,
            sample_interval_mm as int,
            i as int,
        ) =~= Seq::<DivergenceModel>::empty());
        assert(models(result@) + Seq::<DivergenceModel>::empty() =~= models(result@));
    }
    result
}


/// The index of the first non-divergent sample at or after `i`, or the
/// sequence's length where the divergent stretch runs to the end.
pub open spec fn run_end(samples: Seq<Sample>, threshold_mm: u64, i: int) -> int
    decreases samples.len() - i,
{
    if i < 0 || i >= samples.len() {
        samples.len() as int
    } else if !divergent(samples[i], threshold_mm) {
        i
    } else {
        run_end(samples, threshold_mm, i + 1)
    }
}

proof fn lemma_run_end_props(samples: Seq<Sample>, threshold_mm: u64, i: int)
    requires
        0 <= i <= samples.len(),
    ensures
        i <= run_end(samples, threshold_mm, i) <= samples.len(),
        forall|k: int|
            i <= k < run_end(samples, threshold_mm, i) ==> divergent(
                #[trigger] samples[k],
                threshold_mm,
            ),
        run_end(samples, threshold_mm, i) < samples.len() ==> !divergent(
            samples[run_end(samples, threshold_mm, i)],
            threshold_mm,
        ),
    decreases samples.len() - i,
{
    if i < samples.len() && divergent(samples[i], threshold_mm) {
        lemma_run_end_props(samples, threshold_mm, i + 1);
    }
}

/// Scanning from outside a run passes over a stretch of non-divergent
/// samples without effect.
proof fn lemma_scan_skip(samples: Seq<Sample>, threshold_mm: u64, i: int, j: int)
    requires
        0 <= i <= j <= samples.len(),
        forall|k: int| i <= k < j ==> !divergent(#[trigger] samples[k], threshold_mm),
    ensures
        scan_runs(samples, threshold_mm, i, None) == scan_runs(samples, threshold_mm, j, None),
    decreases j - i,
{
    if i < j {
        lemma_scan_skip(samples, threshold_mm, i + 1, j);
    }
}

/// Scanning from inside a run opened at `s` closes it at the first
/// non-divergent sample (or the end of the sequence).
proof fn lemma_scan_close(samples: Seq<Sample>, threshold_mm: u64, i: int, j: int, st: int)
    requires
        0 <= i <= j <= samples.len(),
        forall|k: int| i <= k < j ==> divergent(#[trigger] samples[k], threshold_mm),
        j == samples.len() || !divergent(samples[j], threshold_mm),
    ensures
        scan_runs(samples, threshold_mm, i, Some(st)) == (if j == samples.len() {
            seq![(st, j)]
        } else {
            seq![(st, j)] + scan_runs(samples, threshold_mm, j + 1, None)
        }),
    decreases j - i,
{
    if i < j {
        lemma_scan_close(samples, threshold_mm, i + 1, j, st);
    }
}

/// Scanning from outside a run at a divergent sample yields that maximal run
/// first, then whatever follows it.
proof fn lemma_scan_run(samples: Seq<Sample>, threshold_mm: u64, i: int, j: int)
    requires
        0 <= i < j <= samples.len(),
        forall|k: int| i <= k < j ==> divergent(#[trigger] samples[k], threshold_mm),
        j == samples.len() || !divergent(samples[j], threshold_mm),
    ensures
        scan_runs(samples, threshold_mm, i, None) == (if j == samples.len() {
            seq![(i, j)]
        } else {
            seq![(i, j)] + scan_runs(samples, threshold_mm, j + 1, None)
        }),
{
    lemma_scan_close(samples, threshold_mm, i + 1, j, i);
}

/// When no sample strays beyond the threshold, the detector owes nothing:
/// comparing a polyline that stays within `threshold_mm` of the indexed
/// dataset yields zero divergence records, whatever the minimum length.
pub proof fn lemma_no_divergence_when_within(
    samples: Seq<Sample>,
    name: Seq<char>,
    threshold_mm: u64,
    min_length_mm: u64,
)
    requires
        forall|k: int| 0 <= k < samples.len() ==> (#[trigger] samples[k]).dist_mm <= threshold_mm,
    ensures
        expected_records(samples, name, threshold_mm, min_length_mm) == Seq::<
            DivergenceModel,
        >::empty(),
{
    lemma_scan_skip(samples, threshold_mm, 0, samples.len() as int);
    reveal(Seq::filter);
    assert(runs(samples, threshold_mm) =~= Seq::<(int, int)>::empty());
    assert(expected_records(samples, name, threshold_mm, min_length_mm) =~= Seq::<
        DivergenceModel,
    >::empty());
}

/// When every sample strays beyond the threshold, the detector owes exactly
/// one run spanning every sample, reported exactly when that run's length
/// reaches the minimum.
pub proof fn lemma_single_run_when_all_beyond(
    samples: Seq<Sample>,
    name: Seq<char>,
    threshold_mm: u64,
    min_length_mm: u64,
)
    requires
        samples.len() > 0,
        forall|k: int| 0 <= k < samples.len() ==> (#[trigger] samples[k]).dist_mm > threshold_mm,
    ensures
        expected_records(samples, name, threshold_mm, min_length_mm) == (if qualifies(
            samples,
            min_length_mm,
            (0, samples.len() as int),
        ) {
            seq![run_model(samples, name, 0, samples.len() as int)]
        } else {
            Seq::<DivergenceModel>::empty()
        }),
{
    lemma_scan_run(samples, threshold_mm, 0, samples.len() as int);
    lemma_recs_single(samples, name, min_length_mm, (0, samples.len() as int));
}

/// Every reported divergence is at least `min_length_mm` long: a run shorter
/// than the minimum is never emitted.
pub proof fn lemma_records_reach_min_length(
    samples: Seq<Sample>,
    name: Seq<char>,
    threshold_mm: u64,
    min_length_mm: u64,
)
    ensures
        forall|k: int|
            0 <= k < expected_records(samples, name, threshold_mm, min_length_mm).len()
                ==> (#[trigger] expected_records(samples, name, threshold_mm, min_length_mm)[k]).length_mm
                >= min_length_mm,
{
    let rs = runs(samples, threshold_mm);
    let pred = |r: (int, int)| qualifies(samples, min_length_mm, r);
    let f = |r: (int, int)| run_model(samples, name, r.0, r.1);
    let kept = rs.filter(pred);
    assert forall|k: int|
        0 <= k < expected_records(samples, name, threshold_mm, min_length_mm).len() implies (
    #[trigger] expected_records(samples, name, threshold_mm, min_length_mm)[k]).length_mm
        >= min_length_mm by {
        rs.lemma_filter_pred(pred, k);
        assert(expected_records(samples, name, threshold_mm, min_length_mm)[k] == f(kept[k]));
    }
}

/// A maximal divergent run: every sample within it strays beyond the
/// threshold, and it can be extended in neither direction.
pub open spec fn is_maximal_run(samples: Seq<Sample>, threshold_mm: u64, s: int, e: int) -> bool {
    &&& 0 <= s < e <= samples.len()
    &&& (forall|k: int| s <= k < e ==> divergent(#[trigger] samples[k], threshold_mm))
    &&& (s == 0 || !divergent(samples[s - 1], threshold_mm))
    &&& (e == samples.len() || !divergent(samples[e], threshold_mm))
}

/// Every maximal run appears in the scan, from any outside position at or
/// before its start with nothing but whole runs in between.
proof fn lemma_scan_contains(samples: Seq<Sample>, threshold_mm: u64, i: int, s: int, e: int)
    requires
        0 <= i <= s,
        i == 0 || !divergent(samples[i - 1], threshold_mm),
        is_maximal_run(samples, threshold_mm, s, e),
    ensures
        scan_runs(samples, threshold_mm, i, None).contains((s, e)),
    decreases s - i,
{
    if i == s {
        lemma_scan_run(samples, threshold_mm, s, e);
        if e == samples.len() {
            assert(scan_runs(samples, threshold_mm, i, None)[0] == (s, e));
        } else {
            assert((seq![(s, e)] + scan_runs(samples, threshold_mm, e + 1, None))[0] == (s, e));
        }
    } else if !divergent(samples[i], threshold_mm) {
        lemma_scan_contains(samples, threshold_mm, i + 1, s, e);
    } else {
        let j = run_end(samples, threshold_mm, i);
        lemma_run_end_props(samples, threshold_mm, i);
        assert(!divergent(samples[s - 1], threshold_mm));
        assert(j <= s - 1);
        lemma_scan_run(samples, threshold_mm, i, j);
        lemma_scan_contains(samples, threshold_mm, j + 1, s, e);
        let rest = scan_runs(samples, threshold_mm, j + 1, None);
        let w = choose|w: int| 0 <= w < rest.len() && rest[w] == (s, e);
        assert((seq![(i, j)] + rest)[w + 1] == (s, e));
    }
}

/// Every maximal divergent run whose sub-polyline reaches the minimum length
/// is reported: its record stands among the owed records.
pub proof fn lemma_long_run_reported(
    samples: Seq<Sample>,
    name: Seq<char>,
    threshold_mm: u64,
    min_length_mm: u64,
    s: int,
    e: int,
)
    requires
        is_maximal_run(samples, threshold_mm, s, e),
        polyline_len(run_points(samples, s, e)) >= min_length_mm,
    ensures
        exists|k: int|
            0 <= k < expected_records(samples, name, threshold_mm, min_length_mm).len()
                && expected_records(samples, name, threshold_mm, min_length_mm)[k] == run_model(
                samples,
                name,
                s,
                e,
            ),
{
    lemma_scan_contains(samples, threshold_mm, 0, s, e);
    let rs = runs(samples, threshold_mm);
    let pred = |r: (int, int)| qualifies(samples, min_length_mm, r);
    let f = |r: (int, int)| run_model(samples, name, r.0, r.1);
    let w = choose|w: int| 0 <= w < rs.len() && rs[w] == (s, e);
    rs.lemma_filter_contains(pred, w);
    let kept = rs.filter(pred);
    let v = choose|v: int| 0 <= v < kept.len() && kept[v] == (s, e);
    assert(expected_records(samples, name, threshold_mm, min_length_mm)[v] == f((s, e)));
}

/// Two maximal divergent runs separated by a converged stretch, both long
/// enough, are reported as exactly two records, in order — never merged.
pub proof fn lemma_two_runs_two_records(
    samples: Seq<Sample>,
    name: Seq<char>,
    threshold_mm: u64,
    min_length_mm: u64,
    a: int,
    b: int,
    c: int,
    d: int,
)
    requires
        0 <= a < b < c < d <= samples.len(),
        forall|k: int| 0 <= k < a ==> !divergent(#[trigger] samples[k], threshold_mm),
        forall|k: int| a <= k < b ==> divergent(#[trigger] samples[k], threshold_mm),
        forall|k: int| b <= k < c ==> !divergent(#[trigger] samples[k], threshold_mm),
        forall|k: int| c <= k < d ==> divergent(#[trigger] samples[k], threshold_mm),
        forall|k: int| d <= k < samples.len() ==> !divergent(#[trigger] samples[k], threshold_mm),
        qualifies(samples, min_length_mm, (a, b)),
        qualifies(samples, min_length_mm, (c, d)),
    ensures
        expected_records(samples, name, threshold_mm, min_length_mm) == seq![
            run_model(samples, name, a, b),
            run_model(samples, name, c, d),
        ],
{
    let n = samples.len() as int;
    lemma_scan_skip(samples, threshold_mm, 0, a);
    lemma_scan_run(samples, threshold_mm, a, b);
    lemma_scan_skip(samples, threshold_mm, b + 1, c);
    lemma_scan_run(samples, threshold_mm, c, d);
    if d < n {
        lemma_scan_skip(samples, threshold_mm, d + 1, n);
    }
    assert(runs(samples, threshold_mm) =~= seq![(a, b), (c, d)]);
    assert(seq![(a, b), (c, d)] =~= seq![(a, b)] + seq![(c, d)]);
    lemma_recs_add(samples, name, min_length_mm, seq![(a, b)], seq![(c, d)]);
    lemma_recs_single(samples, name, min_length_mm, (a, b));
    lemma_recs_single(samples, name, min_length_mm, (c, d));
    assert(recs(samples, name, min_length_mm, seq![(a, b)] + seq![(c, d)]) == recs(
        samples,
        name,
        min_length_mm,
        runs(samples, threshold_mm),
    ));
    assert(seq![run_model(samples, name, a, b)] + seq![run_model(samples, name, c, d)] =~= seq![
        run_model(samples, name, a, b),
        run_model(samples, name, c, d),
    ]);
}


/// Against an empty index every sample is unboundedly far away, so a
/// non-empty polyline degrades to a single run spanning every sample:
/// reported when that run is long enough, silently dropped otherwise.
pub proof fn lemma_empty_index_degrades(
    pts: Seq<Point>,
    name: Seq<char>,
    threshold_mm: u64,
    min_length_mm: u64,
    interval: int,
)
    requires
        sample_spec(pts, interval).len() > 0,
        threshold_mm < u64::MAX,
    ensures
        ({
            let samples = sampled_with_dists(Seq::empty(), pts, interval);
            expected_records(samples, name, threshold_mm, min_length_mm) == (if qualifies(
                samples,
                min_length_mm,
                (0, samples.len() as int),
            ) {
                seq![run_model(samples, name, 0, samples.len() as int)]
            } else {
                Seq::<DivergenceModel>::empty()
            })
        }),
{
    let samples = sampled_with_dists(Seq::empty(), pts, interval);
    assert forall|k: int| 0 <= k < samples.len() implies (#[trigger] samples[k]).dist_mm
        > threshold_mm by {
        assert(samples[k].dist_mm == index_dist(Seq::empty(), sample_spec(pts, interval)[k]) as u64);
    }
    lemma_single_run_when_all_beyond(samples, name, threshold_mm, min_length_mm);
}

} // verus!



