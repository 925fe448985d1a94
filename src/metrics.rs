//! Summary statistics of one reporting tick, computed from a cumulative
//! snapshot of the recorded metrics. Durations are in nanoseconds, sizes in
//! bytes, timestamps in nanoseconds since the Unix epoch.
use vstd::prelude::*;
use vstd::string::StringExecFns;
use crate::format::{div_round_even, push_decimal, decimal};
use crate::number::{parse_unsigned, parsed_unsigned};
use crate::stats::{percentile, percentile_of};

verus! {

/// The class of an HTTP status code.
#[derive(Debug, Clone, Copy, PartialEq, Eq, Structural)]
pub enum StatusClass {
    S2xx,
    S3xx,
    S4xx,
    S5xx,
    /// Any code outside 200..=599; counted in the total only.
    Other,
}

pub open spec fn class_of_code(code: nat) -> StatusClass {
    if 200 <= code <= 299 {
        StatusClass::S2xx
    } else if 300 <= code <= 399 {
        StatusClass::S3xx
    } else if 400 <= code <= 499 {
        StatusClass::S4xx
    } else if 500 <= code <= 599 {
        StatusClass::S5xx
    } else {
        StatusClass::Other
    }
}

/// The class of a status recorded as text, if the text is a 16-bit code.
pub open spec fn class_of_text(s: Seq<char>) -> Option<StatusClass> {
    match parsed_unsigned(s, 65535) {
        Some(code) => Some(class_of_code(code)),
        None => None,
    }
}

/// Classifies a recorded status attribute.
pub fn status_key(status: &str) -> (r: Option<StatusClass>)
    ensures
        r == class_of_text(status@),
{
    match parse_unsigned(status, 65535) {
        Some(code) => Some(
            if 200 <= code && code <= 299 {
                StatusClass::S2xx
            } else if 300 <= code && code <= 399 {
                StatusClass::S3xx
            } else if 400 <= code && code <= 499 {
                StatusClass::S4xx
            } else if 500 <= code && code <= 599 {
                StatusClass::S5xx
            } else {
                StatusClass::Other
            },
        ),
        None => None,
    }
}

/// One data point of the request-duration histogram: the requests recorded
/// with one attribute set.
#[derive(Debug, Clone)]
pub struct DurationPoint {
    /// The `status` attribute, when the point carries one.
    pub status: Option<String>,
    pub count: u64,
    /// Sum of the durations, in nanoseconds.
    pub sum: u64,
    pub min: Option<u64>,
    pub max: Option<u64>,
    pub bounds: Vec<u64>,
    pub bucket_counts: Vec<u64>,
}

/// The class of a data point, if its status attribute is present and valid.
pub open spec fn point_class(p: DurationPoint) -> Option<StatusClass> {
    match p.status {
        Some(s) => class_of_text(s@),
        None => None,
    }
}

/// Requests of class `c` among the first `n` points.
pub open spec fn class_total(pts: Seq<DurationPoint>, c: StatusClass, n: int) -> int
    decreases n,
{
    if n <= 0 {
        0
    } else {
        class_total(pts, c, n - 1) + if point_class(pts[n - 1]) == Some(c) {
            pts[n - 1].count as int
        } else {
            0
        }
    }
}

/// Requests among the first `n` points.
pub open spec fn all_total(pts: Seq<DurationPoint>, n: int) -> int
    decreases n,
{
    if n <= 0 {
        0
    } else {
        all_total(pts, n - 1) + pts[n - 1].count
    }
}

/// Duration sum over the first `n` points.
pub open spec fn sum_total(pts: Seq<DurationPoint>, n: int) -> int
    decreases n,
{
    if n <= 0 {
        0
    } else {
        sum_total(pts, n - 1) + pts[n - 1].sum
    }
}

/// Index of the first 2xx point, or `pts.len()`.
pub open spec fn first_2xx(pts: Seq<DurationPoint>, i: nat) -> nat
    decreases pts.len() - i,
{
    if i >= pts.len() {
        pts.len()
    } else if point_class(pts[i as int]) == Some(StatusClass::S2xx) {
        i
    } else {
        first_2xx(pts, i + 1)
    }
}

/// Bucket `j` of the 2xx histogram over the first `n` points.
pub open spec fn bucket_total(pts: Seq<DurationPoint>, n: int, j: int) -> int
    decreases n,
{
    if n <= 0 {
        0
    } else {
        bucket_total(pts, n - 1, j) + if point_class(pts[n - 1]) == Some(StatusClass::S2xx) {
            pts[n - 1].bucket_counts@[j] as int
        } else {
            0
        }
    }
}

/// Every point has a valid status.
pub open spec fn all_classified(pts: Seq<DurationPoint>) -> bool {
    forall|i: int| 0 <= i < pts.len() ==> (#[trigger] point_class(pts[i])) is Some
}

/// The 2xx points share the boundaries and bucket count of the first one,
/// and the totals fit in 64 bits.
pub open spec fn consistent(pts: Seq<DurationPoint>) -> bool {
    let f = first_2xx(pts, 0);
    &&& all_total(pts, pts.len() as int) <= u64::MAX
    &&& f < pts.len() ==> {
        let l = pts[f as int].bucket_counts@.len();
        &&& forall|i: int|
            0 <= i < pts.len() && point_class(pts[i]) == Some(StatusClass::S2xx)
                ==> #[trigger] pts[i].bucket_counts@.len() == l && pts[i].bounds@ == pts[f as int].bounds@
        &&& forall|j: int| 0 <= j < l ==> #[trigger] bucket_total(pts, pts.len() as int, j) <= u64::MAX
    }
}

/// Why a snapshot could not be summarized.
#[derive(Debug, Clone, Copy, PartialEq, Eq, Structural)]
pub enum MetricsError {
    /// A data point has no status attribute, or one that is not a status code.
    BadStatus,
    /// The 2xx points disagree on their buckets, or a total exceeds 64 bits.
    Inconsistent,
}

/// The request-duration histogram of one tick, partitioned by status class,
/// with the count and time of the previous tick.
#[derive(Debug, Clone)]
pub struct RequestDurationSecondsMetrics {
    points: Vec<DurationPoint>,
    counts: Vec<u64>,
    total: u64,
    duration_sum: u128,
    has_2xx: bool,
    bounds_2xx: Vec<u64>,
    buckets_2xx: Vec<u64>,
    last_count: u64,
    last_ts: u64,
}

pub open spec fn class_index(c: StatusClass) -> int {
    match c {
        StatusClass::S2xx => 0,
        StatusClass::S3xx => 1,
        StatusClass::S4xx => 2,
        StatusClass::S5xx => 3,
        StatusClass::Other => 4,
    }
}

proof fn lemma_totals_monotone(pts: Seq<DurationPoint>, m: int, n: int)
    requires
        0 <= m <= n,
    ensures
        all_total(pts, m) <= all_total(pts, n),
        forall|c: StatusClass| #[trigger] class_total(pts, c, m) <= class_total(pts, c, n),
        forall|j: int| #[trigger] bucket_total(pts, m, j) <= bucket_total(pts, n, j),
    decreases n - m,
{
    if m < n {
        lemma_totals_monotone(pts, m, n - 1);
        assert forall|c: StatusClass| #[trigger] class_total(pts, c, n - 1) <= class_total(
            pts,
            c,
            n,
        ) by {}
        assert forall|j: int| #[trigger] bucket_total(pts, n - 1, j) <= bucket_total(pts, n, j) by {}
    }
}

proof fn lemma_class_le_all(pts: Seq<DurationPoint>, n: int)
    ensures
        forall|c: StatusClass| #[trigger] class_total(pts, c, n) <= all_total(pts, n),
    decreases n,
{
    if n > 0 {
        lemma_class_le_all(pts, n - 1);
        assert forall|c: StatusClass| #[trigger] class_total(pts, c, n) <= all_total(pts, n) by {
            assert(class_total(pts, c, n - 1) <= all_total(pts, n - 1));
        }
    }
}

proof fn lemma_first_2xx(pts: Seq<DurationPoint>, i: nat)
    requires
        i <= pts.len(),
        forall|k: int| 0 <= k < i ==> point_class(#[trigger] pts[k]) != Some(StatusClass::S2xx),
    ensures
        first_2xx(pts, 0) == first_2xx(pts, i),
    decreases i,
{
    if i > 0 {
        lemma_first_2xx(pts, (i - 1) as nat);
    }
}

impl RequestDurationSecondsMetrics {
    pub closed spec fn spec_points(&self) -> Seq<DurationPoint> {
        self.points@
    }

    pub closed spec fn spec_last_count(&self) -> u64 {
        self.last_count
    }

    pub closed spec fn spec_last_ts(&self) -> u64 {
        self.last_ts
    }

    pub closed spec fn wf(&self) -> bool {
        let pts = self.points@;
        let f = first_2xx(pts, 0);
        &&& all_classified(pts)
        &&& consistent(pts)
        &&& self.total == all_total(pts, pts.len() as int)
        &&& self.counts@.len() == 5
        &&& forall|c: StatusClass| #[trigger]
            self.counts@[class_index(c)] == class_total(pts, c, pts.len() as int)
        &&& self.duration_sum == sum_total(pts, pts.len() as int)
        &&& self.has_2xx == (f < pts.len())
        &&& self.has_2xx ==> {
            &&& self.bounds_2xx@ == pts[f as int].bounds@
            &&& self.buckets_2xx@.len() == pts[f as int].bucket_counts@.len()
            &&& forall|j: int|
                0 <= j < self.buckets_2xx@.len() ==> #[trigger] self.buckets_2xx@[j]
                    == bucket_total(pts, pts.len() as int, j)
        }
    }

    /// The 2xx histogram's bucket counts: bucket by bucket, the sum over all
    /// 2xx points.
    pub open spec fn spec_buckets_2xx(&self) -> Seq<u64> {
        let pts = self.spec_points();
        let f = first_2xx(pts, 0);
        Seq::new(
            pts[f as int].bucket_counts@.len(),
            |j: int| bucket_total(pts, pts.len() as int, j) as u64,
        )
    }

    /// The 2xx histogram's boundaries, which all 2xx points share.
    pub open spec fn spec_bounds_2xx(&self) -> Seq<u64> {
        let pts = self.spec_points();
        pts[first_2xx(pts, 0) as int].bounds@
    }

    /// Some point has a 2xx status.
    pub open spec fn spec_has_2xx(&self) -> bool {
        first_2xx(self.spec_points(), 0) < self.spec_points().len()
    }
}

fn copy_counts(v: &Vec<u64>) -> (r: Vec<u64>)
    ensures
        r@ == v@,
{
    let mut r: Vec<u64> = Vec::new();
    let mut i: usize = 0;
    while i < v.len()
        invariant
            i <= v.len(),
            r@ == v@.subrange(0, i as int),
        decreases v.len() - i,
    {
        r.push(v[i]);
        i = i + 1;
        proof {
            assert(r@ =~= v@.subrange(0, i as int));
        }
    }
    proof {
        assert(v@.subrange(0, v.len() as int) =~= v@);
    }
    r
}

fn same_values(a: &Vec<u64>, b: &Vec<u64>) -> (r: bool)
    ensures
        r == (a@ == b@),
{
    if a.len() != b.len() {
        return false;
    }
    let mut i: usize = 0;
    while i < a.len()
        invariant
            i <= a@.len(),
            a@.len() == b@.len(),
            forall|k: int| 0 <= k < i ==> a@[k] == b@[k],
        decreases a@.len() - i,
    {
        if a[i] != b[i] {
            return false;
        }
        i = i + 1;
    }
    proof {
        assert(a@ =~= b@);
    }
    true
}

fn class_slot(c: StatusClass) -> (r: usize)
    ensures
        r == class_index(c),
{
    match c {
        StatusClass::S2xx => 0,
        StatusClass::S3xx => 1,
        StatusClass::S4xx => 2,
        StatusClass::S5xx => 3,
        StatusClass::Other => 4,
    }
}

proof fn lemma_sum_total_bound(pts: Seq<DurationPoint>, n: int)
    requires
        0 <= n,
    ensures
        sum_total(pts, n) <= n * u64::MAX,
    decreases n,
{
    if n > 0 {
        lemma_sum_total_bound(pts, n - 1);
    }
}

impl RequestDurationSecondsMetrics {
    /// Summarizes the data points of one tick, given the cumulative count
    /// and the time of the previous tick.
    pub fn try_from_points(points: Vec<DurationPoint>, last_count: u64, last_ts: u64) -> (r: Result<
        RequestDurationSecondsMetrics,
        MetricsError,
    >)
        ensures
            r is Err ==> !all_classified(points@) || !consistent(points@),
            r == Err::<RequestDurationSecondsMetrics, MetricsError>(MetricsError::BadStatus)
                <==> !all_classified(points@),
            r == Err::<RequestDurationSecondsMetrics, MetricsError>(MetricsError::Inconsistent)
                <==> all_classified(points@) && !consistent(points@),
            r matches Ok(m) ==> {
                &&& m.wf()
                &&& m.spec_points() == points@
                &&& m.spec_last_count() == last_count
                &&& m.spec_last_ts() == last_ts
            },
    {
        let n = points.len();
        let mut classes: Vec<StatusClass> = Vec::new();
        let mut i: usize = 0;
        while i < n
            invariant
                n == points.len(),
                i <= n,
                classes.len() == i,
                forall|k: int| 0 <= k < i ==> point_class(#[trigger] points@[k]) == Some(classes@[k]),
            decreases n - i,
        {
            let c = match &points[i].status {
                Some(s) => status_key(s.as_str()),
                None => None,
            };
            match c {
                Some(c) => classes.push(c),
                None => {
                    proof {
                        assert(point_class(points@[i as int]) is None);
                    }
                    return Err(MetricsError::BadStatus);
                },
            }
            i = i + 1;
        }
        let ghost pts = points@;
        let mut counts: Vec<u64> = vec![0, 0, 0, 0, 0];
        let mut total: u64 = 0;
        let mut duration_sum: u128 = 0;
        let mut has_2xx = false;
        let mut bounds_2xx: Vec<u64> = Vec::new();
        let mut buckets_2xx: Vec<u64> = Vec::new();
        let ghost mut f: int = n as int;
        let mut i: usize = 0;
        while i < n
            invariant
                n == points.len(),
                pts == points@,
                i <= n,
                classes.len() == n,
                all_classified(pts),
                forall|k: int| 0 <= k < n ==> point_class(#[trigger] pts[k]) == Some(classes@[k]),
                counts@.len() == 5,
                total == all_total(pts, i as int),
                forall|c: StatusClass| #[trigger] counts@[class_index(c)] == class_total(
                    pts,
                    c,
                    i as int,
                ),
                duration_sum == sum_total(pts, i as int),
                has_2xx == (f < i),
                !has_2xx ==> f == n,
                has_2xx ==> f == first_2xx(pts, 0) && 0 <= f < n,
                !has_2xx ==> forall|k: int|
                    0 <= k < i ==> point_class(#[trigger] pts[k]) != Some(StatusClass::S2xx),
                !has_2xx ==> forall|j: int| #[trigger] bucket_total(pts, i as int, j) == 0,
                has_2xx ==> {
                    &&& bounds_2xx@ == pts[f].bounds@
                    &&& buckets_2xx@.len() == pts[f].bucket_counts@.len()
                    &&& forall|j: int|
                        0 <= j < buckets_2xx@.len() ==> #[trigger] buckets_2xx@[j] == bucket_total(
                            pts,
                            i as int,
                            j,
                        )
                    &&& forall|k: int|
                        0 <= k < i && point_class(pts[k]) == Some(StatusClass::S2xx)
                            ==> #[trigger] pts[k].bucket_counts@.len() == buckets_2xx@.len()
                            && pts[k].bounds@ == bounds_2xx@
                },
            decreases n - i,
        {
            let p = &points[i];
            let c = classes[i];
            proof {
                assert(*p == pts[i as int]);
                lemma_totals_monotone(pts, i + 1, n as int);
                lemma_class_le_all(pts, i + 1);
                lemma_class_le_all(pts, i as int);
                lemma_sum_total_bound(pts, i + 1);
                assert((i + 1) * u64::MAX <= u64::MAX * u64::MAX) by (nonlinear_arith)
                    requires
                        i + 1 <= u64::MAX,
                ;
            }
            if p.count > u64::MAX - total {
                return Err(MetricsError::Inconsistent);
            }
            total = total + p.count;
            let k = class_slot(c);
            proof {
                assert(counts@[class_index(c)] == class_total(pts, c, i as int));
            }
            let updated = counts[k] + p.count;
            counts.set(k, updated);
            duration_sum = duration_sum + p.sum as u128;
            if c == StatusClass::S2xx {
                if !has_2xx {
                    proof {
                        f = i as int;
                        lemma_first_2xx(pts, i as nat);
                    }
                    has_2xx = true;
                    bounds_2xx = copy_counts(&p.bounds);
                    buckets_2xx = copy_counts(&p.bucket_counts);
                    proof {
                        assert forall|k: int|
                            0 <= k < i + 1 && point_class(pts[k]) == Some(
                                StatusClass::S2xx,
                            ) implies #[trigger] pts[k].bucket_counts@.len() == buckets_2xx@.len()
                            && pts[k].bounds@ == bounds_2xx@ by {
                            if k < i {
                                assert(point_class(pts[k]) != Some(StatusClass::S2xx));
                            }
                        }
                        assert forall|j: int|
                            0 <= j < buckets_2xx@.len() implies #[trigger] buckets_2xx@[j]
                            == bucket_total(pts, i + 1, j) by {
                            assert(bucket_total(pts, i as int, j) == 0);
                        }
                    }
                } else {
                    if !same_values(&p.bounds, &bounds_2xx) {
                        proof {
                            assert(point_class(pts[i as int]) == Some(StatusClass::S2xx));
                            assert(bounds_2xx@ == pts[f].bounds@);
                            assert(p.bounds@ == pts[i as int].bounds@);
                            assert(pts[f].bounds@ != pts[i as int].bounds@);
                            if consistent(pts) {
                                assert(pts[i as int].bucket_counts@.len()
                                    == pts[f].bucket_counts@.len() && pts[i as int].bounds@
                                    == pts[f].bounds@);
                            }
                        }
                        return Err(MetricsError::Inconsistent);
                    }
                    if p.bucket_counts.len() != buckets_2xx.len() {
                        proof {
                            assert(pts[f].bucket_counts@.len() != pts[i as int].bucket_counts@.len());
                        }
                        return Err(MetricsError::Inconsistent);
                    }
                    proof {
                        assert(p.bounds@ == bounds_2xx@);
                        assert forall|k: int|
                            0 <= k < i + 1 && point_class(pts[k]) == Some(
                                StatusClass::S2xx,
                            ) implies #[trigger] pts[k].bucket_counts@.len() == buckets_2xx@.len()
                            && pts[k].bounds@ == bounds_2xx@ by {}
                    }
                    let mut j: usize = 0;
                    while j < buckets_2xx.len()
                        invariant
                            i < n,
                            pts.len() == n,
                            pts == points@,
                            all_classified(pts),
                            f == first_2xx(pts, 0),
                            0 <= f < n,
                            buckets_2xx@.len() == pts[f].bucket_counts@.len(),
                            bounds_2xx@ == pts[f].bounds@,
                            forall|k: int|
                                0 <= k < i + 1 && point_class(pts[k]) == Some(StatusClass::S2xx)
                                    ==> #[trigger] pts[k].bucket_counts@.len()
                                    == buckets_2xx@.len() && pts[k].bounds@ == bounds_2xx@,
                            j <= buckets_2xx@.len(),
                            buckets_2xx@.len() == p.bucket_counts@.len(),
                            point_class(pts[i as int]) == Some(StatusClass::S2xx),
                            *p == pts[i as int],
                            forall|m: int|
                                0 <= m < j ==> #[trigger] buckets_2xx@[m] == bucket_total(
                                    pts,
                                    i + 1,
                                    m,
                                ),
                            forall|m: int|
                                j <= m < buckets_2xx@.len() ==> #[trigger] buckets_2xx@[m]
                                    == bucket_total(pts, i as int, m),
                            forall|m: int| #[trigger]
                                bucket_total(pts, i + 1, m) <= bucket_total(pts, n as int, m),
                        decreases buckets_2xx@.len() - j,
                    {
                        let add = p.bucket_counts[j];
                        if add > u64::MAX - buckets_2xx[j] {
                            proof {
                                assert(bucket_total(pts, i + 1, j as int) > u64::MAX);
                            }
                            return Err(MetricsError::Inconsistent);
                        }
                        let v = buckets_2xx[j] + add;
                        buckets_2xx.set(j, v);
                        j = j + 1;
                    }
                }
            } else {
                proof {
                    assert forall|j: int| #[trigger]
                        bucket_total(pts, i + 1, j) == bucket_total(pts, i as int, j) by {}
                }
            }
            i = i + 1;
        }
        proof {
            if !has_2xx {
                lemma_first_2xx(pts, n as nat);
                assert(first_2xx(pts, n as nat) == n);
            } else {
                let l = pts[f].bucket_counts@.len();
                assert forall|j: int| 0 <= j < l implies #[trigger] bucket_total(
                    pts,
                    pts.len() as int,
                    j,
                ) <= u64::MAX by {
                    assert(buckets_2xx@[j] == bucket_total(pts, n as int, j));
                }
                assert forall|k: int|
                    0 <= k < pts.len() && point_class(pts[k]) == Some(
                        StatusClass::S2xx,
                    ) implies #[trigger] pts[k].bucket_counts@.len() == l && pts[k].bounds@
                        == pts[f].bounds@ by {}
            }
            assert(all_total(pts, pts.len() as int) <= u64::MAX);
            assert(consistent(pts));
        }
        Ok(RequestDurationSecondsMetrics {
            points,
            counts,
            total,
            duration_sum,
            has_2xx,
            bounds_2xx,
            buckets_2xx,
            last_count,
            last_ts,
        })
    }
}

/// The `min` of a point, zero when absent.
pub open spec fn point_min(p: DurationPoint) -> int {
    match p.min {
        Some(v) => v as int,
        None => 0,
    }
}

/// The `max` of a point, zero when absent.
pub open spec fn point_max(p: DurationPoint) -> int {
    match p.max {
        Some(v) => v as int,
        None => 0,
    }
}

/// The smallest `min` over the first `n` points, zero when there are none.
pub open spec fn min_over(pts: Seq<DurationPoint>, n: int) -> int
    decreases n,
{
    if n <= 0 {
        0
    } else if n == 1 {
        point_min(pts[0])
    } else {
        let m = min_over(pts, n - 1);
        if point_min(pts[n - 1]) < m {
            point_min(pts[n - 1])
        } else {
            m
        }
    }
}

/// The largest `max` over the first `n` points, zero when there are none.
pub open spec fn max_over(pts: Seq<DurationPoint>, n: int) -> int
    decreases n,
{
    if n <= 0 {
        0
    } else if n == 1 {
        point_max(pts[0])
    } else {
        let m = max_over(pts, n - 1);
        if point_max(pts[n - 1]) > m {
            point_max(pts[n - 1])
        } else {
            m
        }
    }
}

proof fn lemma_min_over_bounds(pts: Seq<DurationPoint>, n: int)
    ensures
        0 <= min_over(pts, n) <= u64::MAX,
        0 <= max_over(pts, n) <= u64::MAX,
    decreases n,
{
    if n > 1 {
        lemma_min_over_bounds(pts, n - 1);
    }
}

impl RequestDurationSecondsMetrics {
    /// Requests of one status class.
    pub open spec fn spec_class_count(&self, c: StatusClass) -> int {
        class_total(self.spec_points(), c, self.spec_points().len() as int)
    }

    /// All requests, whatever their status.
    pub open spec fn spec_count(&self) -> int {
        all_total(self.spec_points(), self.spec_points().len() as int)
    }

    /// Sum of all durations.
    pub open spec fn spec_sum(&self) -> int {
        sum_total(self.spec_points(), self.spec_points().len() as int)
    }

    pub open spec fn spec_min(&self) -> int {
        min_over(self.spec_points(), self.spec_points().len() as int)
    }

    pub open spec fn spec_max(&self) -> int {
        max_over(self.spec_points(), self.spec_points().len() as int)
    }

    /// Share of 2xx and 3xx responses in hundredths of a percent, rounded to
    /// nearest with ties to even; zero when nothing was recorded.
    pub open spec fn spec_success_rate(&self) -> int {
        if self.spec_count() == 0 {
            0
        } else {
            div_round_even(
                ((self.spec_class_count(StatusClass::S2xx) + self.spec_class_count(
                    StatusClass::S3xx,
                )) * 10000) as nat,
                self.spec_count() as nat,
            ) as int
        }
    }

    /// Requests per second between the previous tick and `now`: the increase
    /// of the count (zero if it went down) over the elapsed time, rounded
    /// down and saturating at `u64::MAX`; zero when no time has passed.
    pub open spec fn spec_rps(&self, now: u64) -> int {
        if now <= self.spec_last_ts() {
            0
        } else {
            let inc = if self.spec_count() >= self.spec_last_count() {
                self.spec_count() - self.spec_last_count()
            } else {
                0
            };
            let q = inc * 1_000_000_000 / ((now - self.spec_last_ts()) as int);
            if q > u64::MAX {
                u64::MAX as int
            } else {
                q
            }
        }
    }

    /// Mean duration, rounded down and saturating at `u64::MAX`; zero when
    /// nothing was recorded.
    pub open spec fn spec_mean(&self) -> int {
        if self.spec_count() == 0 {
            0
        } else if self.spec_sum() / self.spec_count() > u64::MAX {
            u64::MAX as int
        } else {
            self.spec_sum() / self.spec_count()
        }
    }

    fn class_count(&self, c: StatusClass) -> (r: u64)
        requires
            self.wf(),
        ensures
            r == self.spec_class_count(c),
    {
        self.counts[class_slot(c)]
    }

    pub fn status_2xx_count(&self) -> (r: u64)
        requires
            self.wf(),
        ensures
            r == self.spec_class_count(StatusClass::S2xx),
    {
        self.class_count(StatusClass::S2xx)
    }

    pub fn status_3xx_count(&self) -> (r: u64)
        requires
            self.wf(),
        ensures
            r == self.spec_class_count(StatusClass::S3xx),
    {
        self.class_count(StatusClass::S3xx)
    }

    pub fn status_4xx_count(&self) -> (r: u64)
        requires
            self.wf(),
        ensures
            r == self.spec_class_count(StatusClass::S4xx),
    {
        self.class_count(StatusClass::S4xx)
    }

    pub fn status_5xx_count(&self) -> (r: u64)
        requires
            self.wf(),
        ensures
            r == self.spec_class_count(StatusClass::S5xx),
    {
        self.class_count(StatusClass::S5xx)
    }

    /// Total requests over all classes.
    pub fn count(&self) -> (r: u64)
        requires
            self.wf(),
        ensures
            r == self.spec_count(),
    {
        self.total
    }

    /// Share of 2xx and 3xx responses, in hundredths of a percent rounded to
    /// nearest (ties to even); zero when nothing was recorded.
    pub fn http_success_rate(&self) -> (r: u64)
        requires
            self.wf(),
        ensures
            r == self.spec_success_rate(),
            r <= 10000,
    {
        let total = self.total;
        if total == 0 {
            return 0;
        }
        let c2 = self.class_count(StatusClass::S2xx);
        let c3 = self.class_count(StatusClass::S3xx);
        proof {
            let pts = self.points@;
            lemma_class_split(pts, pts.len() as int);
        }
        let succ: u128 = c2 as u128 + c3 as u128;
        let r = crate::format::round_div_even(succ * 10000, total as u128);
        proof {
            assert(succ * 10000 <= total * 10000);
            assert((succ * 10000) as int / (total as int) <= 10000) by {
                vstd::arithmetic::div_mod::lemma_div_is_ordered(
                    (succ * 10000) as int,
                    (total * 10000) as int,
                    total as int,
                );
                vstd::arithmetic::div_mod::lemma_div_by_multiple(10000, total as int);
                assert((total * 10000) as int == 10000 * total);
            }
            if r > 10000 {
                let q = (succ * 10000) as int / (total as int);
                let m = (succ * 10000) as int % (total as int);
                vstd::arithmetic::div_mod::lemma_fundamental_div_mod((succ * 10000) as int, total as int);
                assert(q == 10000);
                assert(m == 0) by (nonlinear_arith)
                    requires
                        succ * 10000 == total * q + m,
                        q == 10000,
                        succ <= total,
                        m >= 0,
                ;
            }
        }
        r as u64
    }

    /// Requests per second since the previous tick, at time `now`: the
    /// increase of the count divided by the elapsed time, rounded down
    /// (saturating at `u64::MAX`); zero when no time has passed.
    pub fn rps(&self, now: u64) -> (r: u64)
        requires
            self.wf(),
        ensures
            r == self.spec_rps(now),
    {
        if now <= self.last_ts {
            return 0;
        }
        let elapsed = now - self.last_ts;
        let inc: u64 = if self.total >= self.last_count {
            self.total - self.last_count
        } else {
            0
        };
        let q: u128 = inc as u128 * 1_000_000_000 / elapsed as u128;
        if q > u64::MAX as u128 {
            u64::MAX
        } else {
            q as u64
        }
    }

    /// Mean duration over all requests (rounded down, saturating at
    /// `u64::MAX`); zero when nothing was recorded.
    pub fn mean(&self) -> (r: u64)
        requires
            self.wf(),
        ensures
            r == self.spec_mean(),
    {
        if self.total == 0 {
            return 0;
        }
        let q = self.duration_sum / self.total as u128;
        if q > u64::MAX as u128 {
            u64::MAX
        } else {
            q as u64
        }
    }

    /// The smallest recorded duration over all points (a point without one
    /// counts as zero); zero when there are no points.
    pub fn min(&self) -> (r: u64)
        requires
            self.wf(),
        ensures
            r == self.spec_min(),
    {
        let n = self.points.len();
        if n == 0 {
            return 0;
        }
        let mut m: u64 = match self.points[0].min {
            Some(v) => v,
            None => 0,
        };
        let mut i: usize = 1;
        while i < n
            invariant
                1 <= i <= n,
                n == self.points@.len(),
                m == min_over(self.points@, i as int),
            decreases n - i,
        {
            let v: u64 = match self.points[i].min {
                Some(v) => v,
                None => 0,
            };
            if v < m {
                m = v;
            }
            i = i + 1;
        }
        m
    }

    /// The largest recorded duration over all points (a point without one
    /// counts as zero); zero when there are no points.
    pub fn max(&self) -> (r: u64)
        requires
            self.wf(),
        ensures
            r == self.spec_max(),
    {
        let n = self.points.len();
        if n == 0 {
            return 0;
        }
        let mut m: u64 = match self.points[0].max {
            Some(v) => v,
            None => 0,
        };
        let mut i: usize = 1;
        while i < n
            invariant
                1 <= i <= n,
                n == self.points@.len(),
                m == max_over(self.points@, i as int),
            decreases n - i,
        {
            let v: u64 = match self.points[i].max {
                Some(v) => v,
                None => 0,
            };
            if v > m {
                m = v;
            }
            i = i + 1;
        }
        m
    }

    /// The `p`-th fraction (parts per million) of the 2xx durations, never
    /// above the largest recorded duration; zero when there are no 2xx
    /// responses or the estimate is unavailable.
    pub fn percentile(&self, p: u64) -> (r: u64)
        requires
            self.wf(),
        ensures
            !self.spec_has_2xx() ==> r == 0,
            self.spec_has_2xx() ==> {
                let pt = match percentile_of(
                    p as int,
                    self.spec_buckets_2xx(),
                    self.spec_bounds_2xx(),
                ) {
                    Some(v) => v,
                    None => 0,
                };
                r == if self.spec_max() < pt {
                    self.spec_max()
                } else {
                    pt
                }
            },
    {
        if !self.has_2xx {
            return 0;
        }
        proof {
            assert(self.buckets_2xx@ =~= self.spec_buckets_2xx());
        }
        let pt: u64 = match percentile(p, &self.buckets_2xx, &self.bounds_2xx) {
            Some(v) => v,
            None => 0,
        };
        let mx = self.max();
        if mx < pt {
            mx
        } else {
            pt
        }
    }

    pub fn p50(&self) -> (r: u64)
        requires
            self.wf(),
        ensures
            r == self.spec_percentile(500_000),
    {
        self.percentile(500_000)
    }

    pub fn p95(&self) -> (r: u64)
        requires
            self.wf(),
        ensures
            r == self.spec_percentile(950_000),
    {
        self.percentile(950_000)
    }

    pub fn p99(&self) -> (r: u64)
        requires
            self.wf(),
        ensures
            r == self.spec_percentile(990_000),
    {
        self.percentile(990_000)
    }

    /// What `percentile(p)` returns.
    pub open spec fn spec_percentile(&self, p: u64) -> int {
        if !self.spec_has_2xx() {
            0
        } else {
            let pt = match percentile_of(p as int, self.spec_buckets_2xx(), self.spec_bounds_2xx()) {
                Some(v) => v,
                None => 0,
            };
            if self.spec_max() < pt {
                self.spec_max()
            } else {
                pt
            }
        }
    }
}

proof fn lemma_class_split(pts: Seq<DurationPoint>, n: int)
    ensures
        class_total(pts, StatusClass::S2xx, n) + class_total(pts, StatusClass::S3xx, n)
            <= all_total(pts, n),
    decreases n,
{
    if n > 0 {
        lemma_class_split(pts, n - 1);
    }
}

/// One data point of the response-size histogram.
#[derive(Debug, Clone, Copy, PartialEq, Eq, Structural)]
pub struct SizePoint {
    pub count: u64,
    /// Sum of the sizes, in bytes.
    pub sum: u64,
}

pub open spec fn size_count(pts: Seq<SizePoint>, n: int) -> int
    decreases n,
{
    if n <= 0 {
        0
    } else {
        size_count(pts, n - 1) + pts[n - 1].count
    }
}

pub open spec fn size_sum(pts: Seq<SizePoint>, n: int) -> int
    decreases n,
{
    if n <= 0 {
        0
    } else {
        size_sum(pts, n - 1) + pts[n - 1].sum
    }
}

proof fn lemma_size_monotone(pts: Seq<SizePoint>, m: int, n: int)
    requires
        0 <= m <= n,
    ensures
        size_count(pts, m) <= size_count(pts, n),
        size_sum(pts, m) <= size_sum(pts, n),
    decreases n - m,
{
    if m < n {
        lemma_size_monotone(pts, m, n - 1);
    }
}

/// Response sizes of one tick, over all requests whatever their status.
#[derive(Debug, Clone)]
pub struct ResponseSizeBytesMetrics {
    count: u64,
    sum: u64,
}

impl ResponseSizeBytesMetrics {
    pub closed spec fn spec_count(&self) -> u64 {
        self.count
    }

    pub closed spec fn spec_sum(&self) -> u64 {
        self.sum
    }

    /// Totals the data points; refused when a total exceeds 64 bits.
    pub fn try_from_points(points: &Vec<SizePoint>) -> (r: Result<
        ResponseSizeBytesMetrics,
        MetricsError,
    >)
        ensures
            r is Ok <==> size_count(points@, points@.len() as int) <= u64::MAX && size_sum(
                points@,
                points@.len() as int,
            ) <= u64::MAX,
            r is Err ==> r == Err::<ResponseSizeBytesMetrics, MetricsError>(
                MetricsError::Inconsistent,
            ),
            r matches Ok(m) ==> m.spec_count() == size_count(points@, points@.len() as int)
                && m.spec_sum() == size_sum(points@, points@.len() as int),
    {
        let mut count: u64 = 0;
        let mut sum: u64 = 0;
        let mut i: usize = 0;
        while i < points.len()
            invariant
                i <= points.len(),
                count == size_count(points@, i as int),
                sum == size_sum(points@, i as int),
            decreases points.len() - i,
        {
            let p = points[i];
            proof {
                lemma_size_monotone(points@, i + 1, points@.len() as int);
            }
            if p.count > u64::MAX - count || p.sum > u64::MAX - sum {
                return Err(MetricsError::Inconsistent);
            }
            count = count + p.count;
            sum = sum + p.sum;
            i = i + 1;
        }
        Ok(ResponseSizeBytesMetrics { count, sum })
    }

    /// Total bytes received.
    pub fn sum(&self) -> (r: u64)
        ensures
            r == self.spec_sum(),
    {
        self.sum
    }

    /// Number of responses measured.
    pub fn count(&self) -> (r: u64)
        ensures
            r == self.spec_count(),
    {
        self.count
    }

    /// Mean size, rounded down; zero when nothing was measured.
    pub fn mean(&self) -> (r: u64)
        ensures
            r == if self.spec_count() > 0 {
                self.spec_sum() / self.spec_count()
            } else {
                0
            },
    {
        if self.count > 0 {
            self.sum / self.count
        } else {
            0
        }
    }
}

/// One data point of the error counter: the failures of one phase.
#[derive(Debug, Clone)]
pub struct ErrorPoint {
    /// The `phase` attribute, when the point carries one.
    pub phase: Option<String>,
    pub value: u64,
}

/// The report line of a point that carries a phase.
pub open spec fn error_line(phase: Seq<char>, value: nat) -> Seq<char> {
    seq!['p', 'h', 'a', 's', 'e', ':', ' '] + phase + seq![',', ' ', 'c', 'o', 'u', 'n', 't', ':', ' ']
        + decimal(value)
}

/// The report lines of the first `n` points, skipping points without a phase.
pub open spec fn error_lines(pts: Seq<ErrorPoint>, n: int) -> Seq<Seq<char>>
    decreases n,
{
    if n <= 0 {
        seq![]
    } else {
        let prev = error_lines(pts, n - 1);
        match pts[n - 1].phase {
            Some(ph) => prev.push(error_line(ph@, pts[n - 1].value as nat)),
            None => prev,
        }
    }
}

/// The error counter of one tick.
#[derive(Debug, Clone)]
pub struct ErrorMetrics {
    points: Vec<ErrorPoint>,
}

impl ErrorMetrics {
    pub closed spec fn spec_points(&self) -> Seq<ErrorPoint> {
        self.points@
    }

    pub fn new(points: Vec<ErrorPoint>) -> (r: ErrorMetrics)
        ensures
            r.spec_points() == points@,
    {
        ErrorMetrics { points }
    }

    /// One line `phase: <phase>, count: <n>` per phase, in point order.
    pub fn error_messages(&self) -> (r: Vec<String>)
        ensures
            r@.len() == error_lines(self.spec_points(), self.spec_points().len() as int).len(),
            forall|i: int|
                0 <= i < r@.len() ==> #[trigger] r@[i]@ == error_lines(
                    self.spec_points(),
                    self.spec_points().len() as int,
                )[i],
    {
        let mut out: Vec<String> = Vec::new();
        let mut i: usize = 0;
        while i < self.points.len()
            invariant
                i <= self.points@.len(),
                out@.len() == error_lines(self.points@, i as int).len(),
                forall|k: int|
                    0 <= k < out@.len() ==> #[trigger] out@[k]@ == error_lines(
                        self.points@,
                        i as int,
                    )[k],
            decreases self.points@.len() - i,
        {
            let p = &self.points[i];
            match &p.phase {
                Some(ph) => {
                    let mut line = String::from_str("phase: ");
                    line.append(ph.as_str());
                    line.append(", count: ");
                    push_decimal(&mut line, p.value);
                    proof {
                        reveal_strlit("phase: ");
                        reveal_strlit(", count: ");
                        assert(line@ =~= error_line(ph@, p.value as nat));
                    }
                    out.push(line);
                },
                None => {},
            }
            i = i + 1;
        }
        out
    }
}

/// The start-time gauge of one tick: the start markers recorded by the
/// workers, in nanoseconds since the Unix epoch.
#[derive(Debug, Clone)]
pub struct StartTimeMetrics {
    points: Vec<u64>,
}

impl StartTimeMetrics {
    pub closed spec fn spec_points(&self) -> Seq<u64> {
        self.points@
    }

    pub fn new(points: Vec<u64>) -> (r: StartTimeMetrics)
        ensures
            r.spec_points() == points@,
    {
        StartTimeMetrics { points }
    }

    /// The first recorded start marker, zero when none was recorded.
    pub fn start_time(&self) -> (r: u64)
        ensures
            r == if self.spec_points().len() > 0 {
                self.spec_points()[0]
            } else {
                0
            },
    {
        if self.points.len() > 0 {
            self.points[0]
        } else {
            0
        }
    }

    /// Whole seconds from the start marker to `now`, rounded to nearest
    /// (halves up); zero when `now` is not after it.
    pub fn elapsed_time(&self, now: u64) -> (r: u64)
        ensures
            ({
                let start = if self.spec_points().len() > 0 {
                    self.spec_points()[0]
                } else {
                    0
                };
                r == if now > start {
                    ((now - start) + 500_000_000) / 1_000_000_000
                } else {
                    0
                }
            }),
    {
        let start = self.start_time();
        if now > start {
            let delta = now - start;
            ((delta as u128 + 500_000_000) / 1_000_000_000) as u64
        } else {
            0
        }
    }
}

} // verus!
