use vstd::prelude::*;
use crate::errors::ErrorKind;
use crate::request::RequestOutcome;

verus! {

broadcast use vstd::seq_lib::group_to_multiset_ensures;

/// A distinct entry of the report's error set: either a transport
/// failure kind, or an HTTP status other than 200 seen on a drained
/// stream.
#[derive(Clone, Copy, Debug, PartialEq, Eq, Structural)]
pub enum ReportCode {
    Transport(ErrorKind),
    Status(u16),
}

/// What one outcome contributes to the distinct-code set: its error
/// kind when the transport failed; its status code when the stream was
/// drained and the status was extracted and is not 200. A drained
/// stream without an extractable status contributes nothing.
pub open spec fn outcome_code(o: RequestOutcome) -> Option<ReportCode> {
    match o.error {
        Some(k) => Some(ReportCode::Transport(k)),
        None => match o.status_code {
            Some(c) => if c != 200 {
                Some(ReportCode::Status(c))
            } else {
                None
            },
            None => None,
        },
    }
}

/// How many outcomes of `s` succeeded, that is, carry no error.
pub open spec fn count_ok(s: Seq<RequestOutcome>) -> int
    decreases s.len(),
{
    if s.len() == 0 {
        0
    } else {
        count_ok(s.drop_last()) + if s.last().error.is_none() {
            1int
        } else {
            0int
        }
    }
}

/// The latencies of the outcomes of `s`, in their order.
pub open spec fn latencies(s: Seq<RequestOutcome>) -> Seq<u64> {
    s.map_values(|o: RequestOutcome| o.elapsed_ms)
}

/// The sum of all latencies of `s`, in milliseconds.
pub open spec fn sum_latency(s: Seq<RequestOutcome>) -> int
    decreases s.len(),
{
    if s.len() == 0 {
        0
    } else {
        sum_latency(s.drop_last()) + s.last().elapsed_ms
    }
}

/// Nondecreasing order.
pub open spec fn sorted(s: Seq<u64>) -> bool {
    forall|i: int, j: int| 0 <= i <= j < s.len() ==> s[i] <= s[j]
}

/// No entry occurs twice.
pub open spec fn distinct(s: Seq<ReportCode>) -> bool {
    forall|i: int, j: int| 0 <= i < j < s.len() ==> s[i] != s[j]
}

proof fn lemma_count_ok_zero(s: Seq<RequestOutcome>)
    requires
        count_ok(s) == 0,
    ensures
        forall|k: int| 0 <= k < s.len() ==> s[k].error.is_some(),
    decreases s.len(),
{
    if s.len() > 0 {
        lemma_count_ok_bounds(s.drop_last());
        assert(count_ok(s.drop_last()) == 0);
        lemma_count_ok_zero(s.drop_last());
        assert forall|k: int| 0 <= k < s.len() implies s[k].error.is_some() by {
            if k < s.len() - 1 {
                assert(s.drop_last()[k] == s[k]);
            } else {
                assert(s.last() == s[k]);
            }
        };
    }
}

proof fn lemma_count_ok_bounds(s: Seq<RequestOutcome>)
    ensures
        0 <= count_ok(s) <= s.len(),
    decreases s.len(),
{
    if s.len() > 0 {
        lemma_count_ok_bounds(s.drop_last());
    }
}

proof fn lemma_sum_latency_bounds(s: Seq<RequestOutcome>)
    ensures
        0 <= sum_latency(s) <= s.len() * (u64::MAX as int),
    decreases s.len(),
{
    if s.len() > 0 {
        lemma_sum_latency_bounds(s.drop_last());
        assert(s.len() * (u64::MAX as int) == (s.len() - 1) * (u64::MAX as int) + (
        u64::MAX as int)) by (nonlinear_arith);
    }
}

/// Extending a prefix of `s` by its next outcome extends the counts,
/// the sum and the latency sequence accordingly.
proof fn lemma_prefix_step(s: Seq<RequestOutcome>, i: int)
    requires
        0 <= i < s.len(),
    ensures
        count_ok(s.take(i + 1)) == count_ok(s.take(i)) + if s[i].error.is_none() {
            1int
        } else {
            0int
        },
        sum_latency(s.take(i + 1)) == sum_latency(s.take(i)) + s[i].elapsed_ms,
        latencies(s.take(i + 1)) == latencies(s.take(i)).push(s[i].elapsed_ms),
{
    assert(s.take(i + 1).drop_last() =~= s.take(i));
    assert(s.take(i + 1).last() == s[i]);
    assert(latencies(s.take(i + 1)) =~= latencies(s.take(i)).push(s[i].elapsed_ms));
}

/// Whether `codes` already holds `c`.
fn contains_code(codes: &Vec<ReportCode>, c: ReportCode) -> (b: bool)
    ensures
        b == codes@.contains(c),
{
    let n = codes.len();
    let mut i: usize = 0;
    let mut found = false;
    while i < n
        invariant_except_break
            n == codes@.len(),
            i <= n,
            !found,
            forall|k: int| 0 <= k < i ==> codes@[k] != c,
        ensures
            found == codes@.contains(c),
        decreases n - i,
    {
        if codes[i] == c {
            found = true;
            proof {
                assert(codes@[i as int] == c);
            }
            break ;
        }
        i = i + 1;
    }
    found
}

/// Adds `c` to the distinct-code list unless it is already there.
fn record_code(codes: &mut Vec<ReportCode>, c: ReportCode)
    requires
        distinct(old(codes)@),
        old(codes)@.len() < usize::MAX,
    ensures
        distinct(final(codes)@),
        final(codes)@.len() <= old(codes)@.len() + 1,
        forall|d: ReportCode|
            final(codes)@.contains(d) <==> (old(codes)@.contains(d) || d == c),
{
    let ghost pre = codes@;
    if !contains_code(codes, c) {
        codes.push(c);
        proof {
            assert forall|d: ReportCode| #[trigger] codes@.contains(d) implies (pre.contains(d) || d
                == c) by {
                let k = choose|k: int| 0 <= k < codes@.len() && codes@[k] == d;
                if k < pre.len() {
                    assert(pre[k] == d);
                }
            };
            assert forall|d: ReportCode| pre.contains(d) || d == c implies #[trigger] codes@
                .contains(d) by {
                if d == c {
                    assert(codes@[pre.len() as int] == d);
                } else {
                    let k = choose|k: int| 0 <= k < pre.len() && pre[k] == d;
                    assert(codes@[k] == d);
                }
            };
            assert forall|i: int, j: int| 0 <= i < j < codes@.len() implies codes@[i] != codes@[
            j] by {
                if j < pre.len() {
                    assert(pre[i] != pre[j]);
                } else {
                    assert(codes@[j] == c);
                    assert(pre[i] == codes@[i]);
                    if codes@[i] == c {
                        assert(pre.contains(c));
                    }
                }
            };
        }
    }
}

/// Inserts `x` into the sorted vector `v`, keeping it sorted; the
/// contents grow by exactly one occurrence of `x`.
fn insert_sorted(v: &mut Vec<u64>, x: u64)
    requires
        sorted(old(v)@),
        old(v)@.len() < usize::MAX,
    ensures
        sorted(final(v)@),
        final(v)@.len() == old(v)@.len() + 1,
        final(v)@.to_multiset() == old(v)@.to_multiset().insert(x),
{
    let n = v.len();
    let mut pos: usize = 0;
    while pos < n
        invariant_except_break
            n == v@.len(),
            v@ == old(v)@,
            pos <= n,
            forall|k: int| 0 <= k < pos ==> v@[k] <= x,
        ensures
            n == v@.len(),
            v@ == old(v)@,
            pos <= n,
            forall|k: int| 0 <= k < pos ==> v@[k] <= x,
            pos < n ==> v@[pos as int] > x,
        decreases n - pos,
    {
        if v[pos] > x {
            break ;
        }
        pos = pos + 1;
    }
    let ghost before = v@;
    v.insert(pos, x);
    proof {
        before.insert_ensures(pos as int, x);
        assert forall|i: int, j: int| 0 <= i <= j < v@.len() implies v@[i] <= v@[j] by {
            assert(forall|k: int| 0 <= k < pos ==> v@[k] == before[k]);
            assert(v@[pos as int] == x);
            assert(forall|k: int| pos < k < v@.len() ==> v@[k] == before[k - 1]);
            assert(forall|k: int| pos <= k < before.len() ==> before[k] >= x);
        };
        assert(v@ =~= before.insert(pos as int, x));
        assert(v@.to_multiset() =~= before.to_multiset().insert(x));
    }
}

/// The distinct-set entry `o` contributes, if any.
fn code_of_outcome(o: &RequestOutcome) -> (r: Option<ReportCode>)
    ensures
        r == outcome_code(*o),
{
    match o.error {
        Some(k) => Some(ReportCode::Transport(k)),
        None => match o.status_code {
            Some(c) => if c != 200 {
                Some(ReportCode::Status(c))
            } else {
                None
            },
            None => None,
        },
    }
}

/// The reduction of all outcomes of one run. Built once, after every
/// request has finished.
///
/// Latency policy: `latencies_sorted`, the mean and the median cover
/// every attempted request, failures included — a failed attempt also
/// consumed wall-clock time. `min_bytes` and `max_bytes` cover only
/// the successful outcomes, and are 0 when there was no success.
pub struct AggregateReport {
    pub total: u32,
    pub succeeded: u32,
    pub failed: u32,
    pub distinct_codes: Vec<ReportCode>,
    pub min_bytes: usize,
    pub max_bytes: usize,
    pub latencies_sorted: Vec<u64>,
    pub mean_latency_ms: u64,
    pub median_latency_ms: u64,
}

/// Reduces the outcomes of one run — exactly one per attempted
/// request, in whatever order they completed — into the aggregate
/// report: success and failure counts that always add up to the total,
/// byte-size extremes over the successes, the sorted latency list with
/// its mean and upper-median, and the set of distinct error and
/// non-200 status codes, without duplicates.
pub fn aggregate(outcomes: &Vec<RequestOutcome>) -> (rep: AggregateReport)
    requires
        1 <= outcomes@.len() <= u32::MAX,
    ensures
        rep.total == outcomes@.len(),
        rep.succeeded == count_ok(outcomes@),
        rep.failed == outcomes@.len() - count_ok(outcomes@),
        rep.total == rep.succeeded + rep.failed,
        sorted(rep.latencies_sorted@),
        rep.latencies_sorted@.len() == outcomes@.len(),
        rep.latencies_sorted@.to_multiset() == latencies(outcomes@).to_multiset(),
        rep.median_latency_ms == rep.latencies_sorted@[outcomes@.len() as int / 2],
        rep.mean_latency_ms == sum_latency(outcomes@) / outcomes@.len() as int,
        rep.succeeded > 0 ==> exists|k: int|
            0 <= k < outcomes@.len() && outcomes@[k].error.is_none() && outcomes@[k].byte_count
                == rep.min_bytes,
        rep.succeeded > 0 ==> exists|k: int|
            0 <= k < outcomes@.len() && outcomes@[k].error.is_none() && outcomes@[k].byte_count
                == rep.max_bytes,
        forall|k: int|
            0 <= k < outcomes@.len() && outcomes@[k].error.is_none() ==> rep.min_bytes <= outcomes@[
            k].byte_count && outcomes@[k].byte_count <= rep.max_bytes,
        rep.succeeded > 0 ==> rep.min_bytes <= rep.max_bytes,
        rep.succeeded == 0 ==> rep.min_bytes == 0 && rep.max_bytes == 0,
        distinct(rep.distinct_codes@),
        forall|d: ReportCode|
            rep.distinct_codes@.contains(d) <==> exists|k: int|
                0 <= k < outcomes@.len() && outcome_code(outcomes@[k]) == Some(d),
{
    let n = outcomes.len();
    let mut succeeded: u32 = 0;
    let mut min_bytes: usize = 0;
    let mut max_bytes: usize = 0;
    let mut lat: Vec<u64> = Vec::new();
    let mut codes: Vec<ReportCode> = Vec::new();
    let mut total_lat: u128 = 0;
    let mut i: usize = 0;
    while i < n
        invariant
            n == outcomes@.len(),
            1 <= n <= u32::MAX,
            i <= n,
            succeeded == count_ok(outcomes@.take(i as int)),
            succeeded <= i,
            succeeded == 0 ==> min_bytes == 0 && max_bytes == 0,
            succeeded > 0 ==> exists|k: int|
                0 <= k < i && outcomes@[k].error.is_none() && outcomes@[k].byte_count == min_bytes,
            succeeded > 0 ==> exists|k: int|
                0 <= k < i && outcomes@[k].error.is_none() && outcomes@[k].byte_count == max_bytes,
            forall|k: int|
                0 <= k < i && outcomes@[k].error.is_none() ==> min_bytes <= outcomes@[k].byte_count
                    && outcomes@[k].byte_count <= max_bytes,
            sorted(lat@),
            lat@.len() == i,
            lat@.to_multiset() == latencies(outcomes@.take(i as int)).to_multiset(),
            total_lat == sum_latency(outcomes@.take(i as int)),
            distinct(codes@),
            codes@.len() <= i,
            forall|d: ReportCode|
                codes@.contains(d) <==> exists|k: int|
                    0 <= k < i && outcome_code(outcomes@[k]) == Some(d),
        decreases n - i,
    {
        let o = outcomes[i];
        proof {
            lemma_prefix_step(outcomes@, i as int);
            lemma_count_ok_bounds(outcomes@.take(i as int + 1));
            lemma_sum_latency_bounds(outcomes@.take(i as int));
            vstd::arithmetic::mul::lemma_mul_inequality(
                i as int,
                u32::MAX as int,
                u64::MAX as int,
            );
        }
        let ghost min0 = min_bytes;
        let ghost max0 = max_bytes;
        let ghost succ0 = succeeded;
        proof {
            if succ0 == 0 {
                lemma_count_ok_zero(outcomes@.take(i as int));
                assert(forall|k: int| 0 <= k < i ==> outcomes@.take(i as int)[k] == outcomes@[k]);
            }
        }
        if o.error.is_none() {
            if succeeded == 0 {
                min_bytes = o.byte_count;
                max_bytes = o.byte_count;
            } else {
                if o.byte_count < min_bytes {
                    min_bytes = o.byte_count;
                }
                if o.byte_count > max_bytes {
                    max_bytes = o.byte_count;
                }
            }
            succeeded = succeeded + 1;
        }
        proof {
            assert forall|k: int|
                0 <= k < i + 1 && outcomes@[k].error.is_none() implies min_bytes <= outcomes@[
            k].byte_count && outcomes@[k].byte_count <= max_bytes by {
                if k < i {
                    if succ0 == 0 {
                        assert(outcomes@.take(i as int)[k] == outcomes@[k]);
                        assert(outcomes@[k].error.is_some());
                    } else {
                        assert(min0 <= outcomes@[k].byte_count <= max0);
                        assert(min_bytes <= min0 && max0 <= max_bytes);
                    }
                } else {
                    assert(outcomes@[k] == o);
                }
            };
        }
        insert_sorted(&mut lat, o.elapsed_ms);
        total_lat = total_lat + (o.elapsed_ms as u128);
        let ghost codes_pre = codes@;
        match code_of_outcome(&o) {
            Some(c) => {
                record_code(&mut codes, c);
                proof {
                    assert forall|d: ReportCode| #[trigger] codes@.contains(d) implies (exists|
                        k: int,
                    | 0 <= k < i + 1 && outcome_code(outcomes@[k]) == Some(d)) by {
                        if codes_pre.contains(d) {
                            let k = choose|k: int|
                                0 <= k < i && outcome_code(outcomes@[k]) == Some(d);
                            assert(0 <= k < i + 1 && outcome_code(outcomes@[k]) == Some(d));
                        } else {
                            assert(d == c);
                            assert(outcome_code(outcomes@[i as int]) == Some(d));
                        }
                    };
                    assert forall|d: ReportCode| (exists|k: int|
                        0 <= k < i + 1 && outcome_code(outcomes@[k]) == Some(d)) implies #[trigger] codes@.contains(d) by {
                        let k = choose|k: int| 0 <= k < i + 1 && outcome_code(outcomes@[k]) == Some(
                        d);
                        if k < i {
                            assert(codes_pre.contains(d));
                        } else {
                            assert(d == c);
                        }
                    };
                }
            },
            None => {
                proof {
                    assert forall|d: ReportCode| #[trigger] codes@.contains(d) implies (exists|
                        k: int,
                    | 0 <= k < i + 1 && outcome_code(outcomes@[k]) == Some(d)) by {
                        let k = choose|k: int| 0 <= k < i && outcome_code(outcomes@[k]) == Some(d);
                        assert(0 <= k < i + 1 && outcome_code(outcomes@[k]) == Some(d));
                    };
                    assert forall|d: ReportCode| (exists|k: int|
                        0 <= k < i + 1 && outcome_code(outcomes@[k]) == Some(d)) implies #[trigger] codes@.contains(d) by {
                        let k = choose|k: int| 0 <= k < i + 1 && outcome_code(outcomes@[k]) == Some(
                        d);
                        if k < i {
                        } else {
                            assert(outcome_code(outcomes@[i as int]).is_none());
                        }
                    };
                }
            },
        }
        i = i + 1;
    }
    proof {
        assert(outcomes@.take(n as int) =~= outcomes@);
    }
    let total: u32 = n as u32;
    let failed: u32 = total - succeeded;
    let median: u64 = lat[n / 2];
    let mean128: u128 = total_lat / (n as u128);
    proof {
        lemma_sum_latency_bounds(outcomes@);
        vstd::arithmetic::mul::lemma_mul_inequality(n as int, u32::MAX as int, u64::MAX as int);
        vstd::arithmetic::div_mod::lemma_div_is_ordered(
            total_lat as int,
            (n as int) * (u64::MAX as int),
            n as int,
        );
        vstd::arithmetic::div_mod::lemma_div_multiples_vanish(u64::MAX as int, n as int);
    }
    let mean: u64 = mean128 as u64;
    AggregateReport {
        total,
        succeeded,
        failed,
        distinct_codes: codes,
        min_bytes,
        max_bytes,
        latencies_sorted: lat,
        mean_latency_ms: mean,
        median_latency_ms: median,
    }
}

} // verus!
