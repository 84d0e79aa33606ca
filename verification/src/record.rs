//! The per-input result record and the folding of several records into a
//! running total.

use vstd::prelude::*;

verus! {

/// The measurements for one named input (or the synthetic "total" record).
/// A metric field is `Some` exactly when that metric was requested for the
/// run; `None` means "not computed", which is distinct from a count of zero.
#[derive(Debug, Clone)]
pub struct WcResult {
    pub file: String,
    pub bytes: Option<usize>,
    pub lines: Option<usize>,
    pub words: Option<usize>,
    pub chars: Option<usize>,
}

/// A present metric as a mathematical integer, an absent one as `None`.
pub open spec fn opt_int(a: Option<usize>) -> Option<int> {
    match a {
        None => None,
        Some(x) => Some(x as int),
    }
}

/// How one metric of a running total absorbs the same metric of the next
/// record: an absent next metric leaves the total alone, while a present one
/// is added to it, an absent total counting as zero.
pub open spec fn opt_add(a: Option<int>, b: Option<int>) -> Option<int> {
    match b {
        None => a,
        Some(y) => Some(
            (match a {
                None => 0int,
                Some(x) => x,
            }) + y,
        ),
    }
}

/// The four metrics of a record, in the order bytes, lines, words, chars,
/// as mathematical integers.
pub open spec fn metrics_of(r: WcResult) -> (Option<int>, Option<int>, Option<int>, Option<int>) {
    (opt_int(r.bytes), opt_int(r.lines), opt_int(r.words), opt_int(r.chars))
}

/// Metric-wise folding of two records' metrics.
pub open spec fn metrics_add(
    a: (Option<int>, Option<int>, Option<int>, Option<int>),
    b: (Option<int>, Option<int>, Option<int>, Option<int>),
) -> (Option<int>, Option<int>, Option<int>, Option<int>) {
    (opt_add(a.0, b.0), opt_add(a.1, b.1), opt_add(a.2, b.2), opt_add(a.3, b.3))
}

/// Whether the running value `a` can absorb the metric `b` without the sum
/// leaving `usize`.
pub open spec fn can_absorb(a: Option<usize>, b: Option<usize>) -> bool {
    match b {
        None => true,
        Some(y) => (match a {
            None => 0int,
            Some(x) => x as int,
        }) + y <= usize::MAX,
    }
}

impl WcResult {
    /// An empty record: no label and no metric computed yet.
    pub fn new() -> (r: WcResult)
        ensures
            r.file@ == Seq::<char>::empty(),
            r.bytes is None,
            r.lines is None,
            r.words is None,
            r.chars is None,
    {
        WcResult { file: String::new(), bytes: None, lines: None, words: None, chars: None }
    }

    /// Whether every metric of `other` can be folded into `self` without
    /// overflowing a count.
    pub fn can_add(&self, other: &WcResult) -> (r: bool)
        ensures
            r == (can_absorb(self.bytes, other.bytes) && can_absorb(self.lines, other.lines)
                && can_absorb(self.words, other.words) && can_absorb(self.chars, other.chars)),
    {
        metric_fits(self.bytes, other.bytes) && metric_fits(self.lines, other.lines)
            && metric_fits(self.words, other.words) && metric_fits(self.chars, other.chars)
    }

    /// Fold `other` into `self`: each metric present in `other` is added to
    /// the running value in `self`, an absent running value counting as
    /// zero; a metric absent in `other` leaves `self`'s value untouched.
    /// The label of `self` is kept.
    pub fn add(&mut self, other: &WcResult)
        requires
            can_absorb(old(self).bytes, other.bytes),
            can_absorb(old(self).lines, other.lines),
            can_absorb(old(self).words, other.words),
            can_absorb(old(self).chars, other.chars),
        ensures
            metrics_of(*final(self)) == metrics_add(metrics_of(*old(self)), metrics_of(*other)),
            final(self).file == old(self).file,
    {
        if let Some(b) = other.bytes {
            self.bytes = Some(
                b + (match self.bytes {
                    Some(x) => x,
                    None => 0,
                }),
            );
        }
        if let Some(c) = other.chars {
            self.chars = Some(
                c + (match self.chars {
                    Some(x) => x,
                    None => 0,
                }),
            );
        }
        if let Some(w) = other.words {
            self.words = Some(
                w + (match self.words {
                    Some(x) => x,
                    None => 0,
                }),
            );
        }
        if let Some(l) = other.lines {
            self.lines = Some(
                l + (match self.lines {
                    Some(x) => x,
                    None => 0,
                }),
            );
        }
    }
}

/// Whether the sum of one running metric and one incoming metric stays
/// within `usize`.
fn metric_fits(a: Option<usize>, b: Option<usize>) -> (r: bool)
    ensures
        r == can_absorb(a, b),
{
    match b {
        None => true,
        Some(y) => {
            let x: usize = match a {
                Some(x) => x,
                None => 0,
            };
            y <= usize::MAX - x
        },
    }
}

/// Folding one metric is commutative: a total absorbs two records' metrics
/// to the same value in either order.
pub proof fn lemma_opt_add_commutative(a: Option<int>, b: Option<int>)
    ensures
        opt_add(a, b) == opt_add(b, a),
{
}

/// Folding one metric is associative: grouping does not change the total.
pub proof fn lemma_opt_add_associative(a: Option<int>, b: Option<int>, c: Option<int>)
    ensures
        opt_add(opt_add(a, b), c) == opt_add(a, opt_add(b, c)),
{
}

/// Folding whole records is commutative per metric: the metrics of a total
/// do not depend on the order of the two records folded into it.
pub proof fn lemma_metrics_add_commutative(
    a: (Option<int>, Option<int>, Option<int>, Option<int>),
    b: (Option<int>, Option<int>, Option<int>, Option<int>),
)
    ensures
        metrics_add(a, b) == metrics_add(b, a),
{
}

/// Folding whole records is associative: however a sequence of records is
/// grouped, the total's metrics are the same.
pub proof fn lemma_metrics_add_associative(
    a: (Option<int>, Option<int>, Option<int>, Option<int>),
    b: (Option<int>, Option<int>, Option<int>, Option<int>),
    c: (Option<int>, Option<int>, Option<int>, Option<int>),
)
    ensures
        metrics_add(metrics_add(a, b), c) == metrics_add(a, metrics_add(b, c)),
{
}

/// A metric is present in a folded total exactly when it is present in one
/// of the operands; folding records whose sets of present metrics agree
/// therefore keeps that same set.
pub proof fn lemma_opt_add_presence(a: Option<int>, b: Option<int>)
    ensures
        opt_add(a, b) is Some <==> (a is Some || b is Some),
{
}

} // verus!
