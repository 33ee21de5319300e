//! Names of the metrics that a risk policy reports in a limit breach.

use vstd::prelude::*;
use crate::text::{decimal, push_decimal};
use crate::types::AssetId;

verus! {

/// The metric name of a per-asset variance limit.
pub open spec fn variance_metric_spec() -> Seq<char> {
    "variance"@
}

/// The metric name of the pairwise correlation limit for assets `a` and `b`:
/// `correlation(Asset(<a>), Asset(<b>))`.
pub open spec fn correlation_metric_spec(a: AssetId, b: AssetId) -> Seq<char> {
    "correlation("@ + a.display() + ", "@ + b.display() + ")"@
}

/// The metric name of the magnitude limit on factor beta `k`: `factor_beta[<k>]`.
pub open spec fn factor_beta_metric_spec(k: nat) -> Seq<char> {
    "factor_beta["@ + decimal(k) + "]"@
}

/// Returns the metric name of a per-asset variance limit.
pub fn variance_metric() -> (s: String)
    ensures
        s@ == variance_metric_spec(),
{
    String::from_str("variance")
}

/// Returns the metric name of the pairwise correlation limit for assets `a` and `b`.
pub fn correlation_metric(a: AssetId, b: AssetId) -> (s: String)
    ensures
        s@ == correlation_metric_spec(a, b),
{
    let mut s = String::from_str("correlation(");
    let a_text = a.to_string();
    s.append(a_text.as_str());
    s.append(", ");
    let b_text = b.to_string();
    s.append(b_text.as_str());
    s.append(")");
    s
}

/// Returns the metric name of the magnitude limit on factor beta `k`.
pub fn factor_beta_metric(k: usize) -> (s: String)
    ensures
        s@ == factor_beta_metric_spec(k as nat),
{
    let mut s = String::from_str("factor_beta[");
    push_decimal(&mut s, k as u64);
    s.append("]");
    s
}

} // verus!
