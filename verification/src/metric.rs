//! Distance metrics and their names.

use vstd::prelude::*;

verus! {

/// Distance metric.
#[derive(Debug, PartialEq, Eq, Clone, Copy, Structural)]
pub enum Metric {
    /// Squared Euclidean.
    L2,
    /// Cosine similarity.
    Cosine,
    /// Inner product similarity.
    Ip,
}

/// A text that names no metric.
#[derive(Debug, PartialEq, Eq, Clone, Copy, Structural)]
pub struct ParseMetricError;

/// What `str::to_lowercase` makes of a text.
pub uninterp spec fn lowercase(text: Seq<char>) -> Seq<char>;

/// `str::to_lowercase`: its result is a function of the text alone, named here
/// `lowercase`. Nothing is claimed of which letters it maps.
#[verifier::external_body]
fn lowered(text: &str) -> (result: String)
    ensures
        result@ == lowercase(text@),
{
    text.to_lowercase()
}

/// The metric that a lower-case name stands for.
pub open spec fn metric_named(name: Seq<char>) -> Result<Metric, ParseMetricError> {
    if name == "l2"@ {
        Ok(Metric::L2)
    } else if name == "cosine"@ {
        Ok(Metric::Cosine)
    } else if name == "ip"@ {
        Ok(Metric::Ip)
    } else {
        Err(ParseMetricError)
    }
}

impl Metric {
    /// The metric that a lower-case name stands for.
    pub fn from_lowercase(name: &String) -> (result: Result<Metric, ParseMetricError>)
        ensures
            result == metric_named(name@),
    {
        if *name == "l2".to_owned() {
            Ok(Metric::L2)
        } else if *name == "cosine".to_owned() {
            Ok(Metric::Cosine)
        } else if *name == "ip".to_owned() {
            Ok(Metric::Ip)
        } else {
            Err(ParseMetricError)
        }
    }

    /// The metric that `text` names in any letter case.
    pub fn parse(text: &str) -> (result: Result<Metric, ParseMetricError>)
        ensures
            result == metric_named(lowercase(text@)),
    {
        let name: String = lowered(text);
        Metric::from_lowercase(&name)
    }
}

impl std::str::FromStr for Metric {
    type Err = ParseMetricError;

    fn from_str(s: &str) -> (result: Result<Self, Self::Err>)
        ensures
            result == metric_named(lowercase(s@)),
    {
        Metric::parse(s)
    }
}

impl ParseMetricError {
    pub fn message(&self) -> (text: String)
        ensures
            text@ == "invalid metric"@,
    {
        "invalid metric".to_owned()
    }
}

} // verus!
