//! The settings of an analysis run.
use vstd::prelude::*;

use crate::similarity::Ratio;
use crate::text::{fraction_string, fraction_text};

verus! {

/// A percentage as a fraction: `num / den` percent.
#[derive(Clone, Copy, Debug, PartialEq, Eq, Structural)]
pub struct Percentage {
    pub num: i64,
    pub den: u32,
}

/// The two floors that a parser needs.
#[derive(Clone, Copy, Debug, PartialEq, Eq, Structural)]
pub struct AnalysisConfig {
    /// The fewest normalized nodes a unit must have.
    pub min_nodes: usize,
    /// The fewest lines a unit must span; zero turns the floor off.
    pub min_lines: usize,
}

/// The settings of an analysis run.
#[derive(Debug)]
pub struct Config {
    /// The directory that is analysed.
    pub root: String,
    pub min_nodes: usize,
    pub min_lines: usize,
    /// The similarity at or above which two units are near duplicates.
    pub similarity_threshold: Ratio,
    /// Path fragments that exclude a file.
    pub exclude: Vec<String>,
    pub exclude_tests: bool,
    /// Whether branches, arms, loop bodies and closure bodies are analysed
    /// as units of their own.
    pub sub_function: bool,
    pub min_sub_nodes: usize,
    pub max_exact_duplicates: Option<usize>,
    pub max_near_duplicates: Option<usize>,
    pub max_exact_percent: Option<Percentage>,
    pub max_near_percent: Option<Percentage>,
}

impl Config {
    /// The settings used when nothing is configured: at least 10 nodes, no
    /// line floor, a similarity threshold of 0.9, no exclusions, test code
    /// kept, no sub-function analysis with a floor of 5 nodes, and no
    /// ceilings.
    pub fn new(root: String) -> (r: Config)
        ensures
            r.root == root,
            r.min_nodes == 10,
            r.min_lines == 0,
            r.similarity_threshold == (Ratio { num: 9, den: 10 }),
            r.exclude@.len() == 0,
            !r.exclude_tests,
            !r.sub_function,
            r.min_sub_nodes == 5,
            r.max_exact_duplicates is None,
            r.max_near_duplicates is None,
            r.max_exact_percent is None,
            r.max_near_percent is None,
    {
        Config {
            root,
            min_nodes: 10,
            min_lines: 0,
            similarity_threshold: Ratio { num: 9, den: 10 },
            exclude: Vec::new(),
            exclude_tests: false,
            sub_function: false,
            min_sub_nodes: 5,
            max_exact_duplicates: None,
            max_near_duplicates: None,
            max_exact_percent: None,
            max_near_percent: None,
        }
    }

    /// The floors that parsing uses.
    pub fn analysis_config(&self) -> (r: AnalysisConfig)
        ensures
            r.min_nodes == self.min_nodes,
            r.min_lines == self.min_lines,
    {
        AnalysisConfig { min_nodes: self.min_nodes, min_lines: self.min_lines }
    }
}

/// Whether a fraction lies within `0..=1`.
pub open spec fn ratio_in_range(r: Ratio) -> bool {
    r.den > 0 && r.num <= r.den
}

/// Whether an optional percentage lies within `0..=100`.
pub open spec fn percent_in_range(p: Option<Percentage>) -> bool {
    match p {
        Some(q) => q.den > 0 && 0 <= q.num && q.num <= 100 * q.den,
        None => true,
    }
}

/// Whether a percentage lies within `0..=100`.
fn percent_ok(p: Option<Percentage>) -> (r: bool)
    ensures
        r == percent_in_range(p),
{
    match p {
        Some(q) => q.den > 0 && 0 <= q.num && (q.num as i128) <= 100 * (q.den as i128),
        None => true,
    }
}

/// The text of a fraction's value, as a decimal number.
pub open spec fn ratio_text(r: Ratio) -> Seq<char> {
    if r.den == 0 {
        "NaN"@
    } else {
        fraction_text(r.num as nat, r.den as nat)
    }
}

/// The text of a percentage's value, as a decimal number.
pub open spec fn percentage_text(q: Percentage) -> Seq<char> {
    if q.den == 0 {
        "NaN"@
    } else if q.num < 0 {
        "-"@ + fraction_text((-q.num) as nat, q.den as nat)
    } else {
        fraction_text(q.num as nat, q.den as nat)
    }
}

/// The message for a similarity threshold out of range.
pub open spec fn threshold_message(r: Ratio) -> Seq<char> {
    "similarity_threshold must be a fraction between 0.0 and 1.0, got "@ + ratio_text(r)
}

/// The message for a percentage ceiling out of range.
pub open spec fn percent_message(field: Seq<char>, q: Option<Percentage>) -> Seq<char> {
    field + " must be a percentage between 0.0 and 100.0, got "@ + match q {
        Some(v) => percentage_text(v),
        None => Seq::empty(),
    }
}

fn ratio_string(r: Ratio) -> (s: String)
    ensures
        s@ == ratio_text(r),
{
    if r.den == 0 {
        proof {
            reveal_strlit("NaN");
        }
        "NaN".to_string()
    } else {
        fraction_string(r.num, r.den)
    }
}

fn percentage_string(q: Percentage) -> (s: String)
    ensures
        s@ == percentage_text(q),
{
    if q.den == 0 {
        proof {
            reveal_strlit("NaN");
        }
        "NaN".to_string()
    } else if q.num < 0 {
        let magnitude: u64 = (-(q.num as i128)) as u64;
        let mut s = "-".to_string();
        proof {
            reveal_strlit("-");
        }
        s.append(fraction_string(magnitude, q.den as u64).as_str());
        s
    } else {
        fraction_string(q.num as u64, q.den as u64)
    }
}

/// The message for a percentage ceiling out of range.
fn percent_error(field: &str, q: Option<Percentage>) -> (s: String)
    ensures
        s@ == percent_message(field@, q),
{
    let mut s = field.to_string();
    s.append(" must be a percentage between 0.0 and 100.0, got ");
    match q {
        Some(v) => s.append(percentage_string(v).as_str()),
        None => {},
    }
    proof {
        assert(s@ =~= percent_message(field@, q));
    }
    s
}

impl Config {
    /// Refuses a setting outside the range its field allows, naming the
    /// field and the value: the similarity threshold must lie within
    /// `0.0..=1.0`, and each percentage ceiling within `0.0..=100.0`. The
    /// fields are checked in that order and the first one out of range is
    /// reported.
    pub fn validate(&self) -> (r: Result<(), String>)
        ensures
            r is Ok <==> ratio_in_range(self.similarity_threshold) && percent_in_range(
                self.max_exact_percent,
            ) && percent_in_range(self.max_near_percent),
            !ratio_in_range(self.similarity_threshold) ==> (r matches Err(m) && m@
                == threshold_message(self.similarity_threshold)),
            ratio_in_range(self.similarity_threshold) && !percent_in_range(self.max_exact_percent)
                ==> (r matches Err(m) && m@ == percent_message(
                "max_exact_percent"@,
                self.max_exact_percent,
            )),
            ratio_in_range(self.similarity_threshold) && percent_in_range(self.max_exact_percent)
                && !percent_in_range(self.max_near_percent) ==> (r matches Err(m) && m@
                == percent_message("max_near_percent"@, self.max_near_percent)),
    {
        let t = self.similarity_threshold;
        if !(t.den > 0 && t.num <= t.den) {
            let mut m = "similarity_threshold must be a fraction between 0.0 and 1.0, got ".to_string();
            m.append(ratio_string(t).as_str());
            return Err(m);
        }
        if !percent_ok(self.max_exact_percent) {
            return Err(percent_error("max_exact_percent", self.max_exact_percent));
        }
        if !percent_ok(self.max_near_percent) {
            return Err(percent_error("max_near_percent", self.max_near_percent));
        }
        Ok(())
    }
}

} // verus!
