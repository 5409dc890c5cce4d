//! The decisions of the command line: errors and exit codes, settings from
//! flags, the ceilings of `check`, and the ignore-list commands.
use vstd::prelude::*;

use crate::config::{Config, Percentage};
use crate::fingerprint::{parse_hex, Fingerprint};
use crate::grouper::DuplicationStats;
use crate::ignore::{
    add_ignore, entry_views, live_entries, remove_stale_entries, find_stale_entries,
    stale_entries, strings, EntryView, IgnoreEntry, IgnoreFile,
};
use crate::similarity::Ratio;
use crate::text::{decimal, decimal_string, join_strings, joined};

verus! {

/// Errors of the command-line commands.
#[derive(Debug)]
pub enum CliError {
    /// Reading or writing failed, with the system's message.
    Io(String),
    /// No source files under the given path.
    NoSourceFiles(String),
    /// No recognized source files for choosing a language.
    NoRecognizedFiles,
    /// More than one language found; the user must choose.
    AmbiguousLanguage(Vec<String>),
    /// The analysis failed, with its message.
    Analysis(String),
    /// A fingerprint that is not valid hex.
    InvalidFingerprint(String),
    /// A ceiling of `check` was exceeded.
    CheckFailed,
}

/// The text of an error.
pub open spec fn error_text(e: CliError) -> Seq<char> {
    match e {
        CliError::Io(m) => m@,
        CliError::NoSourceFiles(p) => "No source files found in "@ + p@,
        CliError::NoRecognizedFiles => "No recognized source files found. Use --language to specify the language."@,
        CliError::AmbiguousLanguage(ls) => "Multiple languages detected: "@ + joined(
            strings(ls@),
            ", "@,
        ) + ". Use --language to specify which to analyze."@,
        CliError::Analysis(m) => m@,
        CliError::InvalidFingerprint(fp) => "Invalid fingerprint: "@ + fp@,
        CliError::CheckFailed => "Check failed"@,
    }
}

impl CliError {
    /// The process exit code: 1 when a ceiling was exceeded, 2 for every
    /// other error.
    pub fn exit_code(&self) -> (r: i32)
        ensures
            r == if *self is CheckFailed {
                1i32
            } else {
                2i32
            },
    {
        match self {
            CliError::CheckFailed => 1,
            _ => 2,
        }
    }

    /// The text of the error.
    pub fn to_string(&self) -> (r: String)
        ensures
            r@ == error_text(*self),
    {
        match self {
            CliError::Io(m) => m.clone(),
            CliError::NoSourceFiles(p) => {
                let mut s = "No source files found in ".to_string();
                s.append(p.as_str());
                s
            },
            CliError::NoRecognizedFiles => "No recognized source files found. Use --language to specify the language.".to_string(),
            CliError::AmbiguousLanguage(ls) => {
                let mut s = "Multiple languages detected: ".to_string();
                s.append(join_strings(ls, ", ").as_str());
                s.append(". Use --language to specify which to analyze.");
                s
            },
            CliError::Analysis(m) => m.clone(),
            CliError::InvalidFingerprint(fp) => {
                let mut s = "Invalid fingerprint: ".to_string();
                s.append(fp.as_str());
                s
            },
            CliError::CheckFailed => "Check failed".to_string(),
        }
    }
}

/// The format of reports.
#[derive(Clone, Copy, Debug, PartialEq, Eq, Structural)]
pub enum OutputFormat {
    Text,
    Json,
}

impl Default for OutputFormat {
    fn default() -> (r: OutputFormat)
        ensures
            r == OutputFormat::Text,
    {
        OutputFormat::Text
    }
}

/// The reporter that writes reports: its format, and the root that paths
/// are shown relative to.
#[derive(Debug)]
pub struct Reporter {
    pub format: OutputFormat,
    pub root: Option<String>,
}

/// The reporter for the given format.
pub fn create_reporter(format: OutputFormat, root: Option<String>) -> (r: Reporter)
    ensures
        r.format == format,
        r.root == root,
{
    Reporter { format, root }
}

/// The subcommands of the command line.
#[derive(Debug)]
pub enum Command {
    /// Show duplication statistics only.
    Stats,
    /// Show the full duplication report.
    Report,
    /// Check for duplicates and fail when a ceiling is exceeded.
    Check {
        max_exact: Option<usize>,
        max_near: Option<usize>,
        max_exact_percent: Option<Percentage>,
        max_near_percent: Option<Percentage>,
    },
    /// Add a fingerprint, given as hex, to the ignore list.
    Ignore { fingerprint: String, reason: Option<String> },
    /// List the ignored fingerprints.
    Ignored,
    /// Remove stale entries from the ignore list.
    Cleanup { dry_run: bool },
}

/// The ceilings of the `check` command given on the command line.
#[derive(Clone, Copy, Debug)]
pub struct CheckThresholds {
    pub max_exact: Option<usize>,
    pub max_near: Option<usize>,
    pub max_exact_percent: Option<Percentage>,
    pub max_near_percent: Option<Percentage>,
}

impl Default for CheckThresholds {
    /// No ceiling at all.
    fn default() -> (r: CheckThresholds)
        ensures
            r.max_exact is None,
            r.max_near is None,
            r.max_exact_percent is None,
            r.max_near_percent is None,
    {
        CheckThresholds { max_exact: None, max_near: None, max_exact_percent: None, max_near_percent: None }
    }
}

impl CheckThresholds {
    /// Whether no ceiling is given on the command line.
    pub fn is_unbounded(&self) -> (r: bool)
        ensures
            r == (self.max_exact is None && self.max_near is None && self.max_exact_percent is None
                && self.max_near_percent is None),
    {
        self.max_exact.is_none() && self.max_near.is_none() && self.max_exact_percent.is_none()
            && self.max_near_percent.is_none()
    }
}

/// Settings given on the command line, which override the configuration.
#[derive(Debug)]
pub struct CliOverrides {
    pub min_nodes: Option<usize>,
    pub min_lines: Option<usize>,
    pub threshold: Option<Ratio>,
    /// Exclusions added to those of the configuration.
    pub exclude: Vec<String>,
    pub exclude_tests: Option<bool>,
    pub sub_function: Option<bool>,
    pub min_sub_nodes: Option<usize>,
}

impl Default for CliOverrides {
    /// No setting given.
    fn default() -> (r: CliOverrides)
        ensures
            r.min_nodes is None,
            r.min_lines is None,
            r.threshold is None,
            r.exclude@.len() == 0,
            r.exclude_tests is None,
            r.sub_function is None,
            r.min_sub_nodes is None,
    {
        CliOverrides {
            min_nodes: None,
            min_lines: None,
            threshold: None,
            exclude: Vec::new(),
            exclude_tests: None,
            sub_function: None,
            min_sub_nodes: None,
        }
    }
}

/// The value given, or the one there was.
pub open spec fn or_else<T>(given: Option<T>, was: T) -> T {
    match given {
        Some(v) => v,
        None => was,
    }
}

/// Applies command-line settings to the configuration: each one given
/// replaces the configured one, and exclusions are added to the configured
/// ones.
pub fn apply_overrides(config: &mut Config, overrides: &CliOverrides)
    ensures
        final(config).root == old(config).root,
        final(config).min_nodes == or_else(overrides.min_nodes, old(config).min_nodes),
        final(config).min_lines == or_else(overrides.min_lines, old(config).min_lines),
        final(config).similarity_threshold == or_else(
            overrides.threshold,
            old(config).similarity_threshold,
        ),
        strings(final(config).exclude@) == strings(old(config).exclude@) + strings(
            overrides.exclude@,
        ),
        final(config).exclude_tests == or_else(overrides.exclude_tests, old(config).exclude_tests),
        final(config).sub_function == or_else(overrides.sub_function, old(config).sub_function),
        final(config).min_sub_nodes == or_else(overrides.min_sub_nodes, old(config).min_sub_nodes),
        final(config).max_exact_duplicates == old(config).max_exact_duplicates,
        final(config).max_near_duplicates == old(config).max_near_duplicates,
        final(config).max_exact_percent == old(config).max_exact_percent,
        final(config).max_near_percent == old(config).max_near_percent,
{
    if let Some(v) = overrides.min_nodes {
        config.min_nodes = v;
    }
    if let Some(v) = overrides.min_lines {
        config.min_lines = v;
    }
    if let Some(v) = overrides.threshold {
        config.similarity_threshold = v;
    }
    let n = overrides.exclude.len();
    let ghost start = strings(config.exclude@);
    for i in 0..n
        invariant
            n == overrides.exclude@.len(),
            strings(config.exclude@) == start + strings(overrides.exclude@.take(i as int)),
            config.root == old(config).root,
            config.min_nodes == or_else(overrides.min_nodes, old(config).min_nodes),
            config.min_lines == or_else(overrides.min_lines, old(config).min_lines),
            config.similarity_threshold == or_else(
                overrides.threshold,
                old(config).similarity_threshold,
            ),
            config.exclude_tests == old(config).exclude_tests,
            config.sub_function == old(config).sub_function,
            config.min_sub_nodes == old(config).min_sub_nodes,
            config.max_exact_duplicates == old(config).max_exact_duplicates,
            config.max_near_duplicates == old(config).max_near_duplicates,
            config.max_exact_percent == old(config).max_exact_percent,
            config.max_near_percent == old(config).max_near_percent,
    {
        let c = overrides.exclude[i].clone();
        let ghost before = strings(config.exclude@);
        config.exclude.push(c);
        proof {
            assert(strings(config.exclude@) =~= before.push(c@));
            assert(strings(overrides.exclude@.take(i + 1)) =~= strings(
                overrides.exclude@.take(i as int),
            ).push(overrides.exclude@[i as int]@));
        }
    }
    proof {
        assert(overrides.exclude@.take(n as int) =~= overrides.exclude@);
    }
    if let Some(v) = overrides.exclude_tests {
        config.exclude_tests = v;
    }
    if let Some(v) = overrides.sub_function {
        config.sub_function = v;
    }
    if let Some(v) = overrides.min_sub_nodes {
        config.min_sub_nodes = v;
    }
}

/// A ceiling of `check` that was exceeded.
#[derive(Clone, Copy, Debug, PartialEq, Eq, Structural)]
pub enum Breach {
    /// More exact duplicate groups than allowed.
    ExactGroups { count: usize, max: usize },
    /// More near duplicate groups than allowed.
    NearGroups { count: usize, max: usize },
    /// A larger share of exact duplicate lines than allowed.
    ExactPercent { max_percent: Percentage },
    /// A larger share of near duplicate lines than allowed.
    NearPercent { max_percent: Percentage },
}

/// Whether `lines` out of `total` is more than `p` percent; no lines at
/// all are zero percent.
pub open spec fn percent_exceeds(lines: nat, total: nat, p: Percentage) -> bool {
    if total == 0 {
        p.num < 0
    } else {
        lines * 100 * p.den > p.num * total
    }
}

/// The ceiling given on the command line, or the configured one.
pub open spec fn ceiling<T>(given: Option<T>, configured: Option<T>) -> Option<T> {
    match given {
        Some(v) => Some(v),
        None => configured,
    }
}

/// The ceilings that the statistics exceed, in the order exact groups,
/// near groups, exact percentage, near percentage.
pub open spec fn breaches(config: Config, stats: DuplicationStats, t: CheckThresholds) -> Seq<Breach> {
    let a: Seq<Breach> = match ceiling(t.max_exact, config.max_exact_duplicates) {
        Some(max) => if stats.exact_duplicate_groups > max {
            seq![Breach::ExactGroups { count: stats.exact_duplicate_groups, max }]
        } else {
            Seq::empty()
        },
        None => Seq::empty(),
    };
    let b: Seq<Breach> = match ceiling(t.max_near, config.max_near_duplicates) {
        Some(max) => if stats.near_duplicate_groups > max {
            seq![Breach::NearGroups { count: stats.near_duplicate_groups, max }]
        } else {
            Seq::empty()
        },
        None => Seq::empty(),
    };
    let c: Seq<Breach> = match ceiling(t.max_exact_percent, config.max_exact_percent) {
        Some(p) => if percent_exceeds(
            stats.exact_duplicate_lines as nat,
            stats.total_lines as nat,
            p,
        ) {
            seq![Breach::ExactPercent { max_percent: p }]
        } else {
            Seq::empty()
        },
        None => Seq::empty(),
    };
    let d: Seq<Breach> = match ceiling(t.max_near_percent, config.max_near_percent) {
        Some(p) => if percent_exceeds(stats.near_duplicate_lines as nat, stats.total_lines as nat, p) {
            seq![Breach::NearPercent { max_percent: p }]
        } else {
            Seq::empty()
        },
        None => Seq::empty(),
    };
    a + b + c + d
}

/// With no ceiling given on the command line and none configured, `check`
/// cannot fail, however much duplication there is.
pub proof fn law_unbounded_check_cannot_fail(config: Config, stats: DuplicationStats, t: CheckThresholds)
    requires
        t.max_exact is None,
        t.max_near is None,
        t.max_exact_percent is None,
        t.max_near_percent is None,
        config.max_exact_duplicates is None,
        config.max_near_duplicates is None,
        config.max_exact_percent is None,
        config.max_near_percent is None,
    ensures
        breaches(config, stats, t) == Seq::<Breach>::empty(),
{
    assert(breaches(config, stats, t) =~= Seq::<Breach>::empty());
}

/// A ceiling given on the command line is the one applied, whatever the
/// configuration holds: more exact (near) groups than the given maximum is
/// a breach naming that maximum, and no more is none; likewise for the
/// percentages. Without a ceiling on the command line, the configured one
/// is applied the same way.
pub proof fn law_command_line_ceiling_prevails(config: Config, stats: DuplicationStats, t: CheckThresholds)
    ensures
        t.max_exact matches Some(m) ==> (stats.exact_duplicate_groups > m <==> breaches(config, stats, t).contains(
            Breach::ExactGroups { count: stats.exact_duplicate_groups, max: m },
        )),
        t.max_exact matches Some(m) ==> (stats.exact_duplicate_groups <= m ==> forall|i: int|
            0 <= i < breaches(config, stats, t).len() ==> !(#[trigger] breaches(config, stats, t)[i] is ExactGroups)),
        t.max_near matches Some(m) ==> (stats.near_duplicate_groups > m <==> breaches(config, stats, t).contains(
            Breach::NearGroups { count: stats.near_duplicate_groups, max: m },
        )),
        t.max_near matches Some(m) ==> (stats.near_duplicate_groups <= m ==> forall|i: int|
            0 <= i < breaches(config, stats, t).len() ==> !(#[trigger] breaches(config, stats, t)[i] is NearGroups)),
        t.max_exact_percent matches Some(p) ==> ((if stats.total_lines == 0 {
            p.num < 0
        } else {
            stats.exact_duplicate_lines * 100 * p.den > p.num * stats.total_lines
        }) <==> breaches(config, stats, t).contains(
            Breach::ExactPercent { max_percent: p },
        )),
        t.max_near_percent matches Some(p) ==> ((if stats.total_lines == 0 {
            p.num < 0
        } else {
            stats.near_duplicate_lines * 100 * p.den > p.num * stats.total_lines
        }) <==> breaches(config, stats, t).contains(
            Breach::NearPercent { max_percent: p },
        )),
        t.max_exact is None ==> (config.max_exact_duplicates matches Some(m) ==> (stats.exact_duplicate_groups
            > m <==> breaches(config, stats, t).contains(
            Breach::ExactGroups { count: stats.exact_duplicate_groups, max: m },
        ))),
        t.max_near is None ==> (config.max_near_duplicates matches Some(m) ==> (stats.near_duplicate_groups
            > m <==> breaches(config, stats, t).contains(
            Breach::NearGroups { count: stats.near_duplicate_groups, max: m },
        ))),
{
    let b = breaches(config, stats, t);
    let e = ceiling(t.max_exact, config.max_exact_duplicates);
    let n = ceiling(t.max_near, config.max_near_duplicates);
    let pa: Seq<Breach> = match e {
        Some(max) => if stats.exact_duplicate_groups > max {
            seq![Breach::ExactGroups { count: stats.exact_duplicate_groups, max }]
        } else {
            Seq::empty()
        },
        None => Seq::empty(),
    };
    let pb: Seq<Breach> = match n {
        Some(max) => if stats.near_duplicate_groups > max {
            seq![Breach::NearGroups { count: stats.near_duplicate_groups, max }]
        } else {
            Seq::empty()
        },
        None => Seq::empty(),
    };
    let pc: Seq<Breach> = match ceiling(t.max_exact_percent, config.max_exact_percent) {
        Some(p) => if percent_exceeds(stats.exact_duplicate_lines as nat, stats.total_lines as nat, p) {
            seq![Breach::ExactPercent { max_percent: p }]
        } else {
            Seq::empty()
        },
        None => Seq::empty(),
    };
    let pd: Seq<Breach> = match ceiling(t.max_near_percent, config.max_near_percent) {
        Some(p) => if percent_exceeds(stats.near_duplicate_lines as nat, stats.total_lines as nat, p) {
            seq![Breach::NearPercent { max_percent: p }]
        } else {
            Seq::empty()
        },
        None => Seq::empty(),
    };
    assert(b =~= pa + pb + pc + pd);
    let o1 = pa.len() as int;
    let o2 = o1 + pb.len();
    let o3 = o2 + pc.len();
    assert forall|x: Breach| #[trigger] b.contains(x) implies (x is ExactGroups ==> pa.contains(x)) && (
    x is NearGroups ==> pb.contains(x)) && (x is ExactPercent ==> pc.contains(x)) && (x is NearPercent
        ==> pd.contains(x)) by {
        let i = choose|i: int| 0 <= i < b.len() && b[i] == x;
        if i < o1 {
            assert(pa[i] == x);
        } else if i < o2 {
            assert(pb[i - o1] == x);
        } else if i < o3 {
            assert(pc[i - o2] == x);
        } else {
            assert(pd[i - o3] == x);
        }
    }
    assert forall|i: int| 0 <= i < b.len() implies (#[trigger] b[i] is ExactGroups ==> o1 > 0) && (
    b[i] is NearGroups ==> o2 > o1) by {
        if i < o1 {
        } else if i < o2 {
            assert(b[i] == pb[i - o1]);
        } else if i < o3 {
            assert(b[i] == pc[i - o2]);
        } else {
            assert(b[i] == pd[i - o3]);
        }
    }
    if pa.len() > 0 {
        assert(b[0] == pa[0]);
    }
    if pb.len() > 0 {
        assert(b[o1] == pb[0]);
    }
    if pc.len() > 0 {
        assert(b[o2] == pc[0]);
    }
    if pd.len() > 0 {
        assert(b[o3] == pd[0]);
    }
}

/// Whether `lines` out of `total` is more than `p` percent.
fn exceeds_percent(lines: usize, total: usize, p: Percentage) -> (r: bool)
    requires
        p.den > 0,
    ensures
        r == percent_exceeds(lines as nat, total as nat, p),
{
    if total == 0 {
        return p.num < 0;
    }
    let l = lines as i128;
    let d = p.den as i128;
    let n = p.num as i128;
    let t = total as i128;
    assert(l * 100 * d <= 0x1_0000_0000_0000_0000 * 100 * 0x1_0000_0000) by (nonlinear_arith)
        requires
            0 <= l < 0x1_0000_0000_0000_0000,
            0 <= d < 0x1_0000_0000,
    ;
    assert(-0x8000_0000_0000_0000 * 0xffff_ffff_ffff_ffff <= n * t <= 0x7fff_ffff_ffff_ffff
        * 0xffff_ffff_ffff_ffff) by (nonlinear_arith)
        requires
            -0x8000_0000_0000_0000 <= n <= 0x7fff_ffff_ffff_ffff,
            0 <= t <= 0xffff_ffff_ffff_ffff,
    ;
    l * 100 * d > n * t
}

/// The ceilings that the statistics exceed: a ceiling given on the
/// command line takes the place of the configured one. `check` fails
/// exactly when there is one.
pub fn cmd_check(config: &Config, stats: &DuplicationStats, thresholds: &CheckThresholds) -> (r: (
    Vec<Breach>,
    Result<(), CliError>,
))
    requires
        ceiling(thresholds.max_exact_percent, config.max_exact_percent) matches Some(p) ==> p.den > 0,
        ceiling(thresholds.max_near_percent, config.max_near_percent) matches Some(p) ==> p.den > 0,
    ensures
        r.0@ == breaches(*config, *stats, *thresholds),
        r.1 matches Err(e) ==> e is CheckFailed,
        r.1 is Err <==> r.0@.len() > 0,
{
    let mut out: Vec<Breach> = Vec::new();
    let max_exact = match thresholds.max_exact {
        Some(v) => Some(v),
        None => config.max_exact_duplicates,
    };
    let max_near = match thresholds.max_near {
        Some(v) => Some(v),
        None => config.max_near_duplicates,
    };
    let max_exact_pct = match thresholds.max_exact_percent {
        Some(v) => Some(v),
        None => config.max_exact_percent,
    };
    let max_near_pct = match thresholds.max_near_percent {
        Some(v) => Some(v),
        None => config.max_near_percent,
    };
    if let Some(max) = max_exact {
        if stats.exact_duplicate_groups > max {
            out.push(Breach::ExactGroups { count: stats.exact_duplicate_groups, max });
        }
    }
    if let Some(max) = max_near {
        if stats.near_duplicate_groups > max {
            out.push(Breach::NearGroups { count: stats.near_duplicate_groups, max });
        }
    }
    if let Some(p) = max_exact_pct {
        if exceeds_percent(stats.exact_duplicate_lines, stats.total_lines, p) {
            out.push(Breach::ExactPercent { max_percent: p });
        }
    }
    if let Some(p) = max_near_pct {
        if exceeds_percent(stats.near_duplicate_lines, stats.total_lines, p) {
            out.push(Breach::NearPercent { max_percent: p });
        }
    }
    assert(out@ =~= breaches(*config, *stats, *thresholds));
    let result = if out.len() > 0 {
        Err(CliError::CheckFailed)
    } else {
        Ok(())
    };
    (out, result)
}

/// Which groups a failed `check` lists: the exact groups when an exact
/// ceiling was exceeded, the near groups when a near one was. Each set is
/// listed once, however many of its ceilings were exceeded.
pub fn breached_sections(breaches: &[Breach]) -> (r: (bool, bool))
    ensures
        r.0 <==> exists|i: int| 0 <= i < breaches@.len() && (#[trigger] breaches@[i] is ExactGroups
            || breaches@[i] is ExactPercent),
        r.1 <==> exists|i: int| 0 <= i < breaches@.len() && (#[trigger] breaches@[i] is NearGroups
            || breaches@[i] is NearPercent),
{
    let mut exact = false;
    let mut near = false;
    let n = breaches.len();
    for i in 0..n
        invariant
            n == breaches@.len(),
            exact <==> exists|j: int| 0 <= j < i && (#[trigger] breaches@[j] is ExactGroups
                || breaches@[j] is ExactPercent),
            near <==> exists|j: int| 0 <= j < i && (#[trigger] breaches@[j] is NearGroups
                || breaches@[j] is NearPercent),
    {
        match breaches[i] {
            Breach::ExactGroups { .. } | Breach::ExactPercent { .. } => {
                exact = true;
            },
            Breach::NearGroups { .. } | Breach::NearPercent { .. } => {
                near = true;
            },
        }
        proof {
            assert(breaches@[i as int] == breaches[i as int]);
        }
    }
    (exact, near)
}

/// The line that lists an ignore entry: its fingerprint, its reason in
/// parentheses, and its members in brackets, each when there is one.
pub open spec fn entry_line(e: EntryView) -> Seq<char> {
    "  "@ + e.fingerprint + (match e.reason {
        Some(r) => " (reason: "@ + r + ")"@,
        None => Seq::empty(),
    }) + (if e.members.len() > 0 {
        " ["@ + joined(e.members, ", "@) + "]"@
    } else {
        Seq::empty()
    })
}

/// The line that lists an ignore entry.
pub fn write_ignore_entry(entry: &IgnoreEntry) -> (r: String)
    ensures
        r@ == entry_line(entry@),
{
    let mut s = "  ".to_string();
    s.append(entry.fingerprint.as_str());
    if let Some(reason) = &entry.reason {
        s.append(" (reason: ");
        s.append(reason.as_str());
        s.append(")");
    }
    if entry.members.len() > 0 {
        s.append(" [");
        s.append(join_strings(&entry.members, ", ").as_str());
        s.append("]");
    }
    s
}

/// The lines of each entry, in order.
pub open spec fn entry_lines(es: Seq<EntryView>) -> Seq<Seq<char>> {
    es.map_values(|e: EntryView| entry_line(e))
}

/// The lines of the entries.
fn entry_line_list(entries: &Vec<IgnoreEntry>) -> (r: Vec<String>)
    ensures
        strings(r@) == entry_lines(entry_views(entries@)),
{
    let mut out: Vec<String> = Vec::new();
    let n = entries.len();
    for i in 0..n
        invariant
            n == entries@.len(),
            strings(out@) == entry_lines(entry_views(entries@.take(i as int))),
    {
        let line = write_ignore_entry(&entries[i]);
        let ghost before = strings(out@);
        out.push(line);
        proof {
            assert(strings(out@) =~= before.push(line@));
            assert(entry_lines(entry_views(entries@.take(i + 1))) =~= entry_lines(
                entry_views(entries@.take(i as int)),
            ).push(entry_line(entries@[i as int]@)));
        }
    }
    proof {
        assert(entries@.take(n as int) =~= entries@);
    }
    out
}

/// The message that adds a fingerprint.
pub open spec fn added_message(fingerprint: Seq<char>) -> Seq<char> {
    "Added "@ + fingerprint + " to ignore list."@
}

/// Adds a fingerprint, given as hex, to the ignore list, and says so; a
/// text that is not a fingerprint is an error and leaves the list as it is.
pub fn cmd_ignore(ignore_file: &mut IgnoreFile, fingerprint: &str, reason: Option<String>) -> (r:
    Result<String, CliError>)
    ensures
        match parse_hex(fingerprint@) {
            Some(v) => {
                &&& r matches Ok(m) && m@ == added_message(fingerprint@)
                &&& crate::ignore::lists(entry_views(old(ignore_file).ignore@), Fingerprint(v))
                    ==> final(ignore_file).ignore@ == old(ignore_file).ignore@
                &&& !crate::ignore::lists(entry_views(old(ignore_file).ignore@), Fingerprint(v))
                    ==> entry_views(final(ignore_file).ignore@) == entry_views(
                    old(ignore_file).ignore@,
                ).push(
                    EntryView {
                        fingerprint: crate::fingerprint::hex_digits(v as nat, 16),
                        reason: match reason {
                            Some(x) => Some(x@),
                            None => None,
                        },
                        members: Seq::empty(),
                    },
                )
            },
            None => {
                &&& r matches Err(CliError::InvalidFingerprint(f)) && f@ == fingerprint@
                &&& final(ignore_file).ignore@ == old(ignore_file).ignore@
            },
        },
{
    match Fingerprint::from_hex(fingerprint) {
        Some(fp) => {
            let members: Vec<String> = Vec::new();
            proof {
                assert(strings(members@) =~= Seq::<Seq<char>>::empty());
            }
            add_ignore(ignore_file, &fp, reason, members);
            let mut m = "Added ".to_string();
            m.append(fingerprint);
            m.append(" to ignore list.");
            Ok(m)
        },
        None => Err(CliError::InvalidFingerprint(fingerprint.to_string())),
    }
}

/// The lines that list the ignore list.
pub open spec fn ignored_lines(es: Seq<EntryView>) -> Seq<Seq<char>> {
    if es.len() == 0 {
        seq!["No ignored fingerprints."@]
    } else {
        seq!["Ignored fingerprints:"@] + entry_lines(es)
    }
}

/// The lines that list the ignored fingerprints.
pub fn cmd_ignored(ignore_file: &IgnoreFile) -> (r: Vec<String>)
    ensures
        strings(r@) == ignored_lines(entry_views(ignore_file.ignore@)),
{
    let mut out: Vec<String> = Vec::new();
    if ignore_file.ignore.len() == 0 {
        out.push("No ignored fingerprints.".to_string());
        proof {
            assert(strings(out@) =~= ignored_lines(entry_views(ignore_file.ignore@)));
        }
    } else {
        out.push("Ignored fingerprints:".to_string());
        let mut lines = entry_line_list(&ignore_file.ignore);
        let ghost a = strings(out@);
        let ghost b = strings(lines@);
        out.append(&mut lines);
        proof {
            assert(strings(out@) =~= a + b);
            assert(strings(out@) =~= ignored_lines(entry_views(ignore_file.ignore@)));
        }
    }
    out
}

/// The lines that `cleanup` writes about the given stale entries.
pub open spec fn cleanup_lines(stale: Seq<EntryView>, dry_run: bool) -> Seq<Seq<char>> {
    if stale.len() == 0 {
        seq!["No stale entries found."@]
    } else if dry_run {
        seq!["Stale entries (dry run):"@] + entry_lines(stale) + seq![
            Seq::empty(),
            decimal(stale.len()) + " stale entries would be removed."@,
        ]
    } else {
        seq!["Removed stale entries:"@] + entry_lines(stale) + seq![
            Seq::empty(),
            "Removed "@ + decimal(stale.len()) + " stale entries."@,
        ]
    }
}

/// Finds the ignore entries that no longer match any of the fingerprints
/// and, unless it is a dry run, removes them. Returns the lines to write,
/// and whether the ignore list changed and must be saved.
pub fn cmd_cleanup(ignore_file: &mut IgnoreFile, all_fingerprints: &[Fingerprint], dry_run: bool) -> (r:
    (Vec<String>, bool))
    ensures
        strings(r.0@) == cleanup_lines(
            stale_entries(entry_views(old(ignore_file).ignore@), all_fingerprints@),
            dry_run,
        ),
        r.1 == (!dry_run && stale_entries(
            entry_views(old(ignore_file).ignore@),
            all_fingerprints@,
        ).len() > 0),
        dry_run ==> final(ignore_file).ignore@ == old(ignore_file).ignore@,
        !dry_run ==> entry_views(final(ignore_file).ignore@) == live_entries(
            entry_views(old(ignore_file).ignore@),
            all_fingerprints@,
        ),
{
    let stale = if dry_run {
        find_stale_entries(ignore_file, all_fingerprints)
    } else {
        remove_stale_entries(ignore_file, all_fingerprints)
    };
    let mut out: Vec<String> = Vec::new();
    if stale.len() == 0 {
        out.push("No stale entries found.".to_string());
        proof {
            assert(strings(out@) =~= cleanup_lines(entry_views(stale@), dry_run));
        }
        return (out, false);
    }
    if dry_run {
        out.push("Stale entries (dry run):".to_string());
    } else {
        out.push("Removed stale entries:".to_string());
    }
    let mut lines = entry_line_list(&stale);
    let ghost a = strings(out@);
    let ghost b = strings(lines@);
    out.append(&mut lines);
    out.push(String::new());
    let count = decimal_string(stale.len() as u64);
    let last = if dry_run {
        let mut s = count;
        s.append(" stale entries would be removed.");
        s
    } else {
        let mut s = "Removed ".to_string();
        s.append(count.as_str());
        s.append(" stale entries.");
        s
    };
    out.push(last);
    proof {
        assert(strings(out@) =~= cleanup_lines(entry_views(stale@), dry_run));
    }
    (out, !dry_run)
}

} // verus!
