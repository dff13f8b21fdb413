//! The exposure of packages: the trust-region count summed over the source
//! files of a package, and the reports that are made of it package by package.

use vstd::prelude::*;
use crate::analyzer::{file_count, saturated, unsafe_lines_of_file};
use crate::format::{decimal, decimal_text};
use crate::identity::PackageIdentity;
use crate::syntax::SourceFile;

verus! {

/// Whether a path names a source file: its last component ends in `.rs` and
/// has something in front of that.
pub open spec fn has_source_extension(path: Seq<char>) -> bool {
    let n = path.len() as int;
    &&& n >= 4
    &&& path[n - 1] == 's'
    &&& path[n - 2] == 'r'
    &&& path[n - 3] == '.'
    &&& path[n - 4] != '/'
}

/// Whether a path names a source file.
pub fn is_source_file(path: &str) -> (r: bool)
    ensures
        r == has_source_extension(path@),
{
    let n = path.unicode_len();
    if n < 4 {
        return false;
    }
    path.get_char(n - 1) == 's' && path.get_char(n - 2) == 'r' && path.get_char(n - 3) == '.'
        && path.get_char(n - 4) != '/'
}

/// What became of reading a file as source text.
#[derive(Debug)]
pub enum FileContent {
    /// The file was parsed into a syntax tree.
    Parsed(SourceFile),
    /// The file is not valid source text, for the reason given.
    Malformed(String),
}

/// A file below the source root of a package.
#[derive(Debug)]
pub struct SourceUnit {
    pub path: String,
    pub content: FileContent,
}

/// A source file that could not be parsed.
#[derive(Debug)]
pub struct ParseError {
    pub path: String,
    pub reason: String,
}

impl SourceUnit {
    /// Whether the file takes part in the count.
    pub open spec fn is_selected(&self) -> bool {
        has_source_extension(self.path@)
    }

    /// Whether the file takes part in the count and could not be parsed.
    pub open spec fn fails(&self) -> bool {
        self.is_selected() && self.content is Malformed
    }

    /// What the file adds to the count of its package.
    pub open spec fn contribution(&self) -> nat {
        match self.content {
            FileContent::Parsed(file) => if self.is_selected() {
                file_count(file)
            } else {
                0
            },
            FileContent::Malformed(_) => 0,
        }
    }
}

/// How the count of a package ends.
pub ghost enum Outcome {
    /// Every selected file was parsed; the sum of their counts.
    Counted(nat),
    /// The file at this place is the first selected one that could not be
    /// parsed.
    Failed(int),
}

/// The outcome of counting the files in their order.
pub open spec fn outcome(units: Seq<SourceUnit>) -> Outcome
    decreases units.len(),
{
    if units.len() == 0 {
        Outcome::Counted(0)
    } else {
        match outcome(units.drop_last()) {
            Outcome::Failed(k) => Outcome::Failed(k),
            Outcome::Counted(n) => if units.last().fails() {
                Outcome::Failed(units.len() - 1)
            } else {
                Outcome::Counted(n + units.last().contribution())
            },
        }
    }
}

/// The count fails exactly where some selected file could not be parsed, and
/// then at the first such file.
pub proof fn law_outcome_fails_at_first_malformed(units: Seq<SourceUnit>)
    ensures
        match outcome(units) {
            Outcome::Failed(k) => {
                &&& 0 <= k < units.len()
                &&& units[k].fails()
                &&& forall|j: int| 0 <= j < k ==> !(#[trigger] units[j]).fails()
            },
            Outcome::Counted(_) => forall|j: int| 0 <= j < units.len() ==> !(#[trigger] units[j]).fails(),
        },
    decreases units.len(),
{
    if units.len() > 0 {
        let front = units.drop_last();
        law_outcome_fails_at_first_malformed(front);
        match outcome(front) {
            Outcome::Failed(k) => {
                assert(front[k] == units[k]);
                assert forall|j: int| 0 <= j < k implies !(#[trigger] units[j]).fails() by {
                    assert(front[j] == units[j]);
                }
            },
            Outcome::Counted(_) => {
                assert forall|j: int| 0 <= j < units.len() - 1 implies !(#[trigger] units[j]).fails() by {
                    assert(front[j] == units[j]);
                }
            },
        }
    }
}

/// A count that has failed on the first files has failed on all of them, at
/// the same place.
proof fn lemma_failure_stays(units: Seq<SourceUnit>, upto: int, k: int)
    requires
        0 <= upto <= units.len(),
        outcome(units.take(upto)) == Outcome::Failed(k),
    ensures
        outcome(units) == Outcome::Failed(k),
    decreases units.len() - upto,
{
    if upto < units.len() {
        let next = units.take(upto + 1);
        assert(next.drop_last() == units.take(upto));
        lemma_failure_stays(units, upto + 1, k);
    } else {
        assert(units.take(upto) == units);
    }
}

impl ParseError {
    /// What the error reads as.
    pub open spec fn message_text(e: ParseError) -> Seq<char> {
        "cannot parse "@ + e.path@ + ": "@ + e.reason@
    }

    /// Writes the error as a text.
    pub fn message(&self) -> (text: String)
        ensures
            text@ == Self::message_text(*self),
    {
        let mut text = "cannot parse ".to_owned();
        text.append(self.path.as_str());
        text.append(": ");
        text.append(self.reason.as_str());
        text
    }
}

/// Whether `r` is what counting the files gives: the sum of the counts of the
/// selected files, or the error that names the first of them that could not
/// be parsed, and the reason that was given for it.
pub open spec fn is_exposure_of(units: Seq<SourceUnit>, r: Result<usize, ParseError>) -> bool {
    match outcome(units) {
        Outcome::Counted(n) => r matches Ok(count) && count == saturated(n),
        Outcome::Failed(k) => {
            &&& r matches Err(e)
            &&& e.path@ == units[k].path@
            &&& units[k].content matches FileContent::Malformed(reason)
            &&& e.reason@ == reason@
        },
    }
}

/// Counting the same files again gives the same: two results of one list of
/// files are both counts, and equal, or both errors, of the same file and
/// with the same reason.
pub proof fn law_count_is_repeatable(
    units: Seq<SourceUnit>,
    first: Result<usize, ParseError>,
    second: Result<usize, ParseError>,
)
    requires
        is_exposure_of(units, first),
        is_exposure_of(units, second),
    ensures
        match (first, second) {
            (Ok(a), Ok(b)) => a == b,
            (Err(a), Err(b)) => a.path@ == b.path@ && a.reason@ == b.reason@,
            _ => false,
        },
{
}

/// Counts the exposure of a package from its files. Files that are not source
/// files are passed over. A source file that could not be parsed ends the
/// count with an error that names the first such file.
pub fn count_exposure(units: &Vec<SourceUnit>) -> (r: Result<usize, ParseError>)
    ensures
        is_exposure_of(units@, r),
{
    let mut total: usize = 0;
    let ghost mut exact: nat = 0;
    let mut i: usize = 0;
    assert(units@.take(0) == Seq::<SourceUnit>::empty());
    while i < units.len()
        invariant
            i <= units.len(),
            outcome(units@.take(i as int)) == Outcome::Counted(exact),
            total == saturated(exact),
        decreases units.len() - i,
    {
        let unit = &units[i];
        proof {
            let next = units@.take(i + 1);
            assert(next.drop_last() == units@.take(i as int));
            assert(next.last() == units@[i as int]);
        }
        if is_source_file(unit.path.as_str()) {
            match &unit.content {
                FileContent::Parsed(file) => {
                    let n = unsafe_lines_of_file(file);
                    total = total.saturating_add(n);
                    proof {
                        exact = exact + file_count(*file);
                    }
                },
                FileContent::Malformed(reason) => {
                    proof {
                        law_outcome_fails_at_first_malformed(units@.take(i + 1));
                        lemma_failure_stays(units@, i + 1, i as int);
                    }
                    return Err(ParseError { path: unit.path.clone(), reason: reason.clone() });
                },
            }
        }
        i += 1;
    }
    assert(units@.take(i as int) == units@);
    Ok(total)
}

/// The files of one package.
#[derive(Debug)]
pub struct PackageSources {
    pub package: PackageIdentity,
    pub units: Vec<SourceUnit>,
}

/// What the analyzer found of one package.
#[derive(Debug)]
pub enum ExposureStatus {
    /// The exposure count of the package.
    Counted(usize),
    /// The package has a source file that could not be parsed.
    ParseError(ParseError),
}

/// The finding for one package.
#[derive(Debug)]
pub struct PackageReport {
    pub package: PackageIdentity,
    pub status: ExposureStatus,
}

impl PackageReport {
    /// Whether the report is the one that the files of the package call for.
    pub open spec fn reports(&self, sources: PackageSources) -> bool {
        &&& self.package@ == sources.package@
        &&& match outcome(sources.units@) {
            Outcome::Counted(n) => self.status matches ExposureStatus::Counted(count) && count
                == saturated(n),
            Outcome::Failed(k) => {
                &&& self.status matches ExposureStatus::ParseError(e)
                &&& e.path@ == sources.units[k].path@
                &&& sources.units[k].content matches FileContent::Malformed(reason)
                &&& e.reason@ == reason@
            },
        }
    }

    /// What the package adds to the total of all packages.
    pub open spec fn counted(&self) -> nat {
        match self.status {
            ExposureStatus::Counted(count) => count as nat,
            ExposureStatus::ParseError(_) => 0,
        }
    }

    /// Whether the analysis of the package failed.
    pub open spec fn has_failed(&self) -> bool {
        self.status is ParseError
    }
}

/// Analyzes the packages one by one. A package whose files cannot all be
/// parsed is reported as failed, and the others are counted all the same.
pub fn analyze_packages(packages: &Vec<PackageSources>) -> (reports: Vec<PackageReport>)
    ensures
        reports.len() == packages.len(),
        forall|i: int| 0 <= i < packages.len() ==> (#[trigger] reports[i]).reports(packages[i]),
{
    let mut reports: Vec<PackageReport> = Vec::new();
    let mut i: usize = 0;
    while i < packages.len()
        invariant
            i <= packages.len(),
            reports.len() == i,
            forall|k: int| 0 <= k < i ==> (#[trigger] reports[k]).reports(packages[k]),
        decreases packages.len() - i,
    {
        let status = match count_exposure(&packages[i].units) {
            Ok(count) => ExposureStatus::Counted(count),
            Err(e) => ExposureStatus::ParseError(e),
        };
        reports.push(PackageReport { package: packages[i].package.clone(), status });
        i += 1;
    }
    reports
}

/// The sum of what the reports counted.
pub open spec fn reports_total(reports: Seq<PackageReport>) -> nat
    decreases reports.len(),
{
    if reports.len() == 0 {
        0
    } else {
        reports_total(reports.drop_last()) + reports.last().counted()
    }
}

/// The exposure of all packages together; failed packages add nothing.
pub fn total_exposure(reports: &Vec<PackageReport>) -> (total: usize)
    ensures
        total == saturated(reports_total(reports@)),
{
    let mut total: usize = 0;
    let mut i: usize = 0;
    assert(reports@.take(0) == Seq::<PackageReport>::empty());
    while i < reports.len()
        invariant
            i <= reports.len(),
            total == saturated(reports_total(reports@.take(i as int))),
        decreases reports.len() - i,
    {
        proof {
            let next = reports@.take(i + 1);
            assert(next.drop_last() == reports@.take(i as int));
            assert(next.last() == reports@[i as int]);
        }
        match &reports[i].status {
            ExposureStatus::Counted(count) => {
                total = total.saturating_add(*count);
            },
            ExposureStatus::ParseError(_) => {},
        }
        i += 1;
    }
    assert(reports@.take(i as int) == reports@);
    total
}

/// Whether the analysis of any package failed.
pub fn any_failed(reports: &Vec<PackageReport>) -> (r: bool)
    ensures
        r == exists|i: int| 0 <= i < reports.len() && (#[trigger] reports[i]).has_failed(),
{
    let mut i: usize = 0;
    while i < reports.len()
        invariant
            i <= reports.len(),
            forall|k: int| 0 <= k < i ==> !(#[trigger] reports[k]).has_failed(),
        decreases reports.len() - i,
    {
        match &reports[i].status {
            ExposureStatus::ParseError(_) => {
                return true;
            },
            ExposureStatus::Counted(_) => {},
        }
        i += 1;
    }
    false
}

/// The line of a report in the summary: the name of the package and its
/// count, or its name and why its analysis failed. A package without
/// exposure has a line only where `show_zero` asks for it.
pub open spec fn summary_line(report: PackageReport, show_zero: bool) -> Option<Seq<char>> {
    match report.status {
        ExposureStatus::Counted(count) => if count > 0 || show_zero {
            Some(report.package@.name + ", "@ + decimal_text(count as nat))
        } else {
            None
        },
        ExposureStatus::ParseError(e) => Some(
            report.package@.name + ", "@ + ParseError::message_text(e),
        ),
    }
}

/// The lines of the summary, in the order of the reports.
pub open spec fn summary_text(reports: Seq<PackageReport>, show_zero: bool) -> Seq<Seq<char>>
    decreases reports.len(),
{
    if reports.len() == 0 {
        Seq::empty()
    } else {
        let front = summary_text(reports.drop_last(), show_zero);
        match summary_line(reports.last(), show_zero) {
            Some(line) => front.push(line),
            None => front,
        }
    }
}

/// Writes the summary: one line for each package that has exposure or whose
/// analysis failed, and for the others too where `show_zero` is set.
pub fn summary(reports: &Vec<PackageReport>, show_zero: bool) -> (lines: Vec<String>)
    ensures
        lines@.map_values(|line: String| line@) == summary_text(reports@, show_zero),
{
    let mut lines: Vec<String> = Vec::new();
    let mut i: usize = 0;
    assert(reports@.take(0) =~= Seq::<PackageReport>::empty());
    assert(lines@.map_values(|line: String| line@) =~= Seq::<Seq<char>>::empty());
    while i < reports.len()
        invariant
            i <= reports.len(),
            lines@.map_values(|line: String| line@) == summary_text(
                reports@.take(i as int),
                show_zero,
            ),
        decreases reports.len() - i,
    {
        let ghost before = lines@.map_values(|line: String| line@);
        proof {
            let next = reports@.take(i + 1);
            assert(next.drop_last() =~= reports@.take(i as int));
            assert(next.last() == reports@[i as int]);
        }
        let report = &reports[i];
        match &report.status {
            ExposureStatus::Counted(count) => {
                if *count > 0 || show_zero {
                    let mut line = report.package.name.clone();
                    line.append(", ");
                    line.append(decimal(*count).as_str());
                    let ghost written = line@;
                    lines.push(line);
                    assert(lines@.map_values(|line: String| line@) =~= before.push(written));
                }
            },
            ExposureStatus::ParseError(e) => {
                let mut line = report.package.name.clone();
                line.append(", ");
                line.append(e.message().as_str());
                let ghost written = line@;
                lines.push(line);
                assert(lines@.map_values(|line: String| line@) =~= before.push(written));
            },
        }
        i += 1;
    }
    assert(reports@.take(i as int) =~= reports@);
    lines
}

} // verus!
