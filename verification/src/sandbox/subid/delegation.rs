//! Subordinate-ID delegation: ranges, the `getsubids` grammar, and the
//! process-lifetime cache.
//!
//! Delegation is process-lifetime mutable. The cache compares the cheap
//! source-generation metadata before it returns a warm snapshot, and a caller
//! that finds a lease outside that snapshot asks again before using it.

use crate::quote;
use crate::text;
use vstd::prelude::*;
use vstd::slice::slice_subrange;

verus! {

// ---------------------------------------------------------------------------
// Errors

/// Delegation discovery failures.
#[derive(Debug)]
pub enum Error {
    HelperMissing,
    HelperIo(String),
    HelperFailed { code: Option<i32>, stderr: String },
    AccountLookup,
    CachePoisoned,
    GenerationChanged,
    MalformedLine(String),
    MalformedRange { line: String, reason: String },
    Range(RangeProblem),
}

/// Why a pair of numbers is no subordinate range.
#[derive(Debug, Clone, Copy, PartialEq, Eq, Structural)]
pub enum RangeProblem {
    ZeroLength,
    StartTooLarge,
    EndTooLarge,
}

/// The contents of an [`Error`].
pub enum ErrorView {
    HelperMissing,
    HelperIo(Seq<char>),
    HelperFailed { code: Option<i32>, stderr: Seq<char> },
    AccountLookup,
    CachePoisoned,
    GenerationChanged,
    MalformedLine(Seq<char>),
    MalformedRange { line: Seq<char>, reason: Seq<char> },
    Range(RangeProblem),
}

impl View for Error {
    type V = ErrorView;

    open spec fn view(&self) -> ErrorView {
        match self {
            Error::HelperMissing => ErrorView::HelperMissing,
            Error::HelperIo(detail) => ErrorView::HelperIo(detail@),
            Error::HelperFailed { code, stderr } => ErrorView::HelperFailed {
                code: *code,
                stderr: stderr@,
            },
            Error::AccountLookup => ErrorView::AccountLookup,
            Error::CachePoisoned => ErrorView::CachePoisoned,
            Error::GenerationChanged => ErrorView::GenerationChanged,
            Error::MalformedLine(line) => ErrorView::MalformedLine(line@),
            Error::MalformedRange { line, reason } => ErrorView::MalformedRange {
                line: line@,
                reason: reason@,
            },
            Error::Range(problem) => ErrorView::Range(*problem),
        }
    }
}

/// The text of a range problem.
pub open spec fn range_problem_text(problem: RangeProblem) -> Seq<char> {
    match problem {
        RangeProblem::ZeroLength => "zero-length subordinate range"@,
        RangeProblem::StartTooLarge => "range start exceeds the 32-bit ID space"@,
        RangeProblem::EndTooLarge => "range end overflows the 32-bit ID space"@,
    }
}

impl RangeProblem {
    /// The description of the problem.
    pub fn as_str(&self) -> (r: &'static str)
        ensures
            r@ == range_problem_text(*self),
    {
        match self {
            RangeProblem::ZeroLength => "zero-length subordinate range",
            RangeProblem::StartTooLarge => "range start exceeds the 32-bit ID space",
            RangeProblem::EndTooLarge => "range end overflows the 32-bit ID space",
        }
    }
}

/// A signed number in decimal.
pub open spec fn signed_text(n: int) -> Seq<char> {
    if n < 0 {
        "-"@ + text::decimal((-n) as nat)
    } else {
        text::decimal(n as nat)
    }
}

/// An exit status as it is shown: `Some(1)`, or `None` for a signal.
pub open spec fn status_text(code: Option<i32>) -> Seq<char> {
    match code {
        Some(n) => "Some("@ + signed_text(n as int) + ")"@,
        None => "None"@,
    }
}

/// The text of an error.
pub open spec fn error_text(error: ErrorView) -> Seq<char> {
    match error {
        ErrorView::HelperMissing => "getsubids is not installed or not on PATH"@,
        ErrorView::HelperIo(detail) => "getsubids could not be executed: "@ + detail,
        ErrorView::HelperFailed { code, stderr } => {
            let head = "getsubids failed with status "@ + status_text(code);
            if stderr.len() == 0 {
                head
            } else {
                head + ": "@ + stderr
            }
        },
        ErrorView::AccountLookup => "the daemon account has no passwd-database name"@,
        ErrorView::CachePoisoned => "delegation cache is poisoned"@,
        ErrorView::GenerationChanged => "subordinate-ID delegation changed during discovery"@,
        ErrorView::MalformedLine(line) => "malformed getsubids output line "@
            + quote::debug_text(line),
        ErrorView::MalformedRange { line, reason } => "invalid subordinate range in getsubids line "@
            + quote::debug_text(line) + ": "@ + reason,
        ErrorView::Range(problem) => "invalid subordinate range: "@ + range_problem_text(problem),
    }
}

fn signed_string(n: i32) -> (r: String)
    ensures
        r@ == signed_text(n as int),
{
    if n < 0 {
        let mut m = String::from_str("-");
        let magnitude: u64 = (0 - (n as i64)) as u64;
        m.append(text::decimal_text(magnitude).as_str());
        m
    } else {
        text::decimal_text(n as u64)
    }
}

impl Error {
    /// The operator-facing description.
    pub fn message(&self) -> (r: String)
        ensures
            r@ == error_text(self@),
    {
        match self {
            Error::HelperMissing => String::from_str("getsubids is not installed or not on PATH"),
            Error::HelperIo(detail) => {
                let mut m = String::from_str("getsubids could not be executed: ");
                m.append(detail.as_str());
                m
            },
            Error::HelperFailed { code, stderr } => {
                let mut m = String::from_str("getsubids failed with status ");
                let status = match code {
                    Some(n) => {
                        let mut s = String::from_str("Some(");
                        s.append(signed_string(*n).as_str());
                        s.append(")");
                        s
                    },
                    None => String::from_str("None"),
                };
                m.append(status.as_str());
                if !stderr.as_str().is_empty() {
                    m.append(": ");
                    m.append(stderr.as_str());
                }
                m
            },
            Error::AccountLookup => String::from_str(
                "the daemon account has no passwd-database name",
            ),
            Error::CachePoisoned => String::from_str("delegation cache is poisoned"),
            Error::GenerationChanged => String::from_str(
                "subordinate-ID delegation changed during discovery",
            ),
            Error::MalformedLine(line) => {
                let mut m = String::from_str("malformed getsubids output line ");
                m.append(quote::debug_quoted(line.as_str()).as_str());
                m
            },
            Error::MalformedRange { line, reason } => {
                let mut m = String::from_str("invalid subordinate range in getsubids line ");
                m.append(quote::debug_quoted(line.as_str()).as_str());
                m.append(": ");
                m.append(reason.as_str());
                m
            },
            Error::Range(problem) => {
                let mut m = String::from_str("invalid subordinate range: ");
                m.append(problem.as_str());
                m
            },
        }
    }
}

// ---------------------------------------------------------------------------
// Ranges

/// One past the largest Linux user or group id.
pub const ID_SPACE: u64 = 0x1_0000_0000;

/// One delegated half-open range `[start, start + count)`.
#[derive(Debug, Clone, Copy, PartialEq, Eq, Structural)]
pub struct SubidRange {
    start: u32,
    count: u64,
}

/// Why `[start, start + count)` is no subordinate range, if it is none.
pub open spec fn range_problem(start: int, count: int) -> Option<RangeProblem> {
    if count == 0 {
        Some(RangeProblem::ZeroLength)
    } else if start > u32::MAX {
        Some(RangeProblem::StartTooLarge)
    } else if start + count > ID_SPACE {
        Some(RangeProblem::EndTooLarge)
    } else {
        None
    }
}

impl SubidRange {
    /// The first id of the range.
    pub closed spec fn first(self) -> int {
        self.start as int
    }

    /// The number of ids in the range.
    pub closed spec fn size(self) -> int {
        self.count as int
    }

    /// Whether an id belongs to the range.
    pub open spec fn has(self, id: int) -> bool {
        self.first() <= id < self.first() + self.size()
    }

    /// A range is not empty and ends inside the id space.
    #[verifier::type_invariant]
    pub closed spec fn valid(self) -> bool {
        self.count > 0 && self.start + self.count <= ID_SPACE
    }

    /// Construct a range. Rejects zero-length ranges and ranges that reach
    /// past the 32-bit id space.
    pub fn new(start: u64, count: u64) -> (r: Result<SubidRange, Error>)
        ensures
            match range_problem(start as int, count as int) {
                Some(problem) => r == Err::<SubidRange, Error>(Error::Range(problem)),
                None => r matches Ok(range) && range.first() == start && range.size() == count,
            },
    {
        if count == 0 {
            return Err(Error::Range(RangeProblem::ZeroLength));
        }
        if start > u32::MAX as u64 {
            return Err(Error::Range(RangeProblem::StartTooLarge));
        }
        if count > ID_SPACE - start {
            return Err(Error::Range(RangeProblem::EndTooLarge));
        }
        Ok(SubidRange { start: start as u32, count })
    }

    /// The first id of the range.
    pub fn start(&self) -> (r: u32)
        ensures
            r == self.first(),
    {
        self.start
    }

    /// Exclusive end of the range, at most one past the largest id.
    pub fn end(&self) -> (r: u64)
        ensures
            r == self.first() + self.size(),
            self.first() < r <= ID_SPACE,
    {
        proof {
            use_type_invariant(self);
        }
        self.start as u64 + self.count
    }

    /// Whether an id belongs to the range.
    pub fn contains(&self, id: u32) -> (r: bool)
        ensures
            r == self.has(id as int),
    {
        let wide: u64 = id as u64;
        wide >= self.start as u64 && wide < self.end()
    }

    /// The ids of the range in increasing order, by position.
    pub fn ids(&self, index: u64) -> (r: Option<u32>)
        ensures
            match r {
                Some(id) => index < self.size() && id == self.first() + index,
                None => index >= self.size(),
            },
    {
        proof {
            use_type_invariant(self);
        }
        if index < self.count {
            Some((self.start as u64 + index) as u32)
        } else {
            None
        }
    }
}

/// A valid range delegates exactly the ids it was built from: no smaller id,
/// no id at or past its end, and never an id outside the id space.
pub proof fn range_membership(range: SubidRange, start: u64, count: u64, id: int)
    requires
        range_problem(start as int, count as int) is None,
        range.first() == start,
        range.size() == count,
    ensures
        range.has(id) <==> start <= id < start + count,
        range.has(id) ==> 0 <= id <= u32::MAX,
{
}

/// Some range of a list has the id.
pub open spec fn delegates(ranges: Seq<SubidRange>, id: int) -> bool {
    exists|i: int| 0 <= i < ranges.len() && (#[trigger] ranges[i]).has(id)
}

/// Whether some range of the list has the id.
pub fn any_contains(ranges: &Vec<SubidRange>, id: u32) -> (r: bool)
    ensures
        r == delegates(ranges@, id as int),
{
    let mut i: usize = 0;
    while i < ranges.len()
        invariant
            i <= ranges@.len(),
            forall|k: int| 0 <= k < i ==> !(#[trigger] ranges@[k]).has(id as int),
        decreases ranges@.len() - i,
    {
        if ranges[i].contains(id) {
            assert(ranges@[i as int].has(id as int));
            return true;
        }
        i = i + 1;
    }
    false
}

fn copy_ranges(ranges: &Vec<SubidRange>) -> (r: Vec<SubidRange>)
    ensures
        r@ == ranges@,
{
    let mut out: Vec<SubidRange> = Vec::new();
    let mut i: usize = 0;
    while i < ranges.len()
        invariant
            i <= ranges@.len(),
            out@ == ranges@.take(i as int),
        decreases ranges@.len() - i,
    {
        out.push(ranges[i]);
        i = i + 1;
        assert(out@ =~= ranges@.take(i as int));
    }
    assert(out@ =~= ranges@);
    out
}

/// The daemon account's current subordinate UID and GID delegations.
#[derive(Debug, PartialEq, Eq)]
pub struct Delegation {
    pub uid_ranges: Vec<SubidRange>,
    pub gid_ranges: Vec<SubidRange>,
}

/// The contents of a [`Delegation`].
pub struct DelegationView {
    pub uid_ranges: Seq<SubidRange>,
    pub gid_ranges: Seq<SubidRange>,
}

impl View for Delegation {
    type V = DelegationView;

    open spec fn view(&self) -> DelegationView {
        DelegationView { uid_ranges: self.uid_ranges@, gid_ranges: self.gid_ranges@ }
    }
}

impl Default for Delegation {
    /// Nothing is delegated.
    fn default() -> (r: Delegation)
        ensures
            r@ == (DelegationView { uid_ranges: seq![], gid_ranges: seq![] }),
    {
        Delegation { uid_ranges: Vec::new(), gid_ranges: Vec::new() }
    }
}

impl Clone for Delegation {
    fn clone(&self) -> (r: Delegation)
        ensures
            r@ == self@,
    {
        Delegation {
            uid_ranges: copy_ranges(&self.uid_ranges),
            gid_ranges: copy_ranges(&self.gid_ranges),
        }
    }
}

impl Delegation {
    /// Whether a user id is delegated.
    pub fn contains_uid(&self, uid: u32) -> (r: bool)
        ensures
            r == delegates(self@.uid_ranges, uid as int),
    {
        any_contains(&self.uid_ranges, uid)
    }

    /// Whether a group id is delegated.
    pub fn contains_gid(&self, gid: u32) -> (r: bool)
        ensures
            r == delegates(self@.gid_ranges, gid as int),
    {
        any_contains(&self.gid_ranges, gid)
    }
}

// ---------------------------------------------------------------------------
// The getsubids grammar

/// What one line of output stands for: nothing, a range `(start, count)`, or
/// an error.
pub enum LineOutcome {
    Blank,
    Range { start: nat, count: nat },
    Bad(ErrorView),
}

/// `<list-index>: <name> <start> <count>`. The index is a list ordinal and
/// otherwise ignored.
pub open spec fn line_outcome(raw: Seq<char>) -> LineOutcome {
    let line = text::trim_end_of(raw);
    let colon = text::find_of(line, ':');
    let index = line.take(colon);
    let fields = text::fields_of(line.skip(colon + 1), false);
    let malformed = LineOutcome::Bad(ErrorView::MalformedLine(line));
    if line.len() == 0 {
        LineOutcome::Blank
    } else if colon >= line.len() {
        malformed
    } else if text::unsigned_of(text::trim_of(index), u32::MAX as nat) is None {
        malformed
    } else if fields.len() != 3 {
        malformed
    } else {
        match (
            text::unsigned_of(fields[1], u64::MAX as nat),
            text::unsigned_of(fields[2], u64::MAX as nat),
        ) {
            (Some(start), Some(count)) => match range_problem(start as int, count as int) {
                Some(problem) => LineOutcome::Bad(
                    ErrorView::MalformedRange {
                        line,
                        reason: error_text(ErrorView::Range(problem)),
                    },
                ),
                None => LineOutcome::Range { start, count },
            },
            _ => malformed,
        }
    }
}

/// The ranges of a list of lines in order, or the first error.
pub open spec fn lines_outcome(lines: Seq<Seq<char>>) -> Result<Seq<(nat, nat)>, ErrorView>
    decreases lines.len(),
{
    if lines.len() == 0 {
        Ok(seq![])
    } else {
        match lines_outcome(lines.drop_last()) {
            Err(error) => Err(error),
            Ok(ranges) => match line_outcome(lines.last()) {
                LineOutcome::Blank => Ok(ranges),
                LineOutcome::Range { start, count } => Ok(ranges.push((start, count))),
                LineOutcome::Bad(error) => Err(error),
            },
        }
    }
}

/// A list of ranges as pairs of first id and size.
pub open spec fn range_pairs(ranges: Seq<SubidRange>) -> Seq<(nat, nat)> {
    ranges.map_values(|range: SubidRange| (range.first() as nat, range.size() as nat))
}

proof fn lemma_lines_stop(lines: Seq<Seq<char>>, n: int)
    requires
        0 <= n <= lines.len(),
        lines_outcome(lines.take(n)) is Err,
    ensures
        lines_outcome(lines) == lines_outcome(lines.take(n)),
    decreases lines.len() - n,
{
    if n == lines.len() {
        assert(lines.take(n) =~= lines);
    } else {
        assert(lines.take(n + 1).drop_last() =~= lines.take(n));
        lemma_lines_stop(lines, n + 1);
    }
}

fn malformed(line: &[char]) -> (r: Error)
    ensures
        r@ == ErrorView::MalformedLine(line@),
{
    Error::MalformedLine(text::string_of(line))
}

/// Parse one line of `getsubids` output; a blank line is `None`.
pub fn parse_getsubids_line(raw: &[char]) -> (r: Result<Option<SubidRange>, Error>)
    ensures
        match line_outcome(raw@) {
            LineOutcome::Blank => r == Ok::<Option<SubidRange>, Error>(None),
            LineOutcome::Range { start, count } => r matches Ok(Some(range)) && range.first()
                == start && range.size() == count,
            LineOutcome::Bad(expected) => r matches Err(error) && error@ == expected,
        },
{
    let line = text::trim_end(raw);
    if line.len() == 0 {
        return Ok(None);
    }
    let colon = text::find(line, ':');
    if colon >= line.len() {
        return Err(malformed(line));
    }
    let index = slice_subrange(line, 0, colon);
    let rest = slice_subrange(line, colon + 1, line.len());
    proof {
        assert(index@ =~= line@.take(colon as int));
        assert(rest@ =~= line@.skip(colon + 1));
    }
    if text::parse_unsigned(text::trim(index), u32::MAX as u64).is_none() {
        return Err(malformed(line));
    }
    let fields = text::fields(rest, false);
    assert(text::slices(fields@).len() == fields@.len());
    if fields.len() != 3 {
        return Err(malformed(line));
    }
    proof {
        assert(text::slices(fields@)[1] == fields@[1]@);
        assert(text::slices(fields@)[2] == fields@[2]@);
    }
    match (text::parse_unsigned(fields[1], u64::MAX), text::parse_unsigned(fields[2], u64::MAX)) {
        (Some(start), Some(count)) => match SubidRange::new(start, count) {
            Ok(range) => Ok(Some(range)),
            Err(error) => Err(
                Error::MalformedRange { line: text::string_of(line), reason: error.message() },
            ),
        },
        _ => Err(malformed(line)),
    }
}

/// Parse `getsubids` output. Malformed lines, zero-length ranges, and values
/// that overflow the id space are rejected, because a mis-parsed pool is a
/// security boundary and not a best-effort cache.
pub fn parse_getsubids_output(output: &str) -> (r: Result<Vec<SubidRange>, Error>)
    ensures
        match lines_outcome(text::lines_of(output@)) {
            Ok(expected) => r matches Ok(ranges) && range_pairs(ranges@) == expected,
            Err(expected) => r matches Err(error) && error@ == expected,
        },
{
    let chars = text::chars_of(output);
    let lines = text::lines(chars.as_slice());
    let ghost all = text::lines_of(output@);
    let mut ranges: Vec<SubidRange> = Vec::new();
    let mut i: usize = 0;
    proof {
        assert(all.take(0) =~= Seq::<Seq<char>>::empty());
        assert(range_pairs(ranges@) =~= Seq::<(nat, nat)>::empty());
    }
    while i < lines.len()
        invariant
            i <= lines@.len(),
            text::slices(lines@) == all,
            all == text::lines_of(output@),
            lines_outcome(all.take(i as int)) == Ok::<Seq<(nat, nat)>, ErrorView>(
                range_pairs(ranges@),
            ),
        decreases lines@.len() - i,
    {
        proof {
            assert(text::slices(lines@)[i as int] == lines@[i as int]@);
            assert(all.take(i + 1).drop_last() =~= all.take(i as int));
            assert(all.take(i + 1).last() == lines@[i as int]@);
        }
        match parse_getsubids_line(lines[i]) {
            Ok(None) => {},
            Ok(Some(range)) => {
                proof {
                    assert(range_pairs(ranges@.push(range)) =~= range_pairs(ranges@).push(
                        (range.first() as nat, range.size() as nat),
                    ));
                }
                ranges.push(range);
            },
            Err(error) => {
                proof {
                    lemma_lines_stop(all, i + 1);
                }
                return Err(error);
            },
        }
        i = i + 1;
    }
    assert(all.take(all.len() as int) =~= all);
    Ok(ranges)
}

// ---------------------------------------------------------------------------
// Running the helper

/// How the `getsubids` helper ended.
#[derive(Debug)]
pub enum HelperRun {
    NotFound,
    Failed { detail: String },
    Exited { success: bool, code: Option<i32>, stdout: String, stderr: String },
}

/// The ranges that a run of the helper reports.
pub open spec fn helper_outcome(run: HelperRun) -> Result<Seq<(nat, nat)>, ErrorView> {
    match run {
        HelperRun::NotFound => Err(ErrorView::HelperMissing),
        HelperRun::Failed { detail } => Err(ErrorView::HelperIo(detail@)),
        HelperRun::Exited { success, code, stdout, stderr } => if !success {
            Err(ErrorView::HelperFailed { code, stderr: text::trim_of(stderr@) })
        } else {
            lines_outcome(text::lines_of(stdout@))
        },
    }
}

/// Read the ranges out of a run of the helper.
pub fn run_getsubids(run: HelperRun) -> (r: Result<Vec<SubidRange>, Error>)
    ensures
        match helper_outcome(run) {
            Ok(expected) => r matches Ok(ranges) && range_pairs(ranges@) == expected,
            Err(expected) => r matches Err(error) && error@ == expected,
        },
{
    match run {
        HelperRun::NotFound => Err(Error::HelperMissing),
        HelperRun::Failed { detail } => Err(Error::HelperIo(detail)),
        HelperRun::Exited { success, code, stdout, stderr } => {
            if !success {
                let chars = text::chars_of(stderr.as_str());
                return Err(
                    Error::HelperFailed {
                        code,
                        stderr: text::string_of(text::trim(chars.as_slice())),
                    },
                );
            }
            parse_getsubids_output(stdout.as_str())
        },
    }
}

/// Combine the two runs of the helper for one account: user ids first.
pub fn query_for_account(uid_run: HelperRun, gid_run: HelperRun) -> (r: Result<Delegation, Error>)
    ensures
        match (helper_outcome(uid_run), helper_outcome(gid_run)) {
            (Err(expected), _) => r matches Err(error) && error@ == expected,
            (Ok(_), Err(expected)) => r matches Err(error) && error@ == expected,
            (Ok(uids), Ok(gids)) => r matches Ok(delegation) && range_pairs(
                delegation@.uid_ranges,
            ) == uids && range_pairs(delegation@.gid_ranges) == gids,
        },
{
    let uid_ranges = match run_getsubids(uid_run) {
        Ok(ranges) => ranges,
        Err(error) => {
            return Err(error);
        },
    };
    let gid_ranges = match run_getsubids(gid_run) {
        Ok(ranges) => ranges,
        Err(error) => {
            return Err(error);
        },
    };
    Ok(Delegation { uid_ranges, gid_ranges })
}

// ---------------------------------------------------------------------------
// The cache

/// The generation of one local input file: presence, length, and modification
/// time in seconds and nanoseconds.
#[derive(Debug, Clone, Copy, PartialEq, Eq, Structural)]
pub struct FileGeneration {
    pub present: bool,
    pub len: u64,
    pub modified: Option<FileTime>,
}

/// A file time.
#[derive(Debug, Clone, Copy, PartialEq, Eq, Structural)]
pub struct FileTime {
    pub seconds: i64,
    pub nanoseconds: u32,
}

/// A cheap generation for the local inputs that can change the result of
/// `getsubids`.
#[derive(Debug, Clone, Copy, PartialEq, Eq)]
pub struct DelegationGeneration {
    pub subuid: FileGeneration,
    pub subgid: FileGeneration,
    pub nsswitch: FileGeneration,
}

fn same_time(a: &Option<FileTime>, b: &Option<FileTime>) -> (r: bool)
    ensures
        r == (*a == *b),
{
    match (a, b) {
        (None, None) => true,
        (Some(x), Some(y)) => *x == *y,
        _ => false,
    }
}

fn same_file(a: &FileGeneration, b: &FileGeneration) -> (r: bool)
    ensures
        r == (*a == *b),
{
    a.present == b.present && a.len == b.len && same_time(&a.modified, &b.modified)
}

impl DelegationGeneration {
    /// Whether two generations are the same.
    pub fn same(&self, other: &DelegationGeneration) -> (r: bool)
        ensures
            r == (*self == *other),
    {
        same_file(&self.subuid, &other.subuid) && same_file(&self.subgid, &other.subgid)
            && same_file(&self.nsswitch, &other.nsswitch)
    }
}

/// Process-lifetime delegation cache.
#[derive(Debug)]
pub struct DelegationCache {
    cached: Option<(DelegationGeneration, Delegation)>,
}

/// What the cache holds: a generation and the delegation read under it.
pub type CacheView = Option<(DelegationGeneration, DelegationView)>;

impl View for DelegationCache {
    type V = CacheView;

    closed spec fn view(&self) -> CacheView {
        match self.cached {
            Some((generation, delegation)) => Some((generation, delegation@)),
            None => None,
        }
    }
}

impl Default for DelegationCache {
    /// An empty cache.
    fn default() -> (r: DelegationCache)
        ensures
            r@ is None,
    {
        DelegationCache { cached: None }
    }
}

/// The cached delegation, where it may be used without asking again.
pub open spec fn warm(
    cache: CacheView,
    force: bool,
    generation: DelegationGeneration,
) -> Option<DelegationView> {
    match cache {
        Some((held, delegation)) if !force && held == generation => Some(delegation),
        _ => None,
    }
}

/// The cache after a snapshot is published: an entry of the same generation is
/// kept.
pub open spec fn published(
    cache: CacheView,
    generation: DelegationGeneration,
    delegation: DelegationView,
) -> CacheView {
    match cache {
        Some((held, _)) if held == generation => cache,
        _ => Some((generation, delegation)),
    }
}

/// What one query observed of the world, in order: the generation before, the
/// first answer, the generation after it, and, where that had changed, the
/// second answer and the generation after that.
pub struct QueryRun {
    pub before: DelegationGeneration,
    pub first: Result<DelegationView, ErrorView>,
    pub after: DelegationGeneration,
    pub second: Result<DelegationView, ErrorView>,
    pub last: DelegationGeneration,
}

/// The answer of a query and the cache it leaves behind.
pub open spec fn query_outcome(cache: CacheView, force: bool, run: QueryRun) -> (
    Result<DelegationView, ErrorView>,
    CacheView,
) {
    match warm(cache, force, run.before) {
        Some(delegation) => (Ok(delegation), cache),
        None => match run.first {
            Err(error) => (Err(error), cache),
            Ok(first) => if run.before == run.after {
                (Ok(first), published(cache, run.before, first))
            } else {
                match run.second {
                    Err(error) => (Err(error), cache),
                    Ok(second) => if run.last != run.after {
                        (Err(ErrorView::GenerationChanged), cache)
                    } else {
                        (Ok(second), published(cache, run.last, second))
                    },
                }
            },
        },
    }
}

/// The contents of an answer.
pub open spec fn answer_view(answer: Result<Delegation, Error>) -> Result<
    DelegationView,
    ErrorView,
> {
    match answer {
        Ok(delegation) => Ok(delegation@),
        Err(error) => Err(error@),
    }
}

/// Which look at the generation this is.
#[derive(Debug, Clone, Copy, PartialEq, Eq, Structural)]
pub enum GenerationLook {
    /// Before anything is asked.
    Before,
    /// After the first answer.
    After,
    /// After the second answer.
    Last,
}

/// Which run of the helper this is.
#[derive(Debug, Clone, Copy, PartialEq, Eq, Structural)]
pub enum QueryTurn {
    First,
    /// The generation had changed while the first one ran.
    Second,
}

/// A run of the helper gave this answer.
pub open spec fn answered<Q: Fn(QueryTurn) -> Result<Delegation, Error>>(
    query: Q,
    which: QueryTurn,
    answer: Result<DelegationView, ErrorView>,
) -> bool {
    exists|a: Result<Delegation, Error>|
        #[trigger] query.ensures((which,), a) && answer_view(a) == answer
}

/// The first run of the helper is due: nothing warm answers.
pub open spec fn first_due<G: Fn(GenerationLook) -> DelegationGeneration>(
    generation: G,
    cache: CacheView,
    force: bool,
    before: DelegationGeneration,
) -> bool {
    generation.ensures((GenerationLook::Before,), before) && warm(cache, force, before) is None
}

/// The look behind the first answer is due.
pub open spec fn after_due<
    G: Fn(GenerationLook) -> DelegationGeneration,
    Q: Fn(QueryTurn) -> Result<Delegation, Error>,
>(
    generation: G,
    query: Q,
    cache: CacheView,
    force: bool,
    before: DelegationGeneration,
    first: Result<DelegationView, ErrorView>,
) -> bool {
    first_due(generation, cache, force, before) && first is Ok && answered(
        query,
        QueryTurn::First,
        first,
    )
}

/// The second run of the helper is due: the generation changed during the
/// first.
pub open spec fn second_due<
    G: Fn(GenerationLook) -> DelegationGeneration,
    Q: Fn(QueryTurn) -> Result<Delegation, Error>,
>(
    generation: G,
    query: Q,
    cache: CacheView,
    force: bool,
    before: DelegationGeneration,
    first: Result<DelegationView, ErrorView>,
    after: DelegationGeneration,
) -> bool {
    after_due(generation, query, cache, force, before, first) && before != after
        && generation.ensures((GenerationLook::After,), after)
}

/// The sources can be asked wherever they are due, and nowhere else.
pub open spec fn askable<
    G: Fn(GenerationLook) -> DelegationGeneration,
    Q: Fn(QueryTurn) -> Result<Delegation, Error>,
>(generation: G, query: Q, cache: CacheView, force: bool) -> bool {
    &&& generation.requires((GenerationLook::Before,))
    &&& forall|before: DelegationGeneration| #[trigger]
        first_due(generation, cache, force, before) ==> query.requires((QueryTurn::First,))
    &&& forall|before: DelegationGeneration, first: Result<DelegationView, ErrorView>| #[trigger]
        after_due(generation, query, cache, force, before, first) ==> generation.requires(
            (GenerationLook::After,),
        )
    &&& forall|
        before: DelegationGeneration,
        first: Result<DelegationView, ErrorView>,
        after: DelegationGeneration,
    | #[trigger]
        second_due(generation, query, cache, force, before, first, after) ==> query.requires(
            (QueryTurn::Second,),
        )
    &&& forall|
        before: DelegationGeneration,
        first: Result<DelegationView, ErrorView>,
        after: DelegationGeneration,
        second: Result<DelegationView, ErrorView>,
    | #[trigger]
        second_due(generation, query, cache, force, before, first, after) && second is Ok
            && #[trigger] answered(query, QueryTurn::Second, second) ==> generation.requires(
            (GenerationLook::Last,),
        )
}

/// Whether the observations of a query come from the given sources, each from
/// the look or the run that it belongs to. The second answer and the last
/// generation are asked for only where the generation had changed.
pub open spec fn observed<
    G: Fn(GenerationLook) -> DelegationGeneration,
    Q: Fn(QueryTurn) -> Result<Delegation, Error>,
>(generation: G, query: Q, cache: CacheView, force: bool, run: QueryRun) -> bool {
    &&& generation.ensures((GenerationLook::Before,), run.before)
    &&& warm(cache, force, run.before) is None ==> {
        &&& answered(query, QueryTurn::First, run.first)
        &&& run.first is Ok ==> {
            &&& generation.ensures((GenerationLook::After,), run.after)
            &&& run.before != run.after ==> {
                &&& answered(query, QueryTurn::Second, run.second)
                &&& run.second is Ok ==> generation.ensures((GenerationLook::Last,), run.last)
            }
        }
    }
}

impl DelegationCache {
    /// The delegation, from the cache where its generation still holds.
    pub fn query<
        G: Fn(GenerationLook) -> DelegationGeneration,
        Q: Fn(QueryTurn) -> Result<Delegation, Error>,
    >(&mut self, generation: G, query: Q) -> (r: Result<Delegation, Error>)
        requires
            askable(generation, query, old(self)@, false),
        ensures
            exists|run: QueryRun|
                #[trigger] observed(generation, query, old(self)@, false, run) && (answer_view(
                    r,
                ), final(self)@) == query_outcome(old(self)@, false, run),
    {
        self.query_with_generation(false, generation, query)
    }

    /// Force one fresh query. This is the fail-closed path used when a cached
    /// delegation no longer contains a lease's ids.
    pub fn refresh<
        G: Fn(GenerationLook) -> DelegationGeneration,
        Q: Fn(QueryTurn) -> Result<Delegation, Error>,
    >(&mut self, generation: G, query: Q) -> (r: Result<Delegation, Error>)
        requires
            askable(generation, query, old(self)@, true),
        ensures
            exists|run: QueryRun|
                #[trigger] observed(generation, query, old(self)@, true, run) && (answer_view(
                    r,
                ), final(self)@) == query_outcome(old(self)@, true, run),
    {
        self.query_with_generation(true, generation, query)
    }

    /// The cached delegation, where it may be used without asking again.
    pub fn warm_entry(&self, force: bool, generation: &DelegationGeneration) -> (r: Option<
        Delegation,
    >)
        ensures
            match r {
                Some(delegation) => warm(self@, force, *generation) == Some(delegation@),
                None => warm(self@, force, *generation) is None,
            },
    {
        if !force {
            if let Some((held, delegation)) = &self.cached {
                if held.same(generation) {
                    return Some(delegation.clone());
                }
            }
        }
        None
    }

    /// Take a snapshot into the cache.
    pub fn publish(&mut self, generation: DelegationGeneration, delegation: Delegation)
        ensures
            final(self)@ == published(old(self)@, generation, delegation@),
    {
        let keep = match &self.cached {
            Some((held, _)) => held.same(&generation),
            None => false,
        };
        if !keep {
            self.cached = Some((generation, delegation));
        }
    }

    /// Query with the source generation checked before and after the
    /// potentially slow helper runs: a configuration edit racing the query
    /// must not publish a snapshot under the wrong generation.
    pub fn query_with_generation<
        G: Fn(GenerationLook) -> DelegationGeneration,
        Q: Fn(QueryTurn) -> Result<Delegation, Error>,
    >(&mut self, force: bool, generation: G, query: Q) -> (r: Result<Delegation, Error>)
        requires
            askable(generation, query, old(self)@, force),
        ensures
            exists|run: QueryRun|
                #[trigger] observed(generation, query, old(self)@, force, run) && (answer_view(
                    r,
                ), final(self)@) == query_outcome(old(self)@, force, run),
    {
        let ghost start = self@;
        let before = generation(GenerationLook::Before);
        let ghost mut run = QueryRun {
            before,
            first: Err(ErrorView::HelperMissing),
            after: before,
            second: Err(ErrorView::HelperMissing),
            last: before,
        };
        if let Some(delegation) = self.warm_entry(force, &before) {
            assert(observed(generation, query, start, force, run));
            return Ok(delegation);
        }
        assert(first_due(generation, start, force, before));
        let answer = query(QueryTurn::First);
        let ghost first = answer;
        proof {
            assert(query.ensures((QueryTurn::First,), first));
            run = QueryRun { first: answer_view(first), ..run };
            assert(answered(query, QueryTurn::First, run.first));
        }
        let delegation = match answer {
            Ok(delegation) => delegation,
            Err(error) => {
                assert(observed(generation, query, start, force, run));
                return Err(error);
            },
        };
        assert(after_due(generation, query, start, force, before, run.first));
        let after = generation(GenerationLook::After);
        proof {
            run = QueryRun { after, ..run };
        }
        if before.same(&after) {
            self.publish(before, delegation.clone());
            assert(observed(generation, query, start, force, run));
            return Ok(delegation);
        }
        assert(second_due(generation, query, start, force, before, run.first, after));
        let answer = query(QueryTurn::Second);
        let ghost second = answer;
        proof {
            assert(query.ensures((QueryTurn::Second,), second));
            run = QueryRun { second: answer_view(second), ..run };
            assert(answered(query, QueryTurn::Second, run.second));
        }
        let delegation = match answer {
            Ok(delegation) => delegation,
            Err(error) => {
                assert(observed(generation, query, start, force, run));
                return Err(error);
            },
        };
        let last = generation(GenerationLook::Last);
        proof {
            run = QueryRun { last, ..run };
        }
        if !last.same(&after) {
            assert(observed(generation, query, start, force, run));
            return Err(Error::GenerationChanged);
        }
        self.publish(last, delegation.clone());
        assert(observed(generation, query, start, force, run));
        Ok(delegation)
    }
}

/// A snapshot is only ever cached under a generation that held both before and
/// after it was read.
pub proof fn cached_snapshots_match_their_generation(cache: CacheView, force: bool, run: QueryRun)
    ensures
        query_outcome(cache, force, run).1 == cache || {
            &&& run.before == run.after
            &&& run.first matches Ok(first) && query_outcome(cache, force, run).1 == Some(
                (run.before, first),
            )
        } || {
            &&& run.last == run.after
            &&& run.second matches Ok(second) && query_outcome(cache, force, run).1 == Some(
                (run.last, second),
            )
        },
{
}

/// A query that fails leaves the cache as it was.
pub proof fn a_failed_query_keeps_the_cache(cache: CacheView, force: bool, run: QueryRun)
    requires
        query_outcome(cache, force, run).0 is Err,
    ensures
        query_outcome(cache, force, run).1 == cache,
{
}

/// A warm answer is the cached one, and forcing never gives a warm answer.
pub proof fn forcing_never_answers_warm(cache: CacheView, generation: DelegationGeneration)
    ensures
        warm(cache, true, generation) is None,
{
}

// ---------------------------------------------------------------------------
// What is accepted

/// A range is accepted exactly when it holds an id and ends within the 32-bit id
/// space.
pub proof fn ranges_stay_in_the_id_space(start: u64, count: u64)
    ensures
        range_problem(start as int, count as int) is None <==> count > 0 && start + count
            <= 0x1_0000_0000,
        count == 0 <==> range_problem(start as int, count as int) == Some(RangeProblem::ZeroLength),
        range_problem(start as int, count as int) == Some(RangeProblem::StartTooLarge) <==> count
            > 0 && start > 0xffff_ffff,
{
}

proof fn lemma_digits_are_not_white(n: nat)
    ensures
        forall|k: int|
            0 <= k < text::decimal(n).len() ==> {
                &&& !text::is_white(#[trigger] text::decimal(n)[k])
                &&& text::decimal(n)[k] != ':'
            },
{
    text::lemma_decimal_value(n);
    assert forall|k: int| 0 <= k < text::decimal(n).len() implies {
        &&& !text::is_white(#[trigger] text::decimal(n)[k])
        &&& text::decimal(n)[k] != ':'
    } by {
        assert(text::is_digit(text::decimal(n)[k]));
        lemma_digit(text::decimal(n)[k]);
    }
}

proof fn lemma_digit(c: char)
    ensures
        text::is_digit(c) ==> !text::is_white(c) && c != ':',
        text::is_white(' '),
        c != ' ' || text::is_white(c),
{
}

/// A line of the helper names its number, the account, the first id, and the
/// number of ids; such a line is read as exactly that range.
pub proof fn helper_lines_name_their_range(index: nat, account: Seq<char>, start: nat, count: nat)
    requires
        index <= u32::MAX,
        account.len() > 0,
        forall|k: int| 0 <= k < account.len() ==> !text::is_white(#[trigger] account[k]),
        0 < count,
        start + count <= 0x1_0000_0000,
    ensures
        line_outcome(
            text::decimal(index) + seq![':', ' '] + account + seq![' '] + text::decimal(start)
                + seq![' '] + text::decimal(count),
        ) == (LineOutcome::Range { start, count }),
{
    let i = text::decimal(index);
    let s = text::decimal(start);
    let c = text::decimal(count);
    let none = Seq::<char>::empty();
    let rest = seq![' '] + account + seq![' '] + s + seq![' '] + c;
    let line = i + seq![':', ' '] + account + seq![' '] + s + seq![' '] + c;
    lemma_digits_are_not_white(index);
    lemma_digits_are_not_white(start);
    lemma_digits_are_not_white(count);
    text::lemma_decimal_value(index);
    text::lemma_decimal_value(start);
    text::lemma_decimal_value(count);
    lemma_digit(' ');
    assert(line =~= i + seq![':'] + rest);
    assert(line[line.len() - 1] == c[c.len() - 1]);
    assert(text::trim_end_of(line) == line);
    let colon = text::find_of(line, ':');
    text::lemma_find(line, ':', 0);
    assert(line[i.len() as int] == ':');
    if colon < i.len() {
        assert(line[colon] == i[colon]);
    }
    assert(colon == i.len());
    assert(line.take(colon) =~= i);
    assert(line.skip(colon + 1) =~= rest);
    text::trimming_keeps_the_middle(none, i, none);
    assert(none + i + none =~= i);
    text::decimal_round_trip(index, u32::MAX as nat);
    text::decimal_round_trip(start, u64::MAX as nat);
    text::decimal_round_trip(count, u64::MAX as nat);
    let tail = account + seq![' '] + s + seq![' '] + c;
    text::blanks_separate_fields(none, ' ', tail, false);
    assert(none + seq![' '] + tail =~= rest);
    let last = s + seq![' '] + c;
    text::blanks_separate_fields(account, ' ', last, false);
    assert(account + seq![' '] + last =~= tail);
    text::blanks_separate_fields(s, ' ', c, false);
    text::a_word_is_one_field(none, false);
    text::a_word_is_one_field(account, false);
    text::a_word_is_one_field(s, false);
    text::a_word_is_one_field(c, false);
    let fields = text::fields_of(rest, false);
    assert(fields =~= seq![account, s, c]);
}

/// Whatever line is read as a range, the range is valid; a line of white space
/// is no range and no error.
pub proof fn read_ranges_are_valid(raw: Seq<char>)
    ensures
        line_outcome(raw) matches LineOutcome::Range { start, count } ==> count > 0 && start
            + count <= 0x1_0000_0000,
        (forall|k: int| 0 <= k < raw.len() ==> text::is_white(#[trigger] raw[k])) ==> line_outcome(
            raw,
        ) is Blank,
{
    if forall|k: int| 0 <= k < raw.len() ==> text::is_white(#[trigger] raw[k]) {
        lemma_all_white(raw);
    }
}

proof fn lemma_all_white(s: Seq<char>)
    requires
        forall|k: int| 0 <= k < s.len() ==> text::is_white(#[trigger] s[k]),
    ensures
        text::trim_end_of(s).len() == 0,
    decreases s.len(),
{
    if s.len() > 0 {
        assert(text::is_white(s[s.len() - 1]));
        lemma_all_white(s.drop_last());
    }
}

/// One more line: a blank one changes nothing, a range is added at the end, and
/// a bad one fails the whole output.
pub proof fn each_line_adds_its_range(
    lines: Seq<Seq<char>>,
    line: Seq<char>,
    ranges: Seq<(nat, nat)>,
)
    requires
        lines_outcome(lines) == Ok::<Seq<(nat, nat)>, ErrorView>(ranges),
    ensures
        lines_outcome(lines.push(line)) == match line_outcome(line) {
            LineOutcome::Blank => Ok::<Seq<(nat, nat)>, ErrorView>(ranges),
            LineOutcome::Range { start, count } => Ok(ranges.push((start, count))),
            LineOutcome::Bad(error) => Err(error),
        },
{
    assert(lines.push(line).drop_last() =~= lines);
}

/// The cache answers exactly for the generation it holds, unless it is bypassed;
/// publishing makes it hold the published generation, and keeps the first answer
/// for a generation.
pub proof fn the_cache_answers_for_its_generation(
    cache: CacheView,
    force: bool,
    generation: DelegationGeneration,
    delegation: DelegationView,
)
    ensures
        warm(cache, force, generation) == Some(delegation) <==> !force && cache == Some(
            (generation, delegation),
        ),
        published(None, generation, delegation) == Some((generation, delegation)),
        published(cache, generation, delegation) matches Some((held, _)) && held == generation,
        warm(published(cache, generation, delegation), false, generation) == match warm(
            cache,
            false,
            generation,
        ) {
            Some(earlier) => Some(earlier),
            None => Some(delegation),
        },
{
}

/// A query is answered by the cache, or by the first discovery if nothing
/// changed meanwhile, or else by the second if nothing changed during that one;
/// what changes twice is reported.
pub proof fn queries_answer_a_stable_generation(
    cache: CacheView,
    force: bool,
    run: QueryRun,
    delegation: DelegationView,
)
    ensures
        query_outcome(cache, force, run).0 == Ok::<DelegationView, ErrorView>(delegation) <==> {
            ||| warm(cache, force, run.before) == Some(delegation)
            ||| {
                &&& warm(cache, force, run.before) is None
                &&& run.before == run.after
                &&& run.first == Ok::<DelegationView, ErrorView>(delegation)
            }
            ||| {
                &&& warm(cache, force, run.before) is None
                &&& run.before != run.after
                &&& run.after == run.last
                &&& run.first is Ok
                &&& run.second == Ok::<DelegationView, ErrorView>(delegation)
            }
        },
        query_outcome(cache, force, run).0 == Err::<DelegationView, ErrorView>(
            ErrorView::GenerationChanged,
        ) && !(run.first is Err) && !(run.second is Err) ==> run.before != run.after && run.after
            != run.last,
{
}

/// A range is what it was made of: it starts there, holds that many ids, lists
/// them in order, and contains exactly those.
pub proof fn ranges_hold_their_ids(
    start: u64,
    count: u64,
    r: Result<SubidRange, Error>,
    first: u32,
    end: u64,
    id: u32,
    member: bool,
    index: u64,
    listed: Option<u32>,
)
    requires
        call_ensures(SubidRange::new, (start, count), r),
        r matches Ok(range) ==> {
            &&& call_ensures(SubidRange::start, (&range,), first)
            &&& call_ensures(SubidRange::end, (&range,), end)
            &&& call_ensures(SubidRange::contains, (&range, id), member)
            &&& call_ensures(SubidRange::ids, (&range, index), listed)
        },
    ensures
        r is Ok <==> count > 0 && start + count <= 0x1_0000_0000,
        r is Ok ==> {
            &&& first == start
            &&& end == start + count
            &&& member <==> start <= id < start + count
            &&& listed is Some <==> index < count
            &&& listed matches Some(found) ==> found == start + index
        },
{
}

/// User ids come from the first helper and group ids from the second, and both
/// have to succeed.
pub proof fn both_helpers_are_asked(
    uid_run: HelperRun,
    gid_run: HelperRun,
    r: Result<Delegation, Error>,
)
    requires
        call_ensures(query_for_account, (uid_run, gid_run), r),
    ensures
        r is Ok <==> helper_outcome(uid_run) is Ok && helper_outcome(gid_run) is Ok,
        r matches Ok(delegation) ==> {
            &&& helper_outcome(uid_run) == Ok::<Seq<(nat, nat)>, ErrorView>(
                range_pairs(delegation@.uid_ranges),
            )
            &&& helper_outcome(gid_run) == Ok::<Seq<(nat, nat)>, ErrorView>(
                range_pairs(delegation@.gid_ranges),
            )
        },
{
}

/// A helper that could not be run, or that failed, gives no range; one that
/// succeeded is read line by line.
pub proof fn only_successful_helpers_are_read(run: HelperRun)
    ensures
        run is NotFound <==> helper_outcome(run) == Err::<Seq<(nat, nat)>, ErrorView>(
            ErrorView::HelperMissing,
        ) && !(run is Exited),
        run is Failed ==> helper_outcome(run) is Err,
        run matches HelperRun::Exited { success, stdout, .. } ==> if success {
            helper_outcome(run) == lines_outcome(text::lines_of(stdout@))
        } else {
            helper_outcome(run) is Err
        },
{
}

/// Ids are delegated by any of the ranges.
pub proof fn ranges_delegate_together(ranges: Seq<SubidRange>, range: SubidRange, id: int)
    ensures
        delegates(ranges.push(range), id) <==> delegates(ranges, id) || range.has(id),
        !delegates(Seq::<SubidRange>::empty(), id),
        range.has(id) <==> range.first() <= id < range.first() + range.size(),
{
    let longer = ranges.push(range);
    assert(longer[ranges.len() as int] == range);
    if delegates(ranges, id) {
        let i = choose|i: int| 0 <= i < ranges.len() && (#[trigger] ranges[i]).has(id);
        assert(longer[i].has(id));
    }
    if delegates(longer, id) {
        let i = choose|i: int| 0 <= i < longer.len() && (#[trigger] longer[i]).has(id);
        if i < ranges.len() {
            assert(ranges[i].has(id));
        }
    }
}

} // verus!
