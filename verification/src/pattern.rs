//! Compiled regular expressions and file-name globs, and the inclusion/exclusion
//! line filter built from them.

use vstd::prelude::*;
use crate::text::{chars_of, string_of, views};

verus! {

#[verifier::external_type_specification]
#[verifier::external_body]
pub struct ExRegex(regex::Regex);

#[verifier::external_type_specification]
#[verifier::external_body]
pub struct ExGlobPattern(glob::Pattern);

/// Whether `regex::Regex::new` accepts `pattern` (its syntax is valid and the
/// compiled program stays within the default size limit).
pub uninterp spec fn regex_compiles(pattern: Seq<char>) -> bool;

/// Whether the regex compiled from `pattern` matches somewhere in `text`
/// (`regex::Regex::is_match`).
pub uninterp spec fn regex_is_match(pattern: Seq<char>, text: Seq<char>) -> bool;

/// The message `regex::Regex::new` gives for `pattern` when it refuses it
/// (the `Display` of its `regex::Error`, which depends on the pattern and
/// the fixed default size limit alone).
pub uninterp spec fn regex_error_text(pattern: Seq<char>) -> Seq<char>;

/// Whether `glob::Pattern::new` accepts `pattern`.
pub uninterp spec fn glob_compiles(pattern: Seq<char>) -> bool;

/// Whether the glob compiled from `pattern` matches the path `name` with the
/// default options (`glob::Pattern::matches_path`).
pub uninterp spec fn glob_matches(pattern: Seq<char>, name: Seq<char>) -> bool;

/// The message `glob::Pattern::new` gives for `pattern` when it refuses it
/// (the `Display` of its `glob::PatternError`: the position and reason,
/// both found from the pattern alone).
pub uninterp spec fn glob_error_text(pattern: Seq<char>) -> Seq<char>;

/// A regular expression together with the text it was compiled from.
pub struct LinePattern {
    source: String,
    re: regex::Regex,
}

/// Compiles a regular expression; on failure gives the error's message.
///
/// Trusted: `regex::Regex::new` succeeds exactly on the patterns named by
/// `regex_compiles`; the pattern keeps the text it was compiled from; a
/// refusal is rendered through the `Display` of `regex::Error`, whose text
/// is named `regex_error_text`.
#[verifier::external_body]
fn regex_new(source: &str) -> (res: Result<LinePattern, String>)
    ensures
        res is Ok <==> regex_compiles(source@),
        res matches Ok(p) ==> p.source() == source@,
        res matches Err(m) ==> m@ == regex_error_text(source@),
{
    match regex::Regex::new(source) {
        Ok(re) => Ok(LinePattern { source: source.to_string(), re }),
        Err(e) => Err(e.to_string()),
    }
}

impl LinePattern {
    /// The text this pattern was compiled from.
    pub closed spec fn source(&self) -> Seq<char> {
        self.source@
    }

    /// Compiles `source`; on failure returns the compiler's message.
    pub fn new(source: &str) -> (res: Result<LinePattern, String>)
        ensures
            res is Ok <==> regex_compiles(source@),
            res matches Ok(p) ==> p.source() == source@,
            res matches Err(m) ==> m@ == regex_error_text(source@),
    {
        regex_new(source)
    }

    /// The text this pattern was compiled from.
    pub fn as_str(&self) -> (res: &str)
        ensures
            res@ == self.source(),
    {
        self.source.as_str()
    }

    /// Whether the pattern matches somewhere in `text`.
    ///
    /// Trusted: `regex::Regex::is_match` on the regex compiled from
    /// `self.source()`, which `regex_new` is the only place to build.
    #[verifier::external_body]
    pub(crate) fn is_match(&self, text: &str) -> (res: bool)
        ensures
            res == regex_is_match(self.source(), text@),
    {
        self.re.is_match(text)
    }
}

/// A file-name glob together with the text it was compiled from.
pub struct FileGlob {
    source: String,
    pat: glob::Pattern,
}

/// Compiles a glob; on failure gives the error's message.
///
/// Trusted: `glob::Pattern::new` succeeds exactly on the patterns named by
/// `glob_compiles`; the glob keeps the text it was compiled from; a refusal
/// is rendered through the `Display` of `glob::PatternError`, whose text is
/// named `glob_error_text`.
#[verifier::external_body]
fn glob_new(source: &str) -> (res: Result<FileGlob, String>)
    ensures
        res is Ok <==> glob_compiles(source@),
        res matches Ok(p) ==> p.source() == source@,
        res matches Err(m) ==> m@ == glob_error_text(source@),
{
    match glob::Pattern::new(source) {
        Ok(pat) => Ok(FileGlob { source: source.to_string(), pat }),
        Err(e) => Err(e.to_string()),
    }
}

impl FileGlob {
    /// The text this glob was compiled from.
    pub closed spec fn source(&self) -> Seq<char> {
        self.source@
    }

    /// Compiles `source`; on failure returns the compiler's message.
    pub fn new(source: &str) -> (res: Result<FileGlob, String>)
        ensures
            res is Ok <==> glob_compiles(source@),
            res matches Ok(p) ==> p.source() == source@,
            res matches Err(m) ==> m@ == glob_error_text(source@),
    {
        glob_new(source)
    }

    /// Whether the glob matches the path `name`.
    ///
    /// Trusted: `glob::Pattern::matches_path` with default options on the
    /// glob compiled from `self.source()`, which `glob_new` is the only place
    /// to build.
    #[verifier::external_body]
    pub(crate) fn matches_path(&self, name: &str) -> (res: bool)
        ensures
            res == glob_matches(self.source(), name@),
    {
        self.pat.matches_path(std::path::Path::new(name))
    }
}

// ---------------------------------------------------------------------------
// Line filter
// ---------------------------------------------------------------------------

/// Which list an invalid filter pattern came from.
#[derive(Clone, Copy, Debug, PartialEq, Eq, Structural)]
pub enum PatternList {
    Inclusion,
    Exclusion,
}

/// A filter pattern that does not compile.
#[derive(Debug)]
pub struct FilterError {
    pub list: PatternList,
    pub pattern: String,
    pub reason: String,
}

/// Every pattern of the list compiles.
pub open spec fn all_compile(v: Seq<Seq<char>>) -> bool {
    forall|i: int| 0 <= i < v.len() ==> regex_compiles(#[trigger] v[i])
}

/// Position of the first pattern of the list that does not compile.
pub open spec fn is_first_invalid(v: Seq<Seq<char>>, k: int) -> bool {
    &&& 0 <= k < v.len()
    &&& !regex_compiles(v[k])
    &&& forall|i: int| 0 <= i < k ==> regex_compiles(#[trigger] v[i])
}

/// A line passes when it matches at least one inclusion pattern (or there are
/// none) and no exclusion pattern.
pub open spec fn passes(inclusions: Seq<Seq<char>>, exclusions: Seq<Seq<char>>, line: Seq<char>) -> bool {
    &&& (inclusions.len() == 0 || exists|i: int| 0 <= i < inclusions.len() && regex_is_match(#[trigger] inclusions[i], line))
    &&& !exists|j: int| 0 <= j < exclusions.len() && regex_is_match(#[trigger] exclusions[j], line)
}

/// Inclusion/exclusion filter over log lines.
pub struct LogFilter {
    inclusions: Vec<LinePattern>,
    exclusions: Vec<LinePattern>,
}

/// Compiles every pattern of a list, stopping at the first that fails.
fn compile_all(patterns: &Vec<String>) -> (res: Result<Vec<LinePattern>, (usize, String)>)
    ensures
        res is Ok <==> all_compile(views(patterns@)),
        res matches Ok(v) ==> v.len() == patterns.len() && forall|i: int| 0 <= i < v.len() ==> #[trigger] v@[i].source() == patterns@[i]@,
        res matches Err(e) ==> is_first_invalid(views(patterns@), e.0 as int)
            && e.1@ == regex_error_text(patterns@[e.0 as int]@),
{
    let mut out: Vec<LinePattern> = Vec::new();
    let mut i: usize = 0;
    while i < patterns.len()
        invariant
            i <= patterns.len(),
            out.len() == i,
            forall|j: int| 0 <= j < i ==> #[trigger] out@[j].source() == patterns@[j]@,
            forall|j: int| 0 <= j < i ==> regex_compiles(#[trigger] views(patterns@)[j]),
        decreases patterns.len() - i,
    {
        match LinePattern::new(patterns[i].as_str()) {
            Ok(p) => {
                out.push(p);
            },
            Err(reason) => {
                assert(views(patterns@)[i as int] == patterns@[i as int]@);
                return Err((i, reason));
            },
        }
        i += 1;
    }
    Ok(out)
}

impl LogFilter {
    /// The inclusion patterns' texts.
    pub closed spec fn inclusion_sources(&self) -> Seq<Seq<char>> {
        self.inclusions@.map_values(|p: LinePattern| p.source())
    }

    /// The exclusion patterns' texts.
    pub closed spec fn exclusion_sources(&self) -> Seq<Seq<char>> {
        self.exclusions@.map_values(|p: LinePattern| p.source())
    }

    /// Compiles the inclusion and exclusion patterns. Fails on the first inclusion
    /// pattern that does not compile, else on the first such exclusion
    /// pattern.
    pub fn new(inclusions: Vec<String>, exclusions: Vec<String>) -> (res: Result<LogFilter, FilterError>)
        ensures
            res is Ok <==> all_compile(views(inclusions@)) && all_compile(views(exclusions@)),
            res matches Ok(f) ==> f.inclusion_sources() == views(inclusions@) && f.exclusion_sources() == views(exclusions@),
            res matches Err(e) ==> {
                ||| e.list == PatternList::Inclusion && exists|k: int| is_first_invalid(views(inclusions@), k) && e.pattern@ == inclusions@[k]@
                ||| e.list == PatternList::Exclusion && all_compile(views(inclusions@)) && exists|k: int| is_first_invalid(views(exclusions@), k) && e.pattern@ == exclusions@[k]@
            },
            res matches Err(e) ==> e.reason@ == regex_error_text(e.pattern@),
    {
        let inc = match compile_all(&inclusions) {
            Ok(v) => v,
            Err((k, reason)) => {
                let pattern = string_of(&chars_of(inclusions[k].as_str()));
                return Err(FilterError { list: PatternList::Inclusion, pattern, reason });
            },
        };
        let exc = match compile_all(&exclusions) {
            Ok(v) => v,
            Err((k, reason)) => {
                let pattern = string_of(&chars_of(exclusions[k].as_str()));
                return Err(FilterError { list: PatternList::Exclusion, pattern, reason });
            },
        };
        let f = LogFilter { inclusions: inc, exclusions: exc };
        assert(f.inclusion_sources() =~= views(inclusions@));
        assert(f.exclusion_sources() =~= views(exclusions@));
        Ok(f)
    }

    /// Whether a line passes the filter: it must match at least one inclusion
    /// pattern (when there are any) and no exclusion pattern.
    pub fn matches(&self, line: &str) -> (res: bool)
        ensures
            res == passes(self.inclusion_sources(), self.exclusion_sources(), line@),
    {
        let ghost inc = self.inclusion_sources();
        let ghost exc = self.exclusion_sources();
        if self.inclusions.len() > 0 {
            let mut any = false;
            let mut i: usize = 0;
            while i < self.inclusions.len()
                invariant
                    inc == self.inclusion_sources(),
                    i <= self.inclusions.len(),
                    any <==> exists|j: int| 0 <= j < i && regex_is_match(#[trigger] inc[j], line@),
                decreases self.inclusions.len() - i,
            {
                let m = self.inclusions[i].is_match(line);
                assert(inc[i as int] == self.inclusions@[i as int].source());
                if m {
                    any = true;
                }
                i += 1;
            }
            if !any {
                return false;
            }
        }
        let mut k: usize = 0;
        while k < self.exclusions.len()
            invariant
                exc == self.exclusion_sources(),
                k <= self.exclusions.len(),
                forall|j: int| 0 <= j < k ==> !regex_is_match(#[trigger] exc[j], line@),
            decreases self.exclusions.len() - k,
        {
            let m = self.exclusions[k].is_match(line);
            assert(exc[k as int] == self.exclusions@[k as int].source());
            if m {
                return false;
            }
            k += 1;
        }
        true
    }
}

/// How the filter decides, pattern by pattern: a line that matches any
/// one inclusion pattern and no exclusion pattern is shown; a line that
/// matches some exclusion pattern is hidden, whatever else it matches;
/// with no inclusion patterns every line that matches no exclusion pattern
/// is shown; and with inclusion patterns, a line that matches none of them
/// is hidden.
pub proof fn law_filter_any_inclusion_no_exclusion(
    inclusions: Seq<Seq<char>>,
    exclusions: Seq<Seq<char>>,
    line: Seq<char>,
    i: int,
)
    ensures
        0 <= i < inclusions.len() && regex_is_match(inclusions[i], line) && (forall|j: int|
            0 <= j < exclusions.len() ==> !regex_is_match(exclusions[j], line)) ==> passes(
            inclusions,
            exclusions,
            line,
        ),
        0 <= i < exclusions.len() && regex_is_match(exclusions[i], line) ==> !passes(inclusions, exclusions, line),
        inclusions.len() == 0 && (forall|j: int| 0 <= j < exclusions.len() ==> !regex_is_match(exclusions[j], line))
            ==> passes(inclusions, exclusions, line),
        inclusions.len() > 0 && (forall|j: int| 0 <= j < inclusions.len() ==> !regex_is_match(inclusions[j], line))
            ==> !passes(inclusions, exclusions, line),
{
}

} // verus!
