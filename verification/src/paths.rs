//! How file paths are rendered in the output stream, and the report format
//! chosen by a path's extension.

use vstd::prelude::*;
use crate::text::{views, chars_of, seq_eq, seq_eq_ignore_ascii_case, eq_ignore_ascii_case, string_of};

verus! {

/// The last component of `path`, if it is a normal component
/// (`std::path::Path::file_name`), following the target platform's path
/// syntax.
pub uninterp spec fn path_file_name(path: Seq<char>) -> Option<Seq<char>>;

/// What remains of `path` after removing the leading components that make
/// up `base`, when `base` is such a prefix (`std::path::Path::strip_prefix`).
pub uninterp spec fn path_strip_prefix(path: Seq<char>, base: Seq<char>) -> Option<Seq<char>>;

/// The extension of the last component of `path`, if any
/// (`std::path::Path::extension`).
pub uninterp spec fn path_extension(path: Seq<char>) -> Option<Seq<char>>;

/// The views of an optional string.
pub open spec fn opt_view(o: Option<String>) -> Option<Seq<char>> {
    match o {
        Some(s) => Some(s@),
        None => None,
    }
}

/// The file name of `path`.
///
/// Trusted: `std::path::Path::file_name`, converted to a `String`; the
/// path is valid UTF-8, so the conversion loses nothing.
#[verifier::external_body]
pub(crate) fn file_name_of(path: &str) -> (res: Option<String>)
    ensures
        opt_view(res) == path_file_name(path@),
{
    match std::path::Path::new(path).file_name() {
        Some(n) => Some(n.to_string_lossy().into_owned()),
        None => None,
    }
}

/// `path` relative to `base`.
///
/// Trusted: `std::path::Path::strip_prefix`, converted to a `String`; the
/// path is valid UTF-8, so the conversion loses nothing.
#[verifier::external_body]
fn strip_prefix_of(path: &str, base: &str) -> (res: Option<String>)
    ensures
        opt_view(res) == path_strip_prefix(path@, base@),
{
    match std::path::Path::new(path).strip_prefix(base) {
        Ok(p) => Some(p.to_string_lossy().into_owned()),
        Err(_) => None,
    }
}

/// The extension of `path`.
///
/// Trusted: `std::path::Path::extension`, converted to a `String`; the path
/// is valid UTF-8, so the conversion loses nothing.
#[verifier::external_body]
fn extension_of(path: &str) -> (res: Option<String>)
    ensures
        opt_view(res) == path_extension(path@),
{
    match std::path::Path::new(path).extension() {
        Some(e) => Some(e.to_string_lossy().into_owned()),
        None => None,
    }
}

/// How file paths are rendered in the output stream.
#[derive(Clone, Copy, Debug, PartialEq, Eq, Structural)]
pub enum PathStyle {
    /// Absolute path, e.g. `/var/log/app/error.log`
    Full,
    /// Path relative to the matching watch root, e.g. `app/error.log`
    Relative,
    /// Filename only, e.g. `error.log`
    Filename,
}

/// A `path_style` value that is none of `full`, `relative`, `filename`.
#[derive(Debug)]
pub struct PathStyleError {
    pub value: String,
}

/// `path` relative to the first root it lies under; unchanged when it lies
/// under none.
pub open spec fn relative_to_roots(path: Seq<char>, roots: Seq<Seq<char>>) -> Seq<char>
    decreases roots.len(),
{
    if roots.len() == 0 {
        path
    } else {
        match path_strip_prefix(path, roots[0]) {
            Some(r) => r,
            None => relative_to_roots(path, roots.drop_first()),
        }
    }
}

/// How `style` renders `path` given the watch roots.
pub open spec fn render_spec(style: PathStyle, path: Seq<char>, roots: Seq<Seq<char>>) -> Seq<char> {
    match style {
        PathStyle::Full => path,
        PathStyle::Filename => match path_file_name(path) {
            Some(n) => n,
            None => path,
        },
        PathStyle::Relative => relative_to_roots(path, roots),
    }
}

/// The style a configuration value names, if any.
pub open spec fn parse_spec(value: Seq<char>) -> Option<PathStyle> {
    if value == "full"@ {
        Some(PathStyle::Full)
    } else if value == "relative"@ {
        Some(PathStyle::Relative)
    } else if value == "filename"@ {
        Some(PathStyle::Filename)
    } else {
        None
    }
}

impl PathStyle {
    /// Parses a configuration value: `full`, `relative` or `filename`.
    pub fn parse(value: &str) -> (res: Result<PathStyle, PathStyleError>)
        ensures
            match res {
                Ok(s) => parse_spec(value@) == Some(s),
                Err(e) => parse_spec(value@) is None && e.value@ == value@,
            },
    {
        let v = chars_of(value);
        if seq_eq(&v, &chars_of("full")) {
            Ok(PathStyle::Full)
        } else if seq_eq(&v, &chars_of("relative")) {
            Ok(PathStyle::Relative)
        } else if seq_eq(&v, &chars_of("filename")) {
            Ok(PathStyle::Filename)
        } else {
            Err(PathStyleError { value: string_of(&v) })
        }
    }

    /// Renders `path` in this style; `watch_roots` are tried in order for
    /// the relative style.
    pub fn render(self, path: &str, watch_roots: &[String]) -> (res: String)
        ensures
            res@ == render_spec(self, path@, views(watch_roots@)),
    {
        match self {
            PathStyle::Full => string_of(&chars_of(path)),
            PathStyle::Filename => match file_name_of(path) {
                Some(n) => n,
                None => string_of(&chars_of(path)),
            },
            PathStyle::Relative => {
                let ghost roots = views(watch_roots@);
                let mut i: usize = 0;
                assert(roots.skip(0) =~= roots);
                while i < watch_roots.len()
                    invariant
                        self == PathStyle::Relative,
                        i <= watch_roots.len(),
                        roots == views(watch_roots@),
                        relative_to_roots(path@, roots) == relative_to_roots(path@, roots.skip(i as int)),
                    decreases watch_roots.len() - i,
                {
                    let root = &watch_roots[i];
                    let stripped = strip_prefix_of(path, root.as_str());
                    assert(roots.skip(i as int)[0] == root@);
                    assert(roots.skip(i as int).drop_first() =~= roots.skip(i + 1));
                    if let Some(r) = stripped {
                        assert(path_strip_prefix(path@, roots.skip(i as int)[0]) == Some(r@));
                        assert(relative_to_roots(path@, roots.skip(i as int)) == r@);
                        return r;
                    }
                    i += 1;
                }
                string_of(&chars_of(path))
            },
        }
    }
}

/// How an activity report is serialized.
#[derive(Clone, Copy, Debug, PartialEq, Eq, Structural)]
pub enum ReportFormat {
    Json,
    Csv,
}

/// `.json` (in any ASCII case) selects JSON, anything else CSV.
pub open spec fn report_format_spec(path: Seq<char>) -> ReportFormat {
    match path_extension(path) {
        Some(e) => if eq_ignore_ascii_case(e, "json"@) {
            ReportFormat::Json
        } else {
            ReportFormat::Csv
        },
        None => ReportFormat::Csv,
    }
}

/// The report format chosen by the output path's extension.
pub fn report_format(path: &str) -> (res: ReportFormat)
    ensures
        res == report_format_spec(path@),
{
    match extension_of(path) {
        Some(e) => {
            let ec = chars_of(e.as_str());
            if seq_eq_ignore_ascii_case(&ec, &chars_of("json")) {
                ReportFormat::Json
            } else {
                ReportFormat::Csv
            }
        },
        None => ReportFormat::Csv,
    }
}

} // verus!
