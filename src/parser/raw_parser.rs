//! The grammar of a diff document, parsed into raw structures that hold the
//! text of each line but no line numbers yet.
//!
//! Every rule reads the input as a sequence of characters from a position and
//! hands back the position where it stopped. Lines end at a newline or at the
//! end of the input.
use crate::text::{
    all_whitespace, find_from, find_line_end, find_next_line, find_pattern, find_word_end,
    has_prefix, has_prefix_at, is_all_whitespace, lemma_find_from_bounds, lemma_line_end_bounds,
    line_end, next_line, rest_of_line, substring, to_chars, word_end,
};
use vstd::prelude::*;

verus! {

/// A line of a hunk body: only in the pre-image (`Left`), only in the
/// post-image (`Right`), or in both.
#[derive(Debug, PartialEq, Eq)]
pub enum RawLine {
    Left(String),
    Right(String),
    Both(String),
}

pub enum RawLineModel {
    Left(Seq<char>),
    Right(Seq<char>),
    Both(Seq<char>),
}

impl View for RawLine {
    type V = RawLineModel;

    open spec fn view(&self) -> RawLineModel {
        match self {
            RawLine::Left(t) => RawLineModel::Left(t@),
            RawLine::Right(t) => RawLineModel::Right(t@),
            RawLine::Both(t) => RawLineModel::Both(t@),
        }
    }
}

/// One line (or pair of lines) of metadata between `diff --git` and the hunks.
#[derive(Debug, PartialEq, Eq)]
pub enum ExtendedHeader {
    ChMode((String, String)),
    Deleted,
    NewFile,
    CopyFile((String, String)),
    RenameFile((String, String)),
    SimilarityIndex(String),
    DissimilarityIndex(String),
    Index(String),
}

pub enum ExtendedHeaderModel {
    ChMode(Seq<char>, Seq<char>),
    Deleted,
    NewFile,
    CopyFile(Seq<char>, Seq<char>),
    RenameFile(Seq<char>, Seq<char>),
    SimilarityIndex(Seq<char>),
    DissimilarityIndex(Seq<char>),
    Index(Seq<char>),
}

impl View for ExtendedHeader {
    type V = ExtendedHeaderModel;

    open spec fn view(&self) -> ExtendedHeaderModel {
        match self {
            ExtendedHeader::ChMode((a, b)) => ExtendedHeaderModel::ChMode(a@, b@),
            ExtendedHeader::Deleted => ExtendedHeaderModel::Deleted,
            ExtendedHeader::NewFile => ExtendedHeaderModel::NewFile,
            ExtendedHeader::CopyFile((a, b)) => ExtendedHeaderModel::CopyFile(a@, b@),
            ExtendedHeader::RenameFile((a, b)) => ExtendedHeaderModel::RenameFile(a@, b@),
            ExtendedHeader::SimilarityIndex(a) => ExtendedHeaderModel::SimilarityIndex(a@),
            ExtendedHeader::DissimilarityIndex(a) => ExtendedHeaderModel::DissimilarityIndex(a@),
            ExtendedHeader::Index(a) => ExtendedHeaderModel::Index(a@),
        }
    }
}

/// The `diff --git` line (pre- and post-image paths) and the extended headers.
#[derive(Debug, PartialEq, Eq)]
pub struct RawFileHeader {
    pub filenames: (String, String),
    pub extended_headers: Vec<ExtendedHeader>,
}

pub struct RawFileHeaderModel {
    pub filenames: (Seq<char>, Seq<char>),
    pub extended_headers: Seq<ExtendedHeaderModel>,
}

pub open spec fn headers_view(v: Seq<ExtendedHeader>) -> Seq<ExtendedHeaderModel> {
    v.map_values(|h: ExtendedHeader| h@)
}

impl View for RawFileHeader {
    type V = RawFileHeaderModel;

    open spec fn view(&self) -> RawFileHeaderModel {
        RawFileHeaderModel {
            filenames: (self.filenames.0@, self.filenames.1@),
            extended_headers: headers_view(self.extended_headers@),
        }
    }
}

/// A hunk as written: its header `(start_left, count_left, start_right, count_right)`
/// and its body lines.
#[derive(Debug, PartialEq, Eq)]
pub struct RawFileHunk {
    pub line_info: (u32, u32, u32, u32),
    pub lines: Vec<RawLine>,
}

pub struct RawFileHunkModel {
    pub line_info: (u32, u32, u32, u32),
    pub lines: Seq<RawLineModel>,
}

pub open spec fn lines_view(v: Seq<RawLine>) -> Seq<RawLineModel> {
    v.map_values(|l: RawLine| l@)
}

impl View for RawFileHunk {
    type V = RawFileHunkModel;

    open spec fn view(&self) -> RawFileHunkModel {
        RawFileHunkModel { line_info: self.line_info, lines: lines_view(self.lines@) }
    }
}

/// One `diff --git` block.
#[derive(Debug, PartialEq, Eq)]
pub struct RawFile {
    pub header: RawFileHeader,
    pub hunks: Vec<RawFileHunk>,
}

pub struct RawFileModel {
    pub header: RawFileHeaderModel,
    pub hunks: Seq<RawFileHunkModel>,
}

pub open spec fn hunks_view(v: Seq<RawFileHunk>) -> Seq<RawFileHunkModel> {
    v.map_values(|h: RawFileHunk| h@)
}

impl View for RawFile {
    type V = RawFileModel;

    open spec fn view(&self) -> RawFileModel {
        RawFileModel { header: self.header@, hunks: hunks_view(self.hunks@) }
    }
}

pub open spec fn files_view(v: Seq<RawFile>) -> Seq<RawFileModel> {
    v.map_values(|f: RawFile| f@)
}

/// What went wrong.
#[derive(Debug, Clone, Copy, PartialEq, Eq, Structural)]
pub enum ErrorKind {
    /// Text that no rule of the grammar accounts for.
    UnexpectedInput,
    /// A line starting with `@@` that is not `@@ -a,b +c,d @@...`.
    MalformedHunkHeader,
    /// A number of a hunk header that does not fit in 32 bits.
    NumberOverflow,
    /// A hunk body whose lines do not add up to the counts of its header.
    LineCountMismatch,
}

/// A parse failure, with the position (in characters) of the line it concerns.
#[derive(Debug, Clone, Copy, PartialEq, Eq, Structural)]
pub struct ParseError {
    pub kind: ErrorKind,
    pub position: usize,
}

// ---------------------------------------------------------------------------
// The grammar, as spec functions over the characters `s` of the input.
// ---------------------------------------------------------------------------

/// `diff --git a/<left> b/<right>`: the two paths, split at the first ` b/`.
pub open spec fn spec_filename(s: Seq<char>, p: int) -> Option<(int, (Seq<char>, Seq<char>))> {
    if !has_prefix(s, p, "diff --git a/"@) {
        None
    } else {
        let a = p + "diff --git a/"@.len();
        let e = line_end(s, a);
        match find_from(s, " b/"@, a, e) {
            None => None,
            Some(j) => {
                let b = j + " b/"@.len();
                Some((next_line(s, b), (s.subrange(a, j), s.subrange(b, line_end(s, b)))))
            },
        }
    }
}

/// A header made of a line starting with `first` and one starting with `second`;
/// yields the rest of both lines.
pub open spec fn spec_pair(s: Seq<char>, p: int, first: Seq<char>, second: Seq<char>) -> Option<
    (int, (Seq<char>, Seq<char>)),
> {
    if !has_prefix(s, p, first) {
        None
    } else {
        let a = p + first.len();
        let q = next_line(s, a);
        if !has_prefix(s, q, second) {
            None
        } else {
            let b = q + second.len();
            Some((next_line(s, b), (rest_of_line(s, a), rest_of_line(s, b))))
        }
    }
}

/// A header of one line starting with `tag`; yields the rest of the line.
pub open spec fn spec_tagged(s: Seq<char>, p: int, tag: Seq<char>) -> Option<(int, Seq<char>)> {
    if !has_prefix(s, p, tag) {
        None
    } else {
        let a = p + tag.len();
        Some((next_line(s, a), rest_of_line(s, a)))
    }
}

pub open spec fn spec_extended_header_mode(s: Seq<char>, p: int) -> Option<(int, ExtendedHeaderModel)> {
    match spec_pair(s, p, "old mode "@, "new mode "@) {
        Some((q, (a, b))) => Some((q, ExtendedHeaderModel::ChMode(a, b))),
        None => None,
    }
}

pub open spec fn spec_extended_header_deleted(s: Seq<char>, p: int) -> Option<(int, ExtendedHeaderModel)> {
    match spec_tagged(s, p, "deleted file mode "@) {
        Some((q, _)) => Some((q, ExtendedHeaderModel::Deleted)),
        None => None,
    }
}

pub open spec fn spec_extended_header_new_file(s: Seq<char>, p: int) -> Option<(int, ExtendedHeaderModel)> {
    match spec_tagged(s, p, "new file mode "@) {
        Some((q, _)) => Some((q, ExtendedHeaderModel::NewFile)),
        None => None,
    }
}

pub open spec fn spec_extended_header_copy_file(s: Seq<char>, p: int) -> Option<(int, ExtendedHeaderModel)> {
    match spec_pair(s, p, "copy from "@, "copy to "@) {
        Some((q, (a, b))) => Some((q, ExtendedHeaderModel::CopyFile(a, b))),
        None => None,
    }
}

pub open spec fn spec_extended_header_rename_file(s: Seq<char>, p: int) -> Option<(int, ExtendedHeaderModel)> {
    match spec_pair(s, p, "rename from "@, "rename to "@) {
        Some((q, (a, b))) => Some((q, ExtendedHeaderModel::RenameFile(a, b))),
        None => None,
    }
}

pub open spec fn spec_extended_header_similarity_index(s: Seq<char>, p: int) -> Option<(int, ExtendedHeaderModel)> {
    match spec_tagged(s, p, "similarity index "@) {
        Some((q, a)) => Some((q, ExtendedHeaderModel::SimilarityIndex(a))),
        None => None,
    }
}

pub open spec fn spec_extended_header_dissimilarity_index(s: Seq<char>, p: int) -> Option<(int, ExtendedHeaderModel)> {
    match spec_tagged(s, p, "dissimilarity index "@) {
        Some((q, a)) => Some((q, ExtendedHeaderModel::DissimilarityIndex(a))),
        None => None,
    }
}

/// `index <old>..<new>[ <mode>]`: the new hash runs from after the first `..`
/// to the next whitespace.
pub open spec fn spec_extended_header_index(s: Seq<char>, p: int) -> Option<(int, ExtendedHeaderModel)> {
    if !has_prefix(s, p, "index "@) {
        None
    } else {
        let a = p + "index "@.len();
        match find_from(s, ".."@, a, line_end(s, a)) {
            None => None,
            Some(j) => {
                let h = j + ".."@.len();
                let w = word_end(s, h);
                Some((next_line(s, w), ExtendedHeaderModel::Index(s.subrange(h, w))))
            },
        }
    }
}

/// The first of the extended-header forms that matches at `p`.
pub open spec fn spec_extended_header(s: Seq<char>, p: int) -> Option<(int, ExtendedHeaderModel)> {
    if spec_extended_header_mode(s, p) is Some {
        spec_extended_header_mode(s, p)
    } else if spec_extended_header_deleted(s, p) is Some {
        spec_extended_header_deleted(s, p)
    } else if spec_extended_header_new_file(s, p) is Some {
        spec_extended_header_new_file(s, p)
    } else if spec_extended_header_copy_file(s, p) is Some {
        spec_extended_header_copy_file(s, p)
    } else if spec_extended_header_rename_file(s, p) is Some {
        spec_extended_header_rename_file(s, p)
    } else if spec_extended_header_similarity_index(s, p) is Some {
        spec_extended_header_similarity_index(s, p)
    } else if spec_extended_header_dissimilarity_index(s, p) is Some {
        spec_extended_header_dissimilarity_index(s, p)
    } else {
        spec_extended_header_index(s, p)
    }
}

/// As many extended headers as follow one another from `p`; a match that
/// consumes nothing ends the run.
pub open spec fn spec_extended_headers(s: Seq<char>, p: int) -> (int, Seq<ExtendedHeaderModel>)
    decreases s.len() - p,
{
    match spec_extended_header(s, p) {
        Some((q, h)) => if p < q <= s.len() {
            let (r, hs) = spec_extended_headers(s, q);
            (r, seq![h] + hs)
        } else {
            (p, Seq::empty())
        },
        None => (p, Seq::empty()),
    }
}

/// The `--- <old>` / `+++ <new>` pair that restates the file names.
pub open spec fn spec_file_names(s: Seq<char>, p: int) -> Option<int> {
    match spec_pair(s, p, "--- "@, "+++ "@) {
        Some((q, _)) => Some(q),
        None => None,
    }
}

/// Skips the file-name pair when it stands at `p`.
pub open spec fn skip_file_names(s: Seq<char>, p: int) -> int {
    match spec_file_names(s, p) {
        Some(q) => q,
        None => p,
    }
}

/// The `diff --git` line, the extended headers and the optional file-name pair.
pub open spec fn spec_raw_file_header(s: Seq<char>, p: int) -> Option<(int, RawFileHeaderModel)> {
    match spec_filename(s, p) {
        None => None,
        Some((q, names)) => {
            let (r, hs) = spec_extended_headers(s, q);
            Some((skip_file_names(s, r), RawFileHeaderModel { filenames: names, extended_headers: hs }))
        },
    }
}

pub open spec fn is_digit(c: char) -> bool {
    '0' <= c <= '9'
}

/// Index of the first non-digit at or after `i`, or the length of `s`.
pub open spec fn digits_end(s: Seq<char>, i: int) -> int
    decreases s.len() - i,
{
    if i >= s.len() || i < 0 {
        s.len() as int
    } else if !is_digit(s[i]) {
        i
    } else {
        digits_end(s, i + 1)
    }
}

/// The value of a string of decimal digits.
pub open spec fn digits_value(d: Seq<char>) -> nat
    decreases d.len(),
{
    if d.len() == 0 {
        0
    } else {
        digits_value(d.drop_last()) * 10 + (d.last() as nat - '0' as nat) as nat
    }
}

/// `sep` followed by a decimal number at `i`: the end of the number and its value.
pub open spec fn spec_field(s: Seq<char>, i: int, sep: Seq<char>) -> Result<(int, u32), ErrorKind> {
    if !has_prefix(s, i, sep) {
        Err(ErrorKind::MalformedHunkHeader)
    } else {
        let a = i + sep.len();
        let e = digits_end(s, a);
        if e == a {
            Err(ErrorKind::MalformedHunkHeader)
        } else if digits_value(s.subrange(a, e)) > u32::MAX {
            Err(ErrorKind::NumberOverflow)
        } else {
            Ok((e, digits_value(s.subrange(a, e)) as u32))
        }
    }
}

/// `@@ -<a>,<b> +<c>,<d> @@<ignored>` at `p`: the start of the next line and
/// the four numbers.
pub open spec fn spec_hunk_header(s: Seq<char>, p: int) -> Result<(int, (u32, u32, u32, u32)), ErrorKind> {
    match spec_field(s, p, "@@ -"@) {
        Err(k) => Err(k),
        Ok((i1, a)) => match spec_field(s, i1, ","@) {
            Err(k) => Err(k),
            Ok((i2, b)) => match spec_field(s, i2, " +"@) {
                Err(k) => Err(k),
                Ok((i3, c)) => match spec_field(s, i3, ","@) {
                    Err(k) => Err(k),
                    Ok((i4, d)) => if has_prefix(s, i4, " @@"@) {
                        Ok((next_line(s, i4 + " @@"@.len()), (a, b, c, d)))
                    } else {
                        Err(ErrorKind::MalformedHunkHeader)
                    },
                },
            },
        },
    }
}

/// The hunk header, after an optional file-name pair. `Ok(None)` when no line
/// starting with `@@` stands there; a line starting with `@@` must be a valid
/// header.
pub open spec fn spec_lines_info(s: Seq<char>, p: int) -> Result<
    Option<(int, (u32, u32, u32, u32))>,
    ParseError,
> {
    let h = skip_file_names(s, p);
    if !has_prefix(s, h, "@@"@) {
        Ok(None)
    } else {
        match spec_hunk_header(s, h) {
            Err(k) => Err(ParseError { kind: k, position: h as usize }),
            Ok((q, info)) => Ok(Some((q, info))),
        }
    }
}

/// A body line: its first character says which image it belongs to.
pub open spec fn spec_line(s: Seq<char>, p: int) -> Option<(int, RawLineModel)> {
    if p < 0 || p >= s.len() {
        None
    } else {
        let t = rest_of_line(s, p + 1);
        let q = next_line(s, p + 1);
        if s[p] == ' ' {
            Some((q, RawLineModel::Both(t)))
        } else if s[p] == '-' {
            Some((q, RawLineModel::Left(t)))
        } else if s[p] == '+' {
            Some((q, RawLineModel::Right(t)))
        } else {
            None
        }
    }
}

/// As many body lines as follow one another from `p`; a match that
/// consumes nothing ends the run.
pub open spec fn spec_lines(s: Seq<char>, p: int) -> (int, Seq<RawLineModel>)
    decreases s.len() - p,
{
    match spec_line(s, p) {
        Some((q, l)) => if p < q <= s.len() {
            let (r, ls) = spec_lines(s, q);
            (r, seq![l] + ls)
        } else {
            (p, Seq::empty())
        },
        None => (p, Seq::empty()),
    }
}

/// Number of lines that belong to the pre-image (`Left` and `Both`).
pub open spec fn pre_count(ls: Seq<RawLineModel>) -> nat
    decreases ls.len(),
{
    if ls.len() == 0 {
        0
    } else {
        pre_count(ls.drop_last()) + if ls.last() is Right {
            0nat
        } else {
            1nat
        }
    }
}

/// Number of lines that belong to the post-image (`Right` and `Both`).
pub open spec fn post_count(ls: Seq<RawLineModel>) -> nat
    decreases ls.len(),
{
    if ls.len() == 0 {
        0
    } else {
        post_count(ls.drop_last()) + if ls.last() is Left {
            0nat
        } else {
            1nat
        }
    }
}

/// A hunk whose body holds as many lines of each image as its header declares.
pub open spec fn hunk_counts_match(h: RawFileHunkModel) -> bool {
    pre_count(h.lines) == h.line_info.1 && post_count(h.lines) == h.line_info.3
}

/// A hunk: header and body, whose line counts must agree with the header.
pub open spec fn spec_raw_file_hunk(s: Seq<char>, p: int) -> Result<Option<(int, RawFileHunkModel)>, ParseError> {
    match spec_lines_info(s, p) {
        Err(e) => Err(e),
        Ok(None) => Ok(None),
        Ok(Some((q, info))) => {
            let (r, ls) = spec_lines(s, q);
            let h = RawFileHunkModel { line_info: info, lines: ls };
            if hunk_counts_match(h) {
                Ok(Some((r, h)))
            } else {
                Err(
                    ParseError {
                        kind: ErrorKind::LineCountMismatch,
                        position: skip_file_names(s, p) as usize,
                    },
                )
            }
        },
    }
}

/// As many hunks as follow one another from `p`; a match that consumes
/// nothing ends the run.
pub open spec fn spec_raw_file_hunks(s: Seq<char>, p: int) -> Result<(int, Seq<RawFileHunkModel>), ParseError>
    decreases s.len() - p,
{
    match spec_raw_file_hunk(s, p) {
        Err(e) => Err(e),
        Ok(None) => Ok((p, Seq::empty())),
        Ok(Some((q, h))) => if p < q <= s.len() {
            match spec_raw_file_hunks(s, q) {
                Err(e) => Err(e),
                Ok((r, hs)) => Ok((r, seq![h] + hs)),
            }
        } else {
            Ok((p, Seq::empty()))
        },
    }
}

/// One file block: header and hunks.
pub open spec fn spec_raw_file(s: Seq<char>, p: int) -> Result<Option<(int, RawFileModel)>, ParseError> {
    match spec_raw_file_header(s, p) {
        None => Ok(None),
        Some((q, header)) => match spec_raw_file_hunks(s, q) {
            Err(e) => Err(e),
            Ok((r, hs)) => Ok(Some((r, RawFileModel { header, hunks: hs }))),
        },
    }
}

/// As many file blocks as follow one another from `p`; a match that
/// consumes nothing ends the run.
pub open spec fn spec_raw_files_intern(s: Seq<char>, p: int) -> Result<(int, Seq<RawFileModel>), ParseError>
    decreases s.len() - p,
{
    match spec_raw_file(s, p) {
        Err(e) => Err(e),
        Ok(None) => Ok((p, Seq::empty())),
        Ok(Some((q, f))) => if p < q <= s.len() {
            match spec_raw_files_intern(s, q) {
                Err(e) => Err(e),
                Ok((r, fs)) => Ok((r, seq![f] + fs)),
            }
        } else {
            Ok((p, Seq::empty()))
        },
    }
}

/// The whole document: file blocks, then nothing but whitespace.
pub open spec fn spec_raw_files(s: Seq<char>) -> Result<Seq<RawFileModel>, ParseError> {
    match spec_raw_files_intern(s, 0) {
        Err(e) => Err(e),
        Ok((q, fs)) => if all_whitespace(s, q) {
            Ok(fs)
        } else {
            Err(ParseError { kind: ErrorKind::UnexpectedInput, position: q as usize })
        },
    }
}

// ---------------------------------------------------------------------------
// The rules, as executable functions over a `Vec<char>` and a position.
// ---------------------------------------------------------------------------

/// The result of a rule that may not match, with positions as integers.
pub open spec fn opt_view<T: View>(r: Option<(usize, T)>) -> Option<(int, T::V)> {
    match r {
        Some((q, t)) => Some((q as int, t@)),
        None => None,
    }
}

/// The result of a rule that may not match and may fail, with positions as integers.
pub open spec fn res_opt_view<T: View>(r: Result<Option<(usize, T)>, ParseError>) -> Result<
    Option<(int, T::V)>,
    ParseError,
> {
    match r {
        Ok(o) => Ok(opt_view(o)),
        Err(e) => Err(e),
    }
}

/// The rest of the line from `a`, and the start of the next line.
fn rest_and_next(s: &Vec<char>, a: usize) -> (r: (usize, String))
    requires
        a <= s.len(),
    ensures
        r.0 == next_line(s@, a as int),
        r.1@ == rest_of_line(s@, a as int),
        a <= r.0 <= s.len(),
{
    let e = find_line_end(s, a);
    let t = substring(s, a, e);
    (find_next_line(s, a), t)
}

/// `diff --git a/<left> b/<right>`.
pub fn parse_filename(s: &Vec<char>, p: usize) -> (r: Option<(usize, (String, String))>)
    requires
        p <= s.len(),
    ensures
        opt_view(r) == spec_filename(s@, p as int),
{
    let tag = "diff --git a/";
    if !has_prefix_at(s, p, tag) {
        return None;
    }
    let a = p + tag.unicode_len();
    let e = find_line_end(s, a);
    let sep = " b/";
    match find_pattern(s, sep, a, e) {
        None => None,
        Some(j) => {
            proof {
                lemma_line_end_bounds(s@, a as int);
                lemma_find_from_bounds(s@, sep@, a as int, e as int);
            }
            let left = substring(s, a, j);
            let b = j + sep.unicode_len();
            let (q, right) = rest_and_next(s, b);
            Some((q, (left, right)))
        },
    }
}

fn parse_pair(s: &Vec<char>, p: usize, first: &str, second: &str) -> (r: Option<(usize, (String, String))>)
    requires
        p <= s.len(),
    ensures
        opt_view(r) == spec_pair(s@, p as int, first@, second@),
{
    if !has_prefix_at(s, p, first) {
        return None;
    }
    let (q, a) = rest_and_next(s, p + first.unicode_len());
    if !has_prefix_at(s, q, second) {
        return None;
    }
    let (n, b) = rest_and_next(s, q + second.unicode_len());
    Some((n, (a, b)))
}

fn parse_tagged(s: &Vec<char>, p: usize, tag: &str) -> (r: Option<(usize, String)>)
    requires
        p <= s.len(),
    ensures
        opt_view(r) == spec_tagged(s@, p as int, tag@),
{
    if !has_prefix_at(s, p, tag) {
        return None;
    }
    Some(rest_and_next(s, p + tag.unicode_len()))
}

/// `old mode <m>` followed by `new mode <m>`.
pub fn parse_extended_header_mode(s: &Vec<char>, p: usize) -> (r: Option<(usize, ExtendedHeader)>)
    requires
        p <= s.len(),
    ensures
        opt_view(r) == spec_extended_header_mode(s@, p as int),
{
    match parse_pair(s, p, "old mode ", "new mode ") {
        Some((q, (a, b))) => Some((q, ExtendedHeader::ChMode((a, b)))),
        None => None,
    }
}

/// `deleted file mode <m>`.
pub fn parse_extended_header_deleted(s: &Vec<char>, p: usize) -> (r: Option<(usize, ExtendedHeader)>)
    requires
        p <= s.len(),
    ensures
        opt_view(r) == spec_extended_header_deleted(s@, p as int),
{
    match parse_tagged(s, p, "deleted file mode ") {
        Some((q, _)) => Some((q, ExtendedHeader::Deleted)),
        None => None,
    }
}

/// `new file mode <m>`.
pub fn parse_extended_header_new_file(s: &Vec<char>, p: usize) -> (r: Option<(usize, ExtendedHeader)>)
    requires
        p <= s.len(),
    ensures
        opt_view(r) == spec_extended_header_new_file(s@, p as int),
{
    match parse_tagged(s, p, "new file mode ") {
        Some((q, _)) => Some((q, ExtendedHeader::NewFile)),
        None => None,
    }
}

/// `copy from <p>` followed by `copy to <p>`.
pub fn parse_extended_header_copy_file(s: &Vec<char>, p: usize) -> (r: Option<(usize, ExtendedHeader)>)
    requires
        p <= s.len(),
    ensures
        opt_view(r) == spec_extended_header_copy_file(s@, p as int),
{
    match parse_pair(s, p, "copy from ", "copy to ") {
        Some((q, (a, b))) => Some((q, ExtendedHeader::CopyFile((a, b)))),
        None => None,
    }
}

/// `rename from <p>` followed by `rename to <p>`.
pub fn parse_extended_header_rename_file(s: &Vec<char>, p: usize) -> (r: Option<(usize, ExtendedHeader)>)
    requires
        p <= s.len(),
    ensures
        opt_view(r) == spec_extended_header_rename_file(s@, p as int),
{
    match parse_pair(s, p, "rename from ", "rename to ") {
        Some((q, (a, b))) => Some((q, ExtendedHeader::RenameFile((a, b)))),
        None => None,
    }
}

/// `similarity index <n>%`.
pub fn parse_extended_header_similarity_index(s: &Vec<char>, p: usize) -> (r: Option<(usize, ExtendedHeader)>)
    requires
        p <= s.len(),
    ensures
        opt_view(r) == spec_extended_header_similarity_index(s@, p as int),
{
    match parse_tagged(s, p, "similarity index ") {
        Some((q, a)) => Some((q, ExtendedHeader::SimilarityIndex(a))),
        None => None,
    }
}

/// `dissimilarity index <n>%`.
pub fn parse_extended_header_dissimilarity_index(s: &Vec<char>, p: usize) -> (r: Option<(usize, ExtendedHeader)>)
    requires
        p <= s.len(),
    ensures
        opt_view(r) == spec_extended_header_dissimilarity_index(s@, p as int),
{
    match parse_tagged(s, p, "dissimilarity index ") {
        Some((q, a)) => Some((q, ExtendedHeader::DissimilarityIndex(a))),
        None => None,
    }
}

/// `index <old>..<new>[ <mode>]`, keeping the new hash.
pub fn parse_extended_header_index(s: &Vec<char>, p: usize) -> (r: Option<(usize, ExtendedHeader)>)
    requires
        p <= s.len(),
    ensures
        opt_view(r) == spec_extended_header_index(s@, p as int),
{
    let tag = "index ";
    if !has_prefix_at(s, p, tag) {
        return None;
    }
    let a = p + tag.unicode_len();
    let e = find_line_end(s, a);
    let dots = "..";
    match find_pattern(s, dots, a, e) {
        None => None,
        Some(j) => {
            proof {
                lemma_line_end_bounds(s@, a as int);
                lemma_find_from_bounds(s@, dots@, a as int, e as int);
            }
            let h = j + dots.unicode_len();
            let w = find_word_end(s, h);
            let hash = substring(s, h, w);
            Some((find_next_line(s, w), ExtendedHeader::Index(hash)))
        },
    }
}

/// The first extended-header form that matches at `p`.
pub fn parse_extended_header(s: &Vec<char>, p: usize) -> (r: Option<(usize, ExtendedHeader)>)
    requires
        p <= s.len(),
    ensures
        opt_view(r) == spec_extended_header(s@, p as int),
{
    let r = parse_extended_header_mode(s, p);
    if r.is_some() {
        return r;
    }
    let r = parse_extended_header_deleted(s, p);
    if r.is_some() {
        return r;
    }
    let r = parse_extended_header_new_file(s, p);
    if r.is_some() {
        return r;
    }
    let r = parse_extended_header_copy_file(s, p);
    if r.is_some() {
        return r;
    }
    let r = parse_extended_header_rename_file(s, p);
    if r.is_some() {
        return r;
    }
    let r = parse_extended_header_similarity_index(s, p);
    if r.is_some() {
        return r;
    }
    let r = parse_extended_header_dissimilarity_index(s, p);
    if r.is_some() {
        return r;
    }
    parse_extended_header_index(s, p)
}

/// Zero or more extended headers.
pub fn parse_extended_headers(s: &Vec<char>, p: usize) -> (r: (usize, Vec<ExtendedHeader>))
    requires
        p <= s.len(),
    ensures
        (r.0 as int, headers_view(r.1@)) == spec_extended_headers(s@, p as int),
        p <= r.0 <= s.len(),
{
    let mut k = p;
    let mut out: Vec<ExtendedHeader> = Vec::new();
    loop
        invariant
            p <= k <= s.len(),
            spec_extended_headers(s@, p as int) == (
                spec_extended_headers(s@, k as int).0,
                headers_view(out@) + spec_extended_headers(s@, k as int).1,
            ),
        ensures
            p <= k <= s.len(),
            spec_extended_headers(s@, p as int) == (k as int, headers_view(out@)),
        decreases s.len() - k,
    {
        match parse_extended_header(s, k) {
            Some((q, h)) => {
                if k < q && q <= s.len() {
                    let ghost old_out = out@;
                    proof {
                        let (r2, hs) = spec_extended_headers(s@, q as int);
                        assert(headers_view(old_out.push(h)) =~= headers_view(old_out) + seq![h@]);
                        assert(headers_view(old_out) + (seq![h@] + hs) =~= headers_view(old_out)
                            + seq![h@] + hs);
                    }
                    out.push(h);
                    k = q;
                } else {
                    assert(headers_view(out@) + Seq::empty() =~= headers_view(out@));
                    break;
                }
            },
            None => {
                assert(headers_view(out@) + Seq::empty() =~= headers_view(out@));
                break;
            },
        }
    }
    (k, out)
}

/// The `--- <old>` / `+++ <new>` pair; the position after it.
pub fn parse_file_names_after_extended_header(s: &Vec<char>, p: usize) -> (r: Option<usize>)
    requires
        p <= s.len(),
    ensures
        match r {
            Some(q) => spec_file_names(s@, p as int) == Some(q as int),
            None => spec_file_names(s@, p as int) is None,
        },
{
    match parse_pair(s, p, "--- ", "+++ ") {
        Some((q, _)) => Some(q),
        None => None,
    }
}

fn skip_file_names_at(s: &Vec<char>, p: usize) -> (r: usize)
    requires
        p <= s.len(),
    ensures
        r == skip_file_names(s@, p as int),
        p <= r <= s.len(),
{
    match parse_file_names_after_extended_header(s, p) {
        Some(q) => {
            proof {
                lemma_pair_bounds(s@, p as int, "--- "@, "+++ "@);
            }
            q
        },
        None => p,
    }
}

proof fn lemma_pair_bounds(s: Seq<char>, p: int, first: Seq<char>, second: Seq<char>)
    requires
        0 <= p <= s.len(),
    ensures
        spec_pair(s, p, first, second) matches Some((q, _)) ==> p <= q <= s.len(),
{
    if has_prefix(s, p, first) {
        let a = p + first.len();
        crate::text::lemma_next_line_bounds(s, a);
        let q = next_line(s, a);
        if has_prefix(s, q, second) {
            crate::text::lemma_next_line_bounds(s, q + second.len());
        }
    }
}

/// The `diff --git` line, the extended headers and the optional file-name pair.
pub fn parse_raw_file_header(s: &Vec<char>, p: usize) -> (r: Option<(usize, RawFileHeader)>)
    requires
        p <= s.len(),
    ensures
        opt_view(r) == spec_raw_file_header(s@, p as int),
{
    match parse_filename(s, p) {
        None => None,
        Some((q, filenames)) => {
            proof {
                lemma_filename_bounds(s@, p as int);
            }
            let (k, extended_headers) = parse_extended_headers(s, q);
            let r = skip_file_names_at(s, k);
            Some((r, RawFileHeader { filenames, extended_headers }))
        },
    }
}

proof fn lemma_filename_bounds(s: Seq<char>, p: int)
    requires
        0 <= p <= s.len(),
    ensures
        spec_filename(s, p) matches Some((q, _)) ==> p <= q <= s.len(),
{
    if has_prefix(s, p, "diff --git a/"@) {
        let a = p + "diff --git a/"@.len();
        lemma_line_end_bounds(s, a);
        let e = line_end(s, a);
        lemma_find_from_bounds(s, " b/"@, a, e);
        if let Some(j) = find_from(s, " b/"@, a, e) {
            crate::text::lemma_next_line_bounds(s, j + " b/"@.len());
            assert(j + " b/"@.len() <= s.len());
        }
    }
}

fn is_digit_char(c: char) -> (r: bool)
    ensures
        r == is_digit(c),
{
    '0' <= c && c <= '9'
}

/// `sep` followed by a decimal number that fits in 32 bits.
fn parse_field(s: &Vec<char>, i: usize, sep: &str) -> (r: Result<(usize, u32), ErrorKind>)
    requires
        i <= s.len(),
    ensures
        match r {
            Ok((e, v)) => spec_field(s@, i as int, sep@) == Ok::<(int, u32), ErrorKind>((e as int, v)),
            Err(k) => spec_field(s@, i as int, sep@) == Err::<(int, u32), ErrorKind>(k),
        },
        r matches Ok((e, _)) ==> i <= e <= s.len(),
{
    if !has_prefix_at(s, i, sep) {
        return Err(ErrorKind::MalformedHunkHeader);
    }
    let a = i + sep.unicode_len();
    let mut k = a;
    let mut v: u64 = 0;
    let mut over = false;
    while k < s.len() && is_digit_char(s[k])
        invariant
            a <= k <= s.len(),
            digits_end(s@, a as int) == digits_end(s@, k as int),
            over ==> digits_value(s@.subrange(a as int, k as int)) > u32::MAX,
            !over ==> v == digits_value(s@.subrange(a as int, k as int)) && v <= u32::MAX,
        decreases s.len() - k,
    {
        let d = (s[k] as u32 - '0' as u32) as u64;
        proof {
            let sub = s@.subrange(a as int, k + 1);
            assert(sub.drop_last() =~= s@.subrange(a as int, k as int));
            assert(sub.last() == s@[k as int]);
            assert(digits_value(sub) == digits_value(s@.subrange(a as int, k as int)) * 10 + d);
        }
        if !over {
            let nv = v * 10 + d;
            if nv > u32::MAX as u64 {
                over = true;
            } else {
                v = nv;
            }
        }
        k += 1;
    }
    if k == a {
        Err(ErrorKind::MalformedHunkHeader)
    } else if over {
        Err(ErrorKind::NumberOverflow)
    } else {
        Ok((k, v as u32))
    }
}

/// `@@ -<a>,<b> +<c>,<d> @@<ignored>`: the four numbers.
pub fn parse_hunk_header(s: &Vec<char>, p: usize) -> (r: Result<(usize, (u32, u32, u32, u32)), ErrorKind>)
    requires
        p <= s.len(),
    ensures
        match r {
            Ok((q, info)) => spec_hunk_header(s@, p as int) == Ok::<(int, (u32, u32, u32, u32)), ErrorKind>((q as int, info)),
            Err(k) => spec_hunk_header(s@, p as int) == Err::<(int, (u32, u32, u32, u32)), ErrorKind>(k),
        },
        r matches Ok((q, _)) ==> p < q <= s.len(),
{
    let (i1, a) = match parse_field(s, p, "@@ -") {
        Ok(x) => x,
        Err(k) => return Err(k),
    };
    let (i2, b) = match parse_field(s, i1, ",") {
        Ok(x) => x,
        Err(k) => return Err(k),
    };
    let (i3, c) = match parse_field(s, i2, " +") {
        Ok(x) => x,
        Err(k) => return Err(k),
    };
    let (i4, d) = match parse_field(s, i3, ",") {
        Ok(x) => x,
        Err(k) => return Err(k),
    };
    let close = " @@";
    if !has_prefix_at(s, i4, close) {
        return Err(ErrorKind::MalformedHunkHeader);
    }
    proof {
        reveal_strlit(" @@");
        crate::text::lemma_next_line_bounds(s@, i4 + close@.len());
    }
    Ok((find_next_line(s, i4 + close.unicode_len()), (a, b, c, d)))
}

/// The hunk header, after an optional file-name pair; `Ok(None)` when no line
/// starting with `@@` stands there.
pub fn parse_lines_info(s: &Vec<char>, p: usize) -> (r: Result<Option<(usize, (u32, u32, u32, u32))>, ParseError>)
    requires
        p <= s.len(),
    ensures
        res_opt_view(r) == spec_lines_info(s@, p as int),
        r matches Ok(Some((q, _))) ==> p < q <= s.len(),
{
    let h = skip_file_names_at(s, p);
    if !has_prefix_at(s, h, "@@") {
        return Ok(None);
    }
    match parse_hunk_header(s, h) {
        Err(k) => Err(ParseError { kind: k, position: h }),
        Ok(x) => Ok(Some(x)),
    }
}

/// A context line: a space, then the text.
pub fn parse_line_both(s: &Vec<char>, p: usize) -> (r: Option<(usize, RawLine)>)
    requires
        p <= s.len(),
    ensures
        r is Some <==> p < s.len() && s@[p as int] == ' ',
        r is Some ==> opt_view(r) == spec_line(s@, p as int),
{
    if p < s.len() && s[p] == ' ' {
        let (q, t) = rest_and_next(s, p + 1);
        Some((q, RawLine::Both(t)))
    } else {
        None
    }
}

/// A removed line: `-`, then the text.
pub fn parse_line_left(s: &Vec<char>, p: usize) -> (r: Option<(usize, RawLine)>)
    requires
        p <= s.len(),
    ensures
        r is Some <==> p < s.len() && s@[p as int] == '-',
        r is Some ==> opt_view(r) == spec_line(s@, p as int),
{
    if p < s.len() && s[p] == '-' {
        let (q, t) = rest_and_next(s, p + 1);
        Some((q, RawLine::Left(t)))
    } else {
        None
    }
}

/// An added line: `+`, then the text.
pub fn parse_line_right(s: &Vec<char>, p: usize) -> (r: Option<(usize, RawLine)>)
    requires
        p <= s.len(),
    ensures
        r is Some <==> p < s.len() && s@[p as int] == '+',
        r is Some ==> opt_view(r) == spec_line(s@, p as int),
{
    if p < s.len() && s[p] == '+' {
        let (q, t) = rest_and_next(s, p + 1);
        Some((q, RawLine::Right(t)))
    } else {
        None
    }
}

/// One body line of any of the three kinds.
pub fn parse_line(s: &Vec<char>, p: usize) -> (r: Option<(usize, RawLine)>)
    requires
        p <= s.len(),
    ensures
        opt_view(r) == spec_line(s@, p as int),
{
    let r = parse_line_both(s, p);
    if r.is_some() {
        return r;
    }
    let r = parse_line_left(s, p);
    if r.is_some() {
        return r;
    }
    parse_line_right(s, p)
}

/// Zero or more body lines.
pub fn parse_lines(s: &Vec<char>, p: usize) -> (r: (usize, Vec<RawLine>))
    requires
        p <= s.len(),
    ensures
        (r.0 as int, lines_view(r.1@)) == spec_lines(s@, p as int),
        p <= r.0 <= s.len(),
        r.1.len() <= r.0 - p,
{
    let mut k = p;
    let mut out: Vec<RawLine> = Vec::new();
    loop
        invariant
            p <= k <= s.len(),
            out.len() <= k - p,
            spec_lines(s@, p as int) == (
                spec_lines(s@, k as int).0,
                lines_view(out@) + spec_lines(s@, k as int).1,
            ),
        ensures
            p <= k <= s.len(),
            out.len() <= k - p,
            spec_lines(s@, p as int) == (k as int, lines_view(out@)),
        decreases s.len() - k,
    {
        match parse_line(s, k) {
            Some((q, l)) => {
                if k < q && q <= s.len() {
                    let ghost old_out = out@;
                    proof {
                        let (r2, ls) = spec_lines(s@, q as int);
                        assert(lines_view(old_out.push(l)) =~= lines_view(old_out) + seq![l@]);
                        assert(lines_view(old_out) + (seq![l@] + ls) =~= lines_view(old_out)
                            + seq![l@] + ls);
                    }
                    out.push(l);
                    k = q;
                } else {
                    assert(lines_view(out@) + Seq::empty() =~= lines_view(out@));
                    break;
                }
            },
            None => {
                assert(lines_view(out@) + Seq::empty() =~= lines_view(out@));
                break;
            },
        }
    }
    (k, out)
}

/// How many lines of `lines` belong to the pre-image and to the post-image.
pub fn count_lines(lines: &Vec<RawLine>) -> (r: (usize, usize))
    ensures
        r.0 == pre_count(lines_view(lines@)),
        r.1 == post_count(lines_view(lines@)),
{
    let ghost ls = lines_view(lines@);
    let mut pre: usize = 0;
    let mut post: usize = 0;
    let mut i: usize = 0;
    while i < lines.len()
        invariant
            ls == lines_view(lines@),
            i <= lines.len(),
            pre <= i,
            post <= i,
            pre == pre_count(ls.take(i as int)),
            post == post_count(ls.take(i as int)),
        decreases lines.len() - i,
    {
        proof {
            assert(ls.take(i + 1).drop_last() =~= ls.take(i as int));
            assert(ls.take(i + 1).last() == lines@[i as int]@);
        }
        match &lines[i] {
            RawLine::Left(_) => {
                pre += 1;
            },
            RawLine::Right(_) => {
                post += 1;
            },
            RawLine::Both(_) => {
                pre += 1;
                post += 1;
            },
        }
        i += 1;
    }
    assert(ls.take(i as int) =~= ls);
    (pre, post)
}

/// A hunk: header, then body; the body must hold as many lines of each
/// image as the header declares.
pub fn parse_raw_file_hunk(s: &Vec<char>, p: usize) -> (r: Result<Option<(usize, RawFileHunk)>, ParseError>)
    requires
        p <= s.len(),
    ensures
        res_opt_view(r) == spec_raw_file_hunk(s@, p as int),
        r matches Ok(Some((q, _))) ==> p < q <= s.len(),
{
    let (q, line_info) = match parse_lines_info(s, p) {
        Err(e) => return Err(e),
        Ok(None) => return Ok(None),
        Ok(Some(x)) => x,
    };
    let (r, lines) = parse_lines(s, q);
    let (pre, post) = count_lines(&lines);
    if pre != line_info.1 as usize || post != line_info.3 as usize {
        let position = skip_file_names_at(s, p);
        return Err(ParseError { kind: ErrorKind::LineCountMismatch, position });
    }
    Ok(Some((r, RawFileHunk { line_info, lines })))
}

/// Zero or more hunks.
pub fn parse_raw_file_hunks(s: &Vec<char>, p: usize) -> (r: Result<(usize, Vec<RawFileHunk>), ParseError>)
    requires
        p <= s.len(),
    ensures
        match r {
            Ok((q, hs)) => spec_raw_file_hunks(s@, p as int) == Ok::<(int, Seq<RawFileHunkModel>), ParseError>((q as int, hunks_view(hs@))),
            Err(e) => spec_raw_file_hunks(s@, p as int) == Err::<(int, Seq<RawFileHunkModel>), ParseError>(e),
        },
        r matches Ok((q, _)) ==> p <= q <= s.len(),
{
    let mut k = p;
    let mut out: Vec<RawFileHunk> = Vec::new();
    loop
        invariant
            p <= k <= s.len(),
            match spec_raw_file_hunks(s@, k as int) {
                Ok((q, hs)) => spec_raw_file_hunks(s@, p as int) == Ok::<(int, Seq<RawFileHunkModel>), ParseError>((q, hunks_view(out@) + hs)),
                Err(e) => spec_raw_file_hunks(s@, p as int) == Err::<(int, Seq<RawFileHunkModel>), ParseError>(e),
            },
        decreases s.len() - k,
    {
        match parse_raw_file_hunk(s, k) {
            Err(e) => {
                return Err(e);
            },
            Ok(None) => {
                assert(hunks_view(out@) + Seq::empty() =~= hunks_view(out@));
                return Ok((k, out));
            },
            Ok(Some((q, h))) => {
                let ghost old_out = out@;
                proof {
                    assert(hunks_view(old_out.push(h)) =~= hunks_view(old_out) + seq![h@]);
                    if let Ok((r2, hs)) = spec_raw_file_hunks(s@, q as int) {
                        assert(hunks_view(old_out) + (seq![h@] + hs) =~= hunks_view(old_out)
                            + seq![h@] + hs);
                    }
                }
                out.push(h);
                k = q;
            },
        }
    }
}

/// One file block: header and hunks. `Ok(None)` when no `diff --git` line stands at `p`.
pub fn parse_raw_file(s: &Vec<char>, p: usize) -> (r: Result<Option<(usize, RawFile)>, ParseError>)
    requires
        p <= s.len(),
    ensures
        res_opt_view(r) == spec_raw_file(s@, p as int),
        r matches Ok(Some((q, _))) ==> p <= q <= s.len(),
{
    let (q, header) = match parse_raw_file_header(s, p) {
        None => return Ok(None),
        Some(x) => x,
    };
    proof {
        lemma_raw_file_header_bounds(s@, p as int);
    }
    match parse_raw_file_hunks(s, q) {
        Err(e) => Err(e),
        Ok((r, hunks)) => Ok(Some((r, RawFile { header, hunks }))),
    }
}

proof fn lemma_raw_file_header_bounds(s: Seq<char>, p: int)
    requires
        0 <= p <= s.len(),
    ensures
        spec_raw_file_header(s, p) matches Some((q, _)) ==> p <= q <= s.len(),
{
    lemma_filename_bounds(s, p);
    if let Some((q, _)) = spec_filename(s, p) {
        lemma_extended_headers_bounds(s, q);
        let r = spec_extended_headers(s, q).0;
        lemma_pair_bounds(s, r, "--- "@, "+++ "@);
    }
}

proof fn lemma_extended_headers_bounds(s: Seq<char>, p: int)
    requires
        0 <= p <= s.len(),
    ensures
        p <= spec_extended_headers(s, p).0 <= s.len(),
    decreases s.len() - p,
{
    if let Some((q, h)) = spec_extended_header(s, p) {
        if p < q <= s.len() {
            lemma_extended_headers_bounds(s, q);
        }
    }
}

/// Zero or more file blocks.
pub fn parse_raw_files_intern(s: &Vec<char>, p: usize) -> (r: Result<(usize, Vec<RawFile>), ParseError>)
    requires
        p <= s.len(),
    ensures
        match r {
            Ok((q, fs)) => spec_raw_files_intern(s@, p as int) == Ok::<(int, Seq<RawFileModel>), ParseError>((q as int, files_view(fs@))),
            Err(e) => spec_raw_files_intern(s@, p as int) == Err::<(int, Seq<RawFileModel>), ParseError>(e),
        },
        r matches Ok((q, _)) ==> p <= q <= s.len(),
{
    let mut k = p;
    let mut out: Vec<RawFile> = Vec::new();
    loop
        invariant
            p <= k <= s.len(),
            match spec_raw_files_intern(s@, k as int) {
                Ok((q, fs)) => spec_raw_files_intern(s@, p as int) == Ok::<(int, Seq<RawFileModel>), ParseError>((q, files_view(out@) + fs)),
                Err(e) => spec_raw_files_intern(s@, p as int) == Err::<(int, Seq<RawFileModel>), ParseError>(e),
            },
        decreases s.len() - k,
    {
        match parse_raw_file(s, k) {
            Err(e) => {
                return Err(e);
            },
            Ok(None) => {
                assert(files_view(out@) + Seq::empty() =~= files_view(out@));
                return Ok((k, out));
            },
            Ok(Some((q, f))) => {
                // A block that consumed nothing ends the repetition.
                if q <= k {
                    assert(files_view(out@) + Seq::empty() =~= files_view(out@));
                    return Ok((k, out));
                }
                let ghost old_out = out@;
                proof {
                    assert(files_view(old_out.push(f)) =~= files_view(old_out) + seq![f@]);
                    if let Ok((r2, fs)) = spec_raw_files_intern(s@, q as int) {
                        assert(files_view(old_out) + (seq![f@] + fs) =~= files_view(old_out)
                            + seq![f@] + fs);
                    }
                }
                out.push(f);
                k = q;
            },
        }
    }
}

/// Parses a whole diff document into its file blocks. Fails unless the
/// blocks account for all of the input but trailing whitespace.
pub fn parse_raw_files(input: &str) -> (r: Result<Vec<RawFile>, ParseError>)
    ensures
        match r {
            Ok(fs) => spec_raw_files(input@) == Ok::<Seq<RawFileModel>, ParseError>(files_view(fs@)),
            Err(e) => spec_raw_files(input@) == Err::<Seq<RawFileModel>, ParseError>(e),
        },
{
    let s = to_chars(input);
    match parse_raw_files_intern(&s, 0) {
        Err(e) => Err(e),
        Ok((q, files)) => {
            if is_all_whitespace(&s, q) {
                Ok(files)
            } else {
                Err(ParseError { kind: ErrorKind::UnexpectedInput, position: q })
            }
        },
    }
}

} // verus!
