//! Parsing of `git diff` output into the numbered file model: the grammar
//! lives in `raw_parser`; here each raw hunk gets its line numbers and each
//! file its change kind and revision.
pub mod raw_parser;

use crate::file::{
    File, FileModel, Hunk, LINE, LineModel, MODIFIER, line_models, post_numbers, pre_numbers,
};
use crate::parser::raw_parser::{
    ExtendedHeader, ExtendedHeaderModel, ParseError, RawFile, RawFileHunk, RawFileHunkModel,
    RawFileModel, RawLine, RawLineModel, files_view, headers_view, hunk_counts_match, hunks_view,
    lines_view, parse_raw_files, post_count, pre_count, spec_raw_file, spec_raw_file_header,
    spec_raw_file_hunk, spec_raw_file_hunks, spec_raw_files, spec_raw_files_intern,
};
use vstd::prelude::*;

verus! {

/// The `i`-th line of a hunk body, numbered: the pre-image number is the
/// hunk's pre-image start plus the pre-image lines before it, and likewise
/// for the post-image.
pub open spec fn numbered_line(sl: int, sr: int, ls: Seq<RawLineModel>, i: int) -> LineModel {
    let left = sl + pre_count(ls.take(i));
    let right = sr + post_count(ls.take(i));
    match ls[i] {
        RawLineModel::Left(t) => LineModel::Rem { number: left, text: t },
        RawLineModel::Right(t) => LineModel::Add { number: right, text: t },
        RawLineModel::Both(t) => LineModel::Nop { number_left: left, number_right: right, text: t },
    }
}

pub open spec fn numbered_lines(sl: int, sr: int, ls: Seq<RawLineModel>) -> Seq<LineModel> {
    Seq::new(ls.len(), |i: int| numbered_line(sl, sr, ls, i))
}

pub open spec fn numbered_hunk(h: RawFileHunkModel) -> Seq<LineModel> {
    numbered_lines(h.line_info.0 as int, h.line_info.2 as int, h.lines)
}

/// The change kind: that of the last header that names one (new file,
/// deleted file, rename), or `MODIFIED` when none does.
pub open spec fn modifier_of(hs: Seq<ExtendedHeaderModel>) -> MODIFIER
    decreases hs.len(),
{
    if hs.len() == 0 {
        MODIFIER::MODIFIED
    } else {
        match hs.last() {
            ExtendedHeaderModel::NewFile => MODIFIER::ADD,
            ExtendedHeaderModel::Deleted => MODIFIER::DELETE,
            ExtendedHeaderModel::RenameFile(_, _) => MODIFIER::RENAMED,
            _ => modifier_of(hs.drop_last()),
        }
    }
}

/// The new hash of the last `index` header, or empty when there is none.
pub open spec fn commit_id_of(hs: Seq<ExtendedHeaderModel>) -> Seq<char>
    decreases hs.len(),
{
    if hs.len() == 0 {
        Seq::empty()
    } else {
        match hs.last() {
            ExtendedHeaderModel::Index(h) => h,
            _ => commit_id_of(hs.drop_last()),
        }
    }
}

pub open spec fn numbered_file(f: RawFileModel) -> FileModel {
    FileModel {
        modifier: modifier_of(f.header.extended_headers),
        filename: f.header.filenames.0,
        commit_id: commit_id_of(f.header.extended_headers),
        hunks: Seq::new(f.hunks.len(), |i: int| numbered_hunk(f.hunks[i])),
    }
}

/// Every hunk of the file agrees with the counts of its header.
pub open spec fn file_counts_match(f: RawFileModel) -> bool {
    forall|i: int| 0 <= i < f.hunks.len() ==> hunk_counts_match(#[trigger] f.hunks[i])
}

/// The numbered model of a document, or the error that its parse meets.
pub open spec fn spec_parse_content(s: Seq<char>) -> Result<Seq<FileModel>, ParseError> {
    match spec_raw_files(s) {
        Ok(fs) => Ok(fs.map_values(|f: RawFileModel| numbered_file(f))),
        Err(e) => Err(e),
    }
}

pub proof fn lemma_pre_count_prefix(ls: Seq<RawLineModel>, i: int)
    requires
        0 <= i <= ls.len(),
    ensures
        pre_count(ls.take(i)) <= pre_count(ls),
        post_count(ls.take(i)) <= post_count(ls),
    decreases ls.len(),
{
    if i < ls.len() {
        assert(ls.drop_last().take(i) =~= ls.take(i));
        lemma_pre_count_prefix(ls.drop_last(), i);
    } else {
        assert(ls.take(i) =~= ls);
    }
}

/// Numbers the lines of a hunk from the starts that its header gives.
pub fn number_lines(hunk: &RawFileHunk) -> (r: Hunk)
    requires
        hunk_counts_match(hunk@),
    ensures
        r@ == numbered_hunk(hunk@),
{
    let ghost ls = lines_view(hunk.lines@);
    let ghost sl = hunk.line_info.0 as int;
    let ghost sr = hunk.line_info.2 as int;
    let mut left: u64 = hunk.line_info.0 as u64;
    let mut right: u64 = hunk.line_info.2 as u64;
    let mut content: Vec<LINE> = Vec::new();
    let mut i: usize = 0;
    while i < hunk.lines.len()
        invariant
            ls == lines_view(hunk.lines@),
            sl == hunk.line_info.0,
            sr == hunk.line_info.2,
            hunk_counts_match(hunk@),
            i <= hunk.lines.len(),
            left == sl + pre_count(ls.take(i as int)),
            right == sr + post_count(ls.take(i as int)),
            content.len() == i,
            forall|k: int| 0 <= k < i ==> line_models(content@)[k] == numbered_line(sl, sr, ls, k),
        decreases hunk.lines.len() - i,
    {
        proof {
            assert(ls.take(i + 1).drop_last() =~= ls.take(i as int));
            assert(ls.take(i + 1).last() == hunk.lines@[i as int]@);
            lemma_pre_count_prefix(ls, i + 1);
        }
        let ghost old_content = content@;
        match &hunk.lines[i] {
            RawLine::Left(t) => {
                content.push(LINE::REM { number: left, line: t.clone() });
                left += 1;
            },
            RawLine::Right(t) => {
                content.push(LINE::ADD { number: right, line: t.clone() });
                right += 1;
            },
            RawLine::Both(t) => {
                content.push(LINE::NOP { number_left: left, number_right: right, line: t.clone() });
                left += 1;
                right += 1;
            },
        }
        proof {
            assert forall|k: int| 0 <= k < i + 1 implies line_models(content@)[k] == numbered_line(
                sl,
                sr,
                ls,
                k,
            ) by {
                if k < i {
                    assert(content@[k] == old_content[k]);
                }
            }
        }
        i += 1;
    }
    let r = Hunk::new(content);
    assert(r@ =~= numbered_hunk(hunk@));
    r
}

/// The change kind that the extended headers give.
pub fn resolve_modifier(headers: &Vec<ExtendedHeader>) -> (r: MODIFIER)
    ensures
        r == modifier_of(headers_view(headers@)),
{
    let ghost hs = headers_view(headers@);
    let mut m = MODIFIER::MODIFIED;
    let mut i: usize = 0;
    while i < headers.len()
        invariant
            hs == headers_view(headers@),
            i <= headers.len(),
            m == modifier_of(hs.take(i as int)),
        decreases headers.len() - i,
    {
        proof {
            assert(hs.take(i + 1).drop_last() =~= hs.take(i as int));
            assert(hs.take(i + 1).last() == headers@[i as int]@);
        }
        match &headers[i] {
            ExtendedHeader::NewFile => {
                m = MODIFIER::ADD;
            },
            ExtendedHeader::Deleted => {
                m = MODIFIER::DELETE;
            },
            ExtendedHeader::RenameFile(_) => {
                m = MODIFIER::RENAMED;
            },
            _ => {},
        }
        i += 1;
    }
    assert(hs.take(i as int) =~= hs);
    m
}

/// The post-image hash that the extended headers give, or empty.
pub fn resolve_commit_id(headers: &Vec<ExtendedHeader>) -> (r: String)
    ensures
        r@ == commit_id_of(headers_view(headers@)),
{
    let ghost hs = headers_view(headers@);
    let mut c = String::new();
    let mut i: usize = 0;
    while i < headers.len()
        invariant
            hs == headers_view(headers@),
            i <= headers.len(),
            c@ == commit_id_of(hs.take(i as int)),
        decreases headers.len() - i,
    {
        proof {
            assert(hs.take(i + 1).drop_last() =~= hs.take(i as int));
            assert(hs.take(i + 1).last() == headers@[i as int]@);
        }
        match &headers[i] {
            ExtendedHeader::Index(h) => {
                c = h.clone();
            },
            _ => {},
        }
        i += 1;
    }
    assert(hs.take(i as int) =~= hs);
    c
}

/// The numbered file of a raw file block.
pub fn build_file(raw: &RawFile) -> (r: File)
    requires
        file_counts_match(raw@),
    ensures
        r@ == numbered_file(raw@),
{
    let modifier = resolve_modifier(&raw.header.extended_headers);
    let commit_id = resolve_commit_id(&raw.header.extended_headers);
    let filename = raw.header.filenames.0.clone();
    let mut hunks: Vec<Hunk> = Vec::new();
    let mut i: usize = 0;
    while i < raw.hunks.len()
        invariant
            file_counts_match(raw@),
            i <= raw.hunks.len(),
            hunks.len() == i,
            forall|k: int| 0 <= k < i ==> (#[trigger] hunks@[k])@ == numbered_hunk(raw@.hunks[k]),
        decreases raw.hunks.len() - i,
    {
        assert(raw@.hunks[i as int] == raw.hunks@[i as int]@);
        let h = number_lines(&raw.hunks[i]);
        hunks.push(h);
        i += 1;
    }
    let r = File::new(modifier, filename, commit_id, hunks);
    assert(r@.hunks =~= numbered_file(raw@).hunks);
    r
}

proof fn lemma_hunks_counts_match(s: Seq<char>, p: int)
    ensures
        spec_raw_file_hunks(s, p) matches Ok((_, hs)) ==> forall|i: int|
            0 <= i < hs.len() ==> hunk_counts_match(#[trigger] hs[i]),
    decreases s.len() - p,
{
    if let Ok(Some((q, h))) = spec_raw_file_hunk(s, p) {
        if p < q <= s.len() {
            lemma_hunks_counts_match(s, q);
            if let Ok((_, hs)) = spec_raw_file_hunks(s, p) {
                let rest = spec_raw_file_hunks(s, q)->Ok_0.1;
                assert forall|i: int| 0 <= i < hs.len() implies hunk_counts_match(
                    #[trigger] hs[i],
                ) by {
                    if i > 0 {
                        assert(hs[i] == rest[i - 1]);
                    }
                }
            }
        }
    }
}

proof fn lemma_files_counts_match(s: Seq<char>, p: int)
    ensures
        spec_raw_files_intern(s, p) matches Ok((_, fs)) ==> forall|i: int|
            0 <= i < fs.len() ==> file_counts_match(#[trigger] fs[i]),
    decreases s.len() - p,
{
    if let Ok(Some((q, f))) = spec_raw_file(s, p) {
        if let Some((h, _)) = spec_raw_file_header(s, p) {
            lemma_hunks_counts_match(s, h);
        }
        if p < q <= s.len() {
            lemma_files_counts_match(s, q);
            if let Ok((_, fs)) = spec_raw_files_intern(s, p) {
                let rest = spec_raw_files_intern(s, q)->Ok_0.1;
                assert forall|i: int| 0 <= i < fs.len() implies file_counts_match(
                    #[trigger] fs[i],
                ) by {
                    if i > 0 {
                        assert(fs[i] == rest[i - 1]);
                    }
                }
            }
        }
    }
}

/// Every hunk of a parsed document agrees with the counts of its header.
pub proof fn lemma_parsed_counts_match(s: Seq<char>)
    ensures
        spec_raw_files(s) matches Ok(fs) ==> forall|i: int|
            0 <= i < fs.len() ==> file_counts_match(#[trigger] fs[i]),
{
    lemma_files_counts_match(s, 0);
}

/// Parses a diff document into its numbered files, in input order; fails
/// with the first error of the grammar, or when input is left over.
pub fn parse_content(input: &str) -> (r: Result<Vec<File>, ParseError>)
    ensures
        match r {
            Ok(fs) => spec_parse_content(input@) == Ok::<Seq<FileModel>, ParseError>(fs@.map_values(|f: File| f@)),
            Err(e) => spec_parse_content(input@) == Err::<Seq<FileModel>, ParseError>(e),
        },
{
    let raw_files = match parse_raw_files(input) {
        Ok(fs) => fs,
        Err(e) => return Err(e),
    };
    proof {
        lemma_parsed_counts_match(input@);
    }
    let ghost raws = files_view(raw_files@);
    let mut parsed_files: Vec<File> = Vec::new();
    let mut i: usize = 0;
    while i < raw_files.len()
        invariant
            raws == files_view(raw_files@),
            spec_raw_files(input@) == Ok::<Seq<RawFileModel>, ParseError>(raws),
            forall|k: int| 0 <= k < raws.len() ==> file_counts_match(#[trigger] raws[k]),
            i <= raw_files.len(),
            parsed_files.len() == i,
            forall|k: int| 0 <= k < i ==> (#[trigger] parsed_files@[k])@ == numbered_file(raws[k]),
        decreases raw_files.len() - i,
    {
        assert(raws[i as int] == raw_files@[i as int]@);
        let f = build_file(&raw_files[i]);
        parsed_files.push(f);
        i += 1;
    }
    assert(parsed_files@.map_values(|f: File| f@) =~= raws.map_values(
        |f: RawFileModel| numbered_file(f),
    ));
    Ok(parsed_files)
}

// ---------------------------------------------------------------------------
// Laws of the numbering and of the change kind.
// ---------------------------------------------------------------------------

/// A header that decides the change kind.
pub open spec fn names_kind(h: ExtendedHeaderModel) -> bool {
    h is NewFile || h is Deleted || h is RenameFile
}

pub open spec fn kind_named_by(h: ExtendedHeaderModel) -> MODIFIER {
    match h {
        ExtendedHeaderModel::NewFile => MODIFIER::ADD,
        ExtendedHeaderModel::Deleted => MODIFIER::DELETE,
        _ => MODIFIER::RENAMED,
    }
}

proof fn lemma_numbered_lines_drop_last(sl: int, sr: int, ls: Seq<RawLineModel>)
    requires
        ls.len() > 0,
    ensures
        numbered_lines(sl, sr, ls).drop_last() == numbered_lines(sl, sr, ls.drop_last()),
{
    let d = ls.drop_last();
    assert forall|i: int| 0 <= i < d.len() implies numbered_line(sl, sr, ls, i) == numbered_line(
        sl,
        sr,
        d,
        i,
    ) by {
        assert(ls.take(i) =~= d.take(i));
    }
    assert(numbered_lines(sl, sr, ls).drop_last() =~= numbered_lines(sl, sr, d));
}

/// Within a hunk numbered from starts `sl` and `sr`, the pre-image numbers
/// (one per removed or unchanged line, in order) are `sl, sl + 1, ...` and
/// the post-image numbers (one per added or unchanged line) are
/// `sr, sr + 1, ...`: each step is exactly one.
pub proof fn lemma_numbers_step_one(sl: int, sr: int, ls: Seq<RawLineModel>)
    ensures
        pre_numbers(numbered_lines(sl, sr, ls)) == Seq::new(pre_count(ls), |k: int| sl + k),
        post_numbers(numbered_lines(sl, sr, ls)) == Seq::new(post_count(ls), |k: int| sr + k),
    decreases ls.len(),
{
    let n = numbered_lines(sl, sr, ls);
    if ls.len() == 0 {
        assert(pre_numbers(n) =~= Seq::new(pre_count(ls), |k: int| sl + k));
        assert(post_numbers(n) =~= Seq::new(post_count(ls), |k: int| sr + k));
    } else {
        let d = ls.drop_last();
        lemma_numbers_step_one(sl, sr, d);
        lemma_numbered_lines_drop_last(sl, sr, ls);
        assert(ls.take(ls.len() - 1) =~= d);
        assert(n.last() == numbered_line(sl, sr, ls, ls.len() - 1));
        assert(pre_numbers(n) =~= Seq::new(pre_count(ls), |k: int| sl + k));
        assert(post_numbers(n) =~= Seq::new(post_count(ls), |k: int| sr + k));
    }
}

/// In every hunk of a parsed document, the removed and unchanged lines are
/// exactly as many as the header's pre-image count, and the added and
/// unchanged lines exactly as many as its post-image count.
pub proof fn lemma_emitted_counts_match_header(s: Seq<char>)
    ensures
        spec_raw_files(s) matches Ok(fs) ==> forall|i: int, j: int|
            0 <= i < fs.len() && 0 <= j < fs[i].hunks.len() ==> {
                let h = #[trigger] fs[i].hunks[j];
                &&& pre_numbers(numbered_hunk(h)).len() == h.line_info.1
                &&& post_numbers(numbered_hunk(h)).len() == h.line_info.3
            },
{
    lemma_parsed_counts_match(s);
    if let Ok(fs) = spec_raw_files(s) {
        assert forall|i: int, j: int| 0 <= i < fs.len() && 0 <= j < fs[i].hunks.len() implies {
            let h = #[trigger] fs[i].hunks[j];
            &&& pre_numbers(numbered_hunk(h)).len() == h.line_info.1
            &&& post_numbers(numbered_hunk(h)).len() == h.line_info.3
        } by {
            let h = fs[i].hunks[j];
            assert(file_counts_match(fs[i]));
            assert(hunk_counts_match(h));
            lemma_numbers_step_one(h.line_info.0 as int, h.line_info.2 as int, h.lines);
        }
    }
}

/// Within every hunk, consecutive pre-image numbers differ by one, the first
/// being the header's pre-image start; likewise for the post-image.
pub proof fn lemma_hunk_numbers_consecutive(h: RawFileHunkModel)
    ensures
        ({
            let pre = pre_numbers(numbered_hunk(h));
            &&& pre.len() > 0 ==> pre[0] == h.line_info.0
            &&& forall|k: int| 0 <= k < pre.len() - 1 ==> #[trigger] pre[k + 1] == pre[k] + 1
        }),
        ({
            let post = post_numbers(numbered_hunk(h));
            &&& post.len() > 0 ==> post[0] == h.line_info.2
            &&& forall|k: int| 0 <= k < post.len() - 1 ==> #[trigger] post[k + 1] == post[k] + 1
        }),
{
    lemma_numbers_step_one(h.line_info.0 as int, h.line_info.2 as int, h.lines);
}

proof fn lemma_no_pre_lines(ls: Seq<RawLineModel>)
    requires
        pre_count(ls) == 0,
    ensures
        forall|i: int| 0 <= i < ls.len() ==> #[trigger] ls[i] is Right,
    decreases ls.len(),
{
    if ls.len() > 0 {
        lemma_no_pre_lines(ls.drop_last());
        assert forall|i: int| 0 <= i < ls.len() implies #[trigger] ls[i] is Right by {
            if i < ls.len() - 1 {
                assert(ls[i] == ls.drop_last()[i]);
            }
        }
    }
}

proof fn lemma_no_post_lines(ls: Seq<RawLineModel>)
    requires
        post_count(ls) == 0,
    ensures
        forall|i: int| 0 <= i < ls.len() ==> #[trigger] ls[i] is Left,
    decreases ls.len(),
{
    if ls.len() > 0 {
        lemma_no_post_lines(ls.drop_last());
        assert forall|i: int| 0 <= i < ls.len() implies #[trigger] ls[i] is Left by {
            if i < ls.len() - 1 {
                assert(ls[i] == ls.drop_last()[i]);
            }
        }
    }
}

/// A hunk whose header declares no pre-image lines holds only added lines
/// (the pre-image counter is never advanced); one that declares no
/// post-image lines holds only removed lines.
pub proof fn lemma_zero_count_side(h: RawFileHunkModel)
    requires
        hunk_counts_match(h),
    ensures
        h.line_info.1 == 0 ==> forall|k: int|
            0 <= k < numbered_hunk(h).len() ==> #[trigger] numbered_hunk(h)[k] is Add,
        h.line_info.3 == 0 ==> forall|k: int|
            0 <= k < numbered_hunk(h).len() ==> #[trigger] numbered_hunk(h)[k] is Rem,
{
    if h.line_info.1 == 0 {
        lemma_no_pre_lines(h.lines);
    }
    if h.line_info.3 == 0 {
        lemma_no_post_lines(h.lines);
    }
}

proof fn lemma_modifier_skips_tail(hs: Seq<ExtendedHeaderModel>, tail: Seq<ExtendedHeaderModel>)
    requires
        forall|i: int| 0 <= i < tail.len() ==> !names_kind(#[trigger] tail[i]),
    ensures
        modifier_of(hs + tail) == modifier_of(hs),
    decreases tail.len(),
{
    if tail.len() > 0 {
        let t = tail.drop_last();
        assert((hs + tail).drop_last() =~= hs + t);
        assert((hs + tail).last() == tail.last());
        assert(!names_kind(tail[tail.len() - 1]));
        lemma_modifier_skips_tail(hs, t);
    } else {
        assert(hs + tail =~= hs);
    }
}

/// The change kind of a file: with no new-file, deleted-file or rename
/// header it is `MODIFIED`; otherwise it is the kind of the last such header,
/// whatever other headers stand around it. So a block whose only such header
/// is `new file mode` is `ADD`, `deleted file mode` is `DELETE`, and
/// `rename from/to` is `RENAMED`.
pub proof fn lemma_change_kind(
    before: Seq<ExtendedHeaderModel>,
    h: ExtendedHeaderModel,
    after: Seq<ExtendedHeaderModel>,
)
    requires
        forall|i: int| 0 <= i < after.len() ==> !names_kind(#[trigger] after[i]),
    ensures
        modifier_of(after) == MODIFIER::MODIFIED,
        names_kind(h) ==> modifier_of(before + seq![h] + after) == kind_named_by(h),
{
    lemma_modifier_skips_tail(Seq::empty(), after);
    assert(Seq::<ExtendedHeaderModel>::empty() + after =~= after);
    lemma_modifier_skips_tail(before + seq![h], after);
    assert((before + seq![h]).last() == h);
}

} // verus!
