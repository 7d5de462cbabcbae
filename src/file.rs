//! The numbered model of a diff: files, their change kind, and hunks whose
//! lines carry their pre- and post-image line numbers.
use vstd::prelude::*;

verus! {

/// How a file changed.
#[derive(Debug, Clone, Copy, PartialEq, Eq, Structural)]
pub enum MODIFIER {
    ADD,
    MODIFIED,
    RENAMED,
    DELETE,
}

/// A numbered line of a hunk: added (post-image number), removed (pre-image
/// number) or unchanged (both numbers).
#[derive(Debug, PartialEq, Eq)]
pub enum LINE {
    ADD { number: u64, line: String },
    REM { number: u64, line: String },
    NOP { number_left: u64, number_right: u64, line: String },
}

pub enum LineModel {
    Add { number: int, text: Seq<char> },
    Rem { number: int, text: Seq<char> },
    Nop { number_left: int, number_right: int, text: Seq<char> },
}

impl View for LINE {
    type V = LineModel;

    open spec fn view(&self) -> LineModel {
        match self {
            LINE::ADD { number, line } => LineModel::Add { number: *number as int, text: line@ },
            LINE::REM { number, line } => LineModel::Rem { number: *number as int, text: line@ },
            LINE::NOP { number_left, number_right, line } => LineModel::Nop {
                number_left: *number_left as int,
                number_right: *number_right as int,
                text: line@,
            },
        }
    }
}

pub open spec fn line_models(v: Seq<LINE>) -> Seq<LineModel> {
    v.map_values(|l: LINE| l@)
}

/// The lines of one hunk, in input order.
#[derive(Debug, PartialEq, Eq)]
pub struct Hunk {
    pub content: Vec<LINE>,
}

impl View for Hunk {
    type V = Seq<LineModel>;

    open spec fn view(&self) -> Seq<LineModel> {
        line_models(self.content@)
    }
}

impl Hunk {
    pub fn new(content: Vec<LINE>) -> (r: Hunk)
        ensures
            r.content@ == content@,
    {
        Hunk { content: content }
    }
}

/// One changed file: its change kind, its (pre-image) path, the post-image
/// blob hash (empty when unknown) and its hunks.
#[derive(Debug, PartialEq, Eq)]
pub struct File {
    pub modifier: MODIFIER,
    pub filename: String,
    pub commit_id: String,
    pub hunks: Vec<Hunk>,
}

pub struct FileModel {
    pub modifier: MODIFIER,
    pub filename: Seq<char>,
    pub commit_id: Seq<char>,
    pub hunks: Seq<Seq<LineModel>>,
}

impl View for File {
    type V = FileModel;

    open spec fn view(&self) -> FileModel {
        FileModel {
            modifier: self.modifier,
            filename: self.filename@,
            commit_id: self.commit_id@,
            hunks: self.hunks@.map_values(|h: Hunk| h@),
        }
    }
}

/// The pre-image numbers of the removed and unchanged lines, in order.
pub open spec fn pre_numbers(h: Seq<LineModel>) -> Seq<int>
    decreases h.len(),
{
    if h.len() == 0 {
        Seq::empty()
    } else {
        let rest = pre_numbers(h.drop_last());
        match h.last() {
            LineModel::Rem { number, .. } => rest.push(number),
            LineModel::Nop { number_left, .. } => rest.push(number_left),
            LineModel::Add { .. } => rest,
        }
    }
}

/// The post-image numbers of the added and unchanged lines, in order.
pub open spec fn post_numbers(h: Seq<LineModel>) -> Seq<int>
    decreases h.len(),
{
    if h.len() == 0 {
        Seq::empty()
    } else {
        let rest = post_numbers(h.drop_last());
        match h.last() {
            LineModel::Add { number, .. } => rest.push(number),
            LineModel::Nop { number_right, .. } => rest.push(number_right),
            LineModel::Rem { .. } => rest,
        }
    }
}

/// The largest line number a line carries.
pub open spec fn line_max(l: LineModel) -> int {
    match l {
        LineModel::Add { number, .. } => number,
        LineModel::Rem { number, .. } => number,
        LineModel::Nop { number_left, number_right, .. } => if number_left > number_right {
            number_left
        } else {
            number_right
        },
    }
}

/// The largest number that a line of the hunk carries, or 0.
pub open spec fn hunk_max(h: Seq<LineModel>) -> int
    decreases h.len(),
{
    if h.len() == 0 {
        0
    } else {
        let m = hunk_max(h.drop_last());
        if line_max(h.last()) > m {
            line_max(h.last())
        } else {
            m
        }
    }
}

/// The largest number that a line of the hunks carries, or 0.
pub open spec fn file_max(hs: Seq<Seq<LineModel>>) -> int
    decreases hs.len(),
{
    if hs.len() == 0 {
        0
    } else {
        let m = file_max(hs.drop_last());
        if hunk_max(hs.last()) > m {
            hunk_max(hs.last())
        } else {
            m
        }
    }
}

/// No line of the file carries a number above `m`.
pub open spec fn all_numbers_at_most(f: FileModel, m: int) -> bool {
    forall|i: int, j: int|
        0 <= i < f.hunks.len() && 0 <= j < f.hunks[i].len() ==> line_max(#[trigger] f.hunks[i][j])
            <= m
}

/// Some line of the file carries the number `m`.
pub open spec fn some_number_is(f: FileModel, m: int) -> bool {
    exists|i: int, j: int|
        0 <= i < f.hunks.len() && 0 <= j < f.hunks[i].len() && line_max(#[trigger] f.hunks[i][j])
            == m
}

impl File {
    pub fn new(modifier: MODIFIER, filename: String, commit_id: String, hunks: Vec<Hunk>) -> (r: File)
        ensures
            r.modifier == modifier,
            r.filename == filename,
            r.commit_id == commit_id,
            r.hunks == hunks,
    {
        File { modifier: modifier, filename: filename, commit_id: commit_id, hunks: hunks }
    }

    /// The largest pre- or post-image line number of the file, 0 when it has
    /// no lines.
    pub fn get_max_line_number_size(&self) -> (r: u64)
        ensures
            r == file_max(self@.hunks),
            all_numbers_at_most(self@, r as int),
            some_number_is(self@, r as int) || r == 0,
    {
        let ghost f = self@;
        let mut m: u64 = 0;
        let mut i: usize = 0;
        while i < self.hunks.len()
            invariant
                f == self@,
                i <= self.hunks.len(),
                forall|a: int, b: int|
                    0 <= a < i && 0 <= b < f.hunks[a].len() ==> line_max(#[trigger] f.hunks[a][b])
                        <= m,
                some_number_is(f, m as int) || m == 0,
                m == file_max(f.hunks.take(i as int)),
            decreases self.hunks.len() - i,
        {
            let content = &self.hunks[i].content;
            let mut j: usize = 0;
            while j < content.len()
                invariant
                    f == self@,
                    i < self.hunks.len(),
                    content == self.hunks@[i as int].content,
                    j <= content.len(),
                    forall|a: int, b: int|
                        0 <= a < i && 0 <= b < f.hunks[a].len() ==> line_max(
                            #[trigger] f.hunks[a][b],
                        ) <= m,
                    forall|b: int| 0 <= b < j ==> line_max(#[trigger] f.hunks[i as int][b]) <= m,
                    some_number_is(f, m as int) || m == 0,
                    m == (if hunk_max(f.hunks[i as int].take(j as int)) > file_max(
                        f.hunks.take(i as int),
                    ) {
                        hunk_max(f.hunks[i as int].take(j as int))
                    } else {
                        file_max(f.hunks.take(i as int))
                    }),
                decreases content.len() - j,
            {
                let v = match &content[j] {
                    LINE::ADD { number, .. } => *number,
                    LINE::REM { number, .. } => *number,
                    LINE::NOP { number_left, number_right, .. } => {
                        if *number_left > *number_right {
                            *number_left
                        } else {
                            *number_right
                        }
                    },
                };
                assert(f.hunks[i as int][j as int] == content@[j as int]@);
                assert(line_max(f.hunks[i as int][j as int]) == v);
                assert(f.hunks[i as int].take(j + 1).drop_last() =~= f.hunks[i as int].take(
                    j as int,
                ));
                if v > m {
                    m = v;
                }
                j += 1;
            }
            assert(f.hunks[i as int].take(j as int) =~= f.hunks[i as int]);
            assert(f.hunks.take(i + 1).drop_last() =~= f.hunks.take(i as int));
            i += 1;
        }
        assert(f.hunks.take(i as int) =~= f.hunks);
        m
    }
}

} // verus!
