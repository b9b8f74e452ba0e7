//! The record of one program and its decoding from the cells of a data row.

use crate::layout::{field_at, field_of, Field, FIXED_COLUMNS};
use crate::scores::{
    distinct_keys, has_key, index_of, lemma_recorded, lookup, recorded, Pair, Scores,
};
use crate::text::{
    coerce_quota, coerce_score, decimal_i16, grid, lemma_without_char, quota_of, score_of,
    strip_marker, texts, without_char, MARKER,
};
use vstd::prelude::*;

verus! {

/// One program of one faculty, with its quotas and minimum scores.
#[derive(Clone, Debug)]
pub struct Major {
    /// The program code as displayed.
    pub id: String,
    /// The label of the faculty under which the row was found.
    pub faculty: String,
    /// The program name without annotation markers.
    pub name: String,
    /// The enrollment quota of the regular track.
    pub student_in_regular: i16,
    /// The enrollment quota of the special track.
    pub student_in_special: i16,
    /// The minimum score of each subject that has a requirement.
    pub scores: Scores,
}

/// A record as mathematical values.
pub struct MajorView {
    pub id: Seq<char>,
    pub faculty: Seq<char>,
    pub name: Seq<char>,
    pub student_in_regular: i16,
    pub student_in_special: i16,
    pub scores: Seq<Pair>,
}

impl View for Major {
    type V = MajorView;

    open spec fn view(&self) -> MajorView {
        MajorView {
            id: self.id@,
            faculty: self.faculty@,
            name: self.name@,
            student_in_regular: self.student_in_regular,
            student_in_special: self.student_in_special,
            scores: self.scores@,
        }
    }
}

/// The record that holds nothing yet: empty texts, zero quotas, no scores.
pub open spec fn blank() -> MajorView {
    MajorView {
        id: Seq::empty(),
        faculty: Seq::empty(),
        name: Seq::empty(),
        student_in_regular: 0,
        student_in_special: 0,
        scores: Seq::empty(),
    }
}

/// The record `m` after the cell `text` has filled `field`. A score cell
/// leaves the record as it is unless its subject exists and its score is
/// strictly positive.
pub open spec fn filled(
    m: MajorView,
    field: Field,
    text: Seq<char>,
    subjects: Seq<Seq<char>>,
) -> MajorView {
    match field {
        Field::Id => MajorView { id: text, ..m },
        Field::Name => MajorView { name: without_char(text, MARKER), ..m },
        Field::Regular => MajorView { student_in_regular: quota_of(text), ..m },
        Field::Special => MajorView { student_in_special: quota_of(text), ..m },
        Field::Score(j) => if j < subjects.len() && score_of(text) > 0 {
            MajorView { scores: recorded(m.scores, subjects[j as int], score_of(text)), ..m }
        } else {
            m
        },
    }
}

/// The scores that the cells of a row give: the score columns are taken
/// from left to right, and each one that has a subject and a strictly
/// positive score is recorded under that subject.
pub open spec fn scores_of(cells: Seq<Seq<char>>, subjects: Seq<Seq<char>>) -> Seq<Pair>
    decreases cells.len(),
{
    if cells.len() <= FIXED_COLUMNS {
        Seq::empty()
    } else {
        let before = scores_of(cells.drop_last(), subjects);
        let j = cells.len() - 1 - FIXED_COLUMNS;
        if j < subjects.len() && score_of(cells.last()) > 0 {
            recorded(before, subjects[j], score_of(cells.last()))
        } else {
            before
        }
    }
}

/// The record that a row stands for under a subject list, before the
/// faculty is stamped on it. A field whose cell is missing keeps its default.
pub open spec fn row_record(cells: Seq<Seq<char>>, subjects: Seq<Seq<char>>) -> MajorView {
    MajorView {
        id: if cells.len() > 0 {
            cells[0]
        } else {
            Seq::empty()
        },
        faculty: Seq::empty(),
        name: if cells.len() > 1 {
            without_char(cells[1], MARKER)
        } else {
            Seq::empty()
        },
        student_in_regular: if cells.len() > 2 {
            quota_of(cells[2])
        } else {
            0
        },
        student_in_special: if cells.len() > 3 {
            quota_of(cells[3])
        } else {
            0
        },
        scores: scores_of(cells, subjects),
    }
}

/// The record that a row of the faculty `faculty` stands for.
pub open spec fn decoded(
    cells: Seq<Seq<char>>,
    faculty: Seq<char>,
    subjects: Seq<Seq<char>>,
) -> MajorView {
    MajorView { faculty, ..row_record(cells, subjects) }
}

/// Taking one more cell into account fills the field of that cell's column.
pub proof fn lemma_row_record_step(cells: Seq<Seq<char>>, subjects: Seq<Seq<char>>)
    requires
        cells.len() > 0,
        subjects.len() <= usize::MAX,
    ensures
        row_record(cells, subjects) == match field_of(cells.len() - 1, subjects.len() as int) {
            Some(field) => filled(row_record(cells.drop_last(), subjects), field, cells.last(), subjects),
            None => row_record(cells.drop_last(), subjects),
        },
{
    let head = cells.drop_last();
    assert(forall|i: int| 0 <= i < head.len() ==> head[i] == cells[i]);
    if cells.len() <= FIXED_COLUMNS {
        assert(scores_of(head, subjects) == Seq::<Pair>::empty());
    }
}

impl Major {
    /// Whether the record is well formed: its score list is.
    pub open spec fn wf(&self) -> bool {
        self.scores.wf()
    }

    /// A record with every field at its default.
    pub fn new() -> (r: Major)
        ensures
            r@ == blank(),
            r.wf(),
    {
        Major {
            id: String::new(),
            faculty: String::new(),
            name: String::new(),
            student_in_regular: 0,
            student_in_special: 0,
            scores: Scores::new(),
        }
    }

    /// Lets the cell `text` fill `field`: the code verbatim, the name without
    /// markers, a quota as an integer or 0, and a score only where its
    /// subject exists and the score is strictly positive.
    pub fn fill(&mut self, field: Field, text: &str, subjects: &[String])
        requires
            old(self).wf(),
        ensures
            final(self)@ == filled(old(self)@, field, text@, texts(subjects@)),
            final(self).wf(),
    {
        match field {
            Field::Id => {
                self.id = text.to_owned();
            },
            Field::Name => {
                self.name = strip_marker(text);
            },
            Field::Regular => {
                self.student_in_regular = coerce_quota(text).value;
            },
            Field::Special => {
                self.student_in_special = coerce_quota(text).value;
            },
            Field::Score(j) => {
                if j < subjects.len() {
                    let score = coerce_score(text).value;
                    if score > 0 {
                        self.scores.insert(subjects[j].clone(), score);
                    }
                }
            },
        }
    }
}

impl Default for Major {
    fn default() -> (r: Major)
        ensures
            r@ == blank(),
            r.wf(),
    {
        Major::new()
    }
}

/// Decodes one data row by column position under the faculty's subject
/// list, and stamps the faculty on the result. Cells beyond the last
/// subject are passed over; a missing cell leaves its field at the default.
pub fn decode_row(cells: &[String], faculty: &str, subjects: &[String]) -> (r: Major)
    ensures
        r@ == decoded(texts(cells@), faculty@, texts(subjects@)),
        r.wf(),
        !r@.name.contains(MARKER),
        forall|i: int| 0 <= i < r@.scores.len() ==> (#[trigger] r@.scores[i]).1 > 0,
        forall|i: int|
            0 <= i < r@.scores.len() ==> texts(subjects@).contains((#[trigger] r@.scores[i]).0),
{
    let mut major = Major::new();
    let subject_count = subjects.len();
    let mut i: usize = 0;
    assert(texts(cells@).take(0) =~= Seq::<Seq<char>>::empty());
    while i < cells.len()
        invariant
            i <= cells@.len(),
            subject_count == subjects@.len(),
            major.wf(),
            major@ == row_record(texts(cells@).take(i as int), texts(subjects@)),
        decreases cells@.len() - i,
    {
        proof {
            let upto = texts(cells@).take(i as int + 1);
            assert(upto.drop_last() =~= texts(cells@).take(i as int));
            assert(upto.last() == cells@[i as int]@);
            lemma_row_record_step(upto, texts(subjects@));
        }
        match field_at(i, subject_count) {
            Some(field) => {
                major.fill(field, cells[i].as_str(), subjects);
            },
            None => {},
        }
        i += 1;
    }
    assert(texts(cells@).take(i as int) =~= texts(cells@));
    major.faculty = faculty.to_owned();
    proof {
        lemma_scores_of(texts(cells@), texts(subjects@));
        lemma_name_has_no_marker(texts(cells@), faculty@, texts(subjects@));
    }
    major
}

/// The records that the body rows of a faculty's table stand for, one for
/// each row and in the order of the rows.
pub open spec fn decoded_rows(
    body: Seq<Seq<Seq<char>>>,
    faculty: Seq<char>,
    subjects: Seq<Seq<char>>,
) -> Seq<MajorView> {
    Seq::new(body.len(), |i: int| decoded(body[i], faculty, subjects))
}

/// The views of a list of records.
pub open spec fn views(records: Seq<Major>) -> Seq<MajorView> {
    Seq::new(records.len(), |i: int| records[i]@)
}

/// Whether every record of the list is well formed.
pub open spec fn all_wf(records: Seq<Major>) -> bool {
    forall|i: int| 0 <= i < records.len() ==> (#[trigger] records[i]).wf()
}

/// Decodes the body rows of one faculty's table, each under the faculty's
/// subject list. A body without rows gives no records.
pub fn decode_rows(body: &[Vec<String>], faculty: &str, subjects: &[String]) -> (r: Vec<Major>)
    ensures
        views(r@) == decoded_rows(grid(body@), faculty@, texts(subjects@)),
        r@.len() == body@.len(),
        all_wf(r@),
{
    let mut records: Vec<Major> = Vec::new();
    let mut i: usize = 0;
    while i < body.len()
        invariant
            i <= body@.len(),
            records@.len() == i,
            all_wf(records@),
            forall|k: int|
                0 <= k < i ==> (#[trigger] records@[k])@ == decoded(
                    grid(body@)[k],
                    faculty@,
                    texts(subjects@),
                ),
        decreases body@.len() - i,
    {
        let major = decode_row(body[i].as_slice(), faculty, subjects);
        records.push(major);
        i += 1;
    }
    assert(views(records@) =~= decoded_rows(grid(body@), faculty@, texts(subjects@)));
    records
}

/// Whether column `column` of the row gives the subject `key` a score: it is
/// a score column whose subject is `key` and whose cell holds a strictly
/// positive score.
pub open spec fn gives_score(
    cells: Seq<Seq<char>>,
    subjects: Seq<Seq<char>>,
    key: Seq<char>,
    column: int,
) -> bool {
    &&& FIXED_COLUMNS <= column < cells.len()
    &&& column - FIXED_COLUMNS < subjects.len()
    &&& subjects[column - FIXED_COLUMNS] == key
    &&& score_of(cells[column]) > 0
}

/// The scores of a row hold no key twice, only strictly positive values,
/// and only keys of the subject list.
pub proof fn lemma_scores_of(cells: Seq<Seq<char>>, subjects: Seq<Seq<char>>)
    ensures
        distinct_keys(scores_of(cells, subjects)),
        forall|i: int|
            0 <= i < scores_of(cells, subjects).len() ==> (#[trigger] scores_of(
                cells,
                subjects,
            )[i]).1 > 0,
        forall|i: int|
            0 <= i < scores_of(cells, subjects).len() ==> subjects.contains(
                (#[trigger] scores_of(cells, subjects)[i]).0,
            ),
    decreases cells.len(),
{
    if cells.len() > FIXED_COLUMNS {
        let before = scores_of(cells.drop_last(), subjects);
        lemma_scores_of(cells.drop_last(), subjects);
        let j = cells.len() - 1 - FIXED_COLUMNS;
        let value = score_of(cells.last());
        if j < subjects.len() && value > 0 {
            lemma_recorded(before, subjects[j], value);
            assert(subjects.contains(subjects[j]));
        }
    }
}

/// A subject has a score in the row's scores exactly when some column gives
/// it one, and the score it has is that of the last such column.
pub proof fn lemma_score_lookup(cells: Seq<Seq<char>>, subjects: Seq<Seq<char>>, key: Seq<char>)
    ensures
        lookup(scores_of(cells, subjects), key) is Some <==> exists|c: int| #[trigger]
            gives_score(cells, subjects, key, c),
        forall|c: int|
            #[trigger] gives_score(cells, subjects, key, c) && (forall|d: int|
                c < d ==> !gives_score(cells, subjects, key, d)) ==> lookup(
                scores_of(cells, subjects),
                key,
            ) == Some(score_of(cells[c])),
    decreases cells.len(),
{
    if cells.len() > FIXED_COLUMNS {
        let head = cells.drop_last();
        let last = cells.len() - 1;
        let before = scores_of(head, subjects);
        lemma_score_lookup(head, subjects, key);
        lemma_scores_of(head, subjects);
        let j = last - FIXED_COLUMNS;
        let value = score_of(cells.last());
        assert forall|c: int| c != last implies gives_score(cells, subjects, key, c)
            == gives_score(head, subjects, key, c) by {
            if 0 <= c < head.len() {
                assert(head[c] == cells[c]);
            }
        }
        if j < subjects.len() && value > 0 {
            lemma_recorded(before, subjects[j], value);
        }
        if gives_score(cells, subjects, key, last) {
        } else {
            if exists|c: int| #[trigger] gives_score(cells, subjects, key, c) {
                let c = choose|c: int| #[trigger] gives_score(cells, subjects, key, c);
                assert(gives_score(head, subjects, key, c));
            }
            if exists|c: int| #[trigger] gives_score(head, subjects, key, c) {
                let c = choose|c: int| #[trigger] gives_score(head, subjects, key, c);
                assert(gives_score(cells, subjects, key, c));
            }
            assert forall|c: int|
                #[trigger] gives_score(cells, subjects, key, c) && (forall|d: int|
                    c < d ==> !gives_score(cells, subjects, key, d)) implies lookup(
                scores_of(cells, subjects),
                key,
            ) == Some(score_of(cells[c])) by {
                assert(gives_score(head, subjects, key, c));
                assert forall|d: int| c < d implies !gives_score(head, subjects, key, d) by {
                    assert(!gives_score(cells, subjects, key, d));
                }
                assert(head[c] == cells[c]);
            }
        }
    }
}

/// Where no subject stands twice in the subject list, the score of the
/// subject at position `j` is read from column `j + 4` alone: it is there
/// exactly when that cell exists and holds a strictly positive score.
pub proof fn lemma_score_of_subject(cells: Seq<Seq<char>>, subjects: Seq<Seq<char>>, j: int)
    requires
        0 <= j < subjects.len(),
        forall|a: int, b: int|
            0 <= a < b < subjects.len() ==> #[trigger] subjects[a] != #[trigger] subjects[b],
    ensures
        lookup(scores_of(cells, subjects), subjects[j]) == if j + FIXED_COLUMNS < cells.len()
            && score_of(cells[j + FIXED_COLUMNS]) > 0 {
            Some(score_of(cells[j + FIXED_COLUMNS]))
        } else {
            None
        },
{
    let key = subjects[j];
    let column = j + FIXED_COLUMNS;
    lemma_score_lookup(cells, subjects, key);
    assert forall|d: int| d != column implies !gives_score(cells, subjects, key, d) by {
        if gives_score(cells, subjects, key, d) {
            let other = d - FIXED_COLUMNS;
            if other < j {
                assert(subjects[other] != subjects[j]);
            } else {
                assert(subjects[j] != subjects[other]);
            }
        }
    }
    if gives_score(cells, subjects, key, column) {
    } else {
        if lookup(scores_of(cells, subjects), key) is Some {
            let c = choose|c: int| #[trigger] gives_score(cells, subjects, key, c);
            assert(c == column);
        }
    }
}

/// The scores of the score columns in column order: one pair for each
/// column that has a subject and a strictly positive score.
pub open spec fn listed_scores(cells: Seq<Seq<char>>, subjects: Seq<Seq<char>>) -> Seq<Pair>
    decreases cells.len(),
{
    if cells.len() <= FIXED_COLUMNS {
        Seq::empty()
    } else {
        let before = listed_scores(cells.drop_last(), subjects);
        let j = cells.len() - 1 - FIXED_COLUMNS;
        if j < subjects.len() && score_of(cells.last()) > 0 {
            before.push((subjects[j], score_of(cells.last())))
        } else {
            before
        }
    }
}

/// Every key among the scores of a row is the subject of one of the row's
/// score columns.
proof fn lemma_keys_come_from_columns(cells: Seq<Seq<char>>, subjects: Seq<Seq<char>>)
    ensures
        forall|i: int|
            0 <= i < scores_of(cells, subjects).len() ==> exists|j: int|
                0 <= j < subjects.len() && j + FIXED_COLUMNS < cells.len() && #[trigger] subjects[j]
                    == (#[trigger] scores_of(cells, subjects)[i]).0,
    decreases cells.len(),
{
    if cells.len() > FIXED_COLUMNS {
        let head = cells.drop_last();
        let before = scores_of(head, subjects);
        let after = scores_of(cells, subjects);
        lemma_keys_come_from_columns(head, subjects);
        let last = cells.len() - 1 - FIXED_COLUMNS;
        assert forall|i: int| 0 <= i < after.len() implies exists|j: int|
            0 <= j < subjects.len() && j + FIXED_COLUMNS < cells.len() && #[trigger] subjects[j]
                == (#[trigger] after[i]).0 by {
            if i < before.len() && after[i].0 == before[i].0 {
                let j = choose|j: int|
                    0 <= j < subjects.len() && j + FIXED_COLUMNS < head.len() && #[trigger] subjects[j]
                        == before[i].0;
                assert(subjects[j] == after[i].0);
            } else {
                assert(subjects[last] == after[i].0);
            }
        }
    }
}

/// Where no subject stands twice in the subject list, the scores of a row
/// are its positive score cells in column order, each under the subject of
/// its column.
pub proof fn lemma_scores_in_column_order(cells: Seq<Seq<char>>, subjects: Seq<Seq<char>>)
    requires
        forall|a: int, b: int|
            0 <= a < b < subjects.len() ==> #[trigger] subjects[a] != #[trigger] subjects[b],
    ensures
        scores_of(cells, subjects) == listed_scores(cells, subjects),
    decreases cells.len(),
{
    if cells.len() > FIXED_COLUMNS {
        let head = cells.drop_last();
        let before = scores_of(head, subjects);
        lemma_scores_in_column_order(head, subjects);
        lemma_keys_come_from_columns(head, subjects);
        let last = cells.len() - 1 - FIXED_COLUMNS;
        if last < subjects.len() && has_key(before, subjects[last]) {
            let i = index_of(before, subjects[last]);
            let j = choose|j: int|
                0 <= j < subjects.len() && j + FIXED_COLUMNS < head.len() && #[trigger] subjects[j]
                    == before[i].0;
            assert(subjects[j] != subjects[last]);
        }
    }
}

/// The quotas of a decoded row are 0 wherever the quota cell is missing or
/// holds no integer, and are negative only where the cell writes a
/// negative integer.
pub proof fn lemma_quotas_of_row(
    cells: Seq<Seq<char>>,
    faculty: Seq<char>,
    subjects: Seq<Seq<char>>,
)
    requires
        cells.len() > 2 ==> !(decimal_i16(cells[2]) matches Some(v) && v < 0),
        cells.len() > 3 ==> !(decimal_i16(cells[3]) matches Some(v) && v < 0),
    ensures
        decoded(cells, faculty, subjects).student_in_regular >= 0,
        decoded(cells, faculty, subjects).student_in_special >= 0,
        cells.len() <= 2 || decimal_i16(cells[2]) is None ==> decoded(
            cells,
            faculty,
            subjects,
        ).student_in_regular == 0,
        cells.len() <= 3 || decimal_i16(cells[3]) is None ==> decoded(
            cells,
            faculty,
            subjects,
        ).student_in_special == 0,
{
}

/// A decoded name holds no marker, whatever the row.
pub proof fn lemma_name_has_no_marker(
    cells: Seq<Seq<char>>,
    faculty: Seq<char>,
    subjects: Seq<Seq<char>>,
)
    ensures
        !decoded(cells, faculty, subjects).name.contains(MARKER),
{
    if cells.len() > 1 {
        lemma_without_char(cells[1], MARKER);
    }
}

} // verus!
