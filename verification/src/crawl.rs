//! The course of one run over the faculty list, as a state machine: the
//! caller performs each action on the page and hands back what it saw, and
//! the machine decides what comes next and gathers the records.

use crate::record::{all_wf, decode_rows, decoded_rows, lemma_scores_of, views, Major, MajorView};
use crate::schema::{discovered, is_labelled, keys_of, labelled, subject_keys, HEADER_ROW};
use crate::scores::distinct_keys;
use crate::text::{grid, texts};
use vstd::prelude::*;

verus! {

/// The position of the first real faculty in the option list. The option
/// before it is the prompt of the list and is never selected.
pub const FIRST_FACULTY: usize = 1;

/// Where a run stands. From `NotSelected` to `HeaderRead` the run is at the
/// faculty under the cursor and waits for what the caller sees next. A
/// faculty ends in one of two ways: its table does not appear, and it adds
/// no records; or its rows are extracted and added. Neither end is a stage
/// to rest in: the step that ends a faculty turns to the next one at once,
/// or finishes the run after the last.
#[derive(Clone, Copy, Debug, PartialEq, Eq, Structural)]
pub enum Stage {
    /// The option list has not been counted yet.
    Idle,
    /// The faculty under the cursor is to be selected.
    NotSelected,
    /// The faculty is selected and its label known; its table is looked for.
    Selected,
    /// The table was found and has a header row, which is being read.
    TableLocated,
    /// The subjects are known; the body rows are being read.
    HeaderRead,
    /// Every faculty is done and the records are complete.
    Finished,
    /// The run was given up: an event came out of turn, or a subject label
    /// of a header was blank.
    Failed,
}

/// What the caller saw on the page after performing an action.
#[derive(Debug)]
pub enum Event {
    /// The number of options of the faculty list, the prompt included.
    Options(usize),
    /// The label of the option that was selected.
    Selected(String),
    /// The table appeared; it has this many rows, header region included.
    TableFound(usize),
    /// No table appeared within the wait.
    TableMissing,
    /// The texts of the header cells of the row that was asked for.
    Header(Vec<String>),
    /// The texts of the data cells of each row of the table body.
    Body(Vec<Vec<String>>),
}

/// An event as mathematical values.
pub enum EventView {
    Options(usize),
    Selected(Seq<char>),
    TableFound(usize),
    TableMissing,
    Header(Seq<Seq<char>>),
    Body(Seq<Seq<Seq<char>>>),
}

impl View for Event {
    type V = EventView;

    open spec fn view(&self) -> EventView {
        match self {
            Event::Options(count) => EventView::Options(*count),
            Event::Selected(label) => EventView::Selected(label@),
            Event::TableFound(rows) => EventView::TableFound(*rows),
            Event::TableMissing => EventView::TableMissing,
            Event::Header(cells) => EventView::Header(texts(cells@)),
            Event::Body(rows) => EventView::Body(grid(rows@)),
        }
    }
}

/// What the caller is to do next.
#[derive(Clone, Copy, Debug, PartialEq, Eq, Structural)]
pub enum Action {
    /// Select the option at this position and report its label.
    Select(usize),
    /// Wait a bounded time for the score table and report whether it came.
    LocateTable,
    /// Report the header cells of the table row at this position.
    ReadHeader(usize),
    /// Report the data cells of every row of the table body.
    ReadBody,
    /// Close the session and write the records out.
    Finish,
    /// Stop without writing anything.
    Abort,
}

/// A run as mathematical values.
pub struct CrawlView {
    pub stage: Stage,
    /// The number of options of the faculty list.
    pub option_count: usize,
    /// The position of the faculty that the run is at.
    pub cursor: usize,
    /// The label of that faculty, once it is selected.
    pub label: Seq<char>,
    /// The subject keys of its table, once its header is read.
    pub subjects: Seq<Seq<char>>,
    /// The records gathered so far, by faculty and then by row.
    pub records: Seq<MajorView>,
}

/// The run before anything has happened.
pub open spec fn initial() -> CrawlView {
    CrawlView {
        stage: Stage::Idle,
        option_count: 0,
        cursor: 0,
        label: Seq::empty(),
        subjects: Seq::empty(),
        records: Seq::empty(),
    }
}

/// Whether the run is at a faculty: between its selection and its rows.
pub open spec fn at_faculty(stage: Stage) -> bool {
    stage == Stage::NotSelected || stage == Stage::Selected || stage == Stage::TableLocated
        || stage == Stage::HeaderRead
}

/// Whether a run is well formed: while it is at a faculty the cursor is on
/// a real option of the list, and no record holds a subject twice.
pub open spec fn well_formed(run: CrawlView) -> bool {
    &&& at_faculty(run.stage) ==> FIRST_FACULTY <= run.cursor < run.option_count
    &&& forall|i: int| 0 <= i < run.records.len() ==> distinct_keys((#[trigger] run.records[i]).scores)
}

/// The run gives up and keeps what it has.
pub open spec fn failed(run: CrawlView) -> (CrawlView, Action) {
    (CrawlView { stage: Stage::Failed, ..run }, Action::Abort)
}

/// The run turns to the option at `index`: it asks for its selection, or
/// finishes where the list has no such option.
pub open spec fn turned_to(run: CrawlView, index: int) -> (CrawlView, Action) {
    if index < run.option_count {
        (
            CrawlView {
                stage: Stage::NotSelected,
                cursor: index as usize,
                label: Seq::empty(),
                subjects: Seq::empty(),
                ..run
            },
            Action::Select(index as usize),
        )
    } else {
        (
            CrawlView {
                stage: Stage::Finished,
                label: Seq::empty(),
                subjects: Seq::empty(),
                ..run
            },
            Action::Finish,
        )
    }
}

/// The state that follows `run` on `event`, and the action it asks for.
pub open spec fn next(run: CrawlView, event: EventView) -> (CrawlView, Action) {
    match (run.stage, event) {
        (Stage::Idle, EventView::Options(count)) => turned_to(
            CrawlView { option_count: count, ..run },
            FIRST_FACULTY as int,
        ),
        (Stage::NotSelected, EventView::Selected(label)) => (
            CrawlView { stage: Stage::Selected, label, ..run },
            Action::LocateTable,
        ),
        (Stage::Selected, EventView::TableFound(rows)) => if rows > HEADER_ROW {
            (CrawlView { stage: Stage::TableLocated, ..run }, Action::ReadHeader(HEADER_ROW))
        } else {
            (CrawlView { stage: Stage::HeaderRead, subjects: Seq::empty(), ..run }, Action::ReadBody)
        },
        (Stage::Selected, EventView::TableMissing) => turned_to(run, run.cursor + 1),
        (Stage::TableLocated, EventView::Header(cells)) => if labelled(cells) {
            (CrawlView { stage: Stage::HeaderRead, subjects: keys_of(cells), ..run }, Action::ReadBody)
        } else {
            failed(run)
        },
        (Stage::HeaderRead, EventView::Body(rows)) => turned_to(
            CrawlView {
                records: run.records + decoded_rows(rows, run.label, run.subjects),
                ..run
            },
            run.cursor + 1,
        ),
        _ => failed(run),
    }
}

/// A run over the faculty list.
#[derive(Debug)]
pub struct Crawl {
    stage: Stage,
    option_count: usize,
    cursor: usize,
    label: String,
    subjects: Vec<String>,
    records: Vec<Major>,
}

impl View for Crawl {
    type V = CrawlView;

    closed spec fn view(&self) -> CrawlView {
        CrawlView {
            stage: self.stage,
            option_count: self.option_count,
            cursor: self.cursor,
            label: self.label@,
            subjects: texts(self.subjects@),
            records: views(self.records@),
        }
    }
}

impl Crawl {
    /// Whether the run is well formed, as `well_formed` says of its view.
    pub closed spec fn wf(&self) -> bool {
        well_formed(self@) && all_wf(self.records@)
    }

    /// A well-formed run has a well-formed view.
    pub proof fn lemma_wf_view(&self)
        requires
            self.wf(),
        ensures
            well_formed(self@),
    {
    }

    /// A run that has not started: the first event it takes is the count of
    /// the option list.
    pub fn new() -> (r: Crawl)
        ensures
            r@ == initial(),
            r.wf(),
    {
        let r = Crawl {
            stage: Stage::Idle,
            option_count: 0,
            cursor: 0,
            label: String::new(),
            subjects: Vec::new(),
            records: Vec::new(),
        };
        assert(texts(r.subjects@) =~= Seq::<Seq<char>>::empty());
        assert(views(r.records@) =~= Seq::<MajorView>::empty());
        r
    }

    /// Where the run stands.
    pub fn stage(&self) -> (r: Stage)
        ensures
            r == self@.stage,
    {
        self.stage
    }

    /// The records gathered so far.
    pub fn records(&self) -> (r: &Vec<Major>)
        requires
            self.wf(),
        ensures
            views(r@) == self@.records,
            all_wf(r@),
    {
        &self.records
    }

    /// The complete records of a finished run. A run that is not finished
    /// gives none: there is no partial result.
    pub fn into_records(self) -> (r: Option<Vec<Major>>)
        requires
            self.wf(),
        ensures
            r is Some <==> self@.stage == Stage::Finished,
            r matches Some(records) ==> views(records@) == self@.records && all_wf(records@),
    {
        match self.stage {
            Stage::Finished => Some(self.records),
            _ => None,
        }
    }

    fn fail(&mut self) -> (action: Action)
        requires
            old(self).wf(),
        ensures
            (final(self)@, action) == failed(old(self)@),
            final(self).wf(),
    {
        self.stage = Stage::Failed;
        Action::Abort
    }

    fn turn_to(&mut self, index: usize) -> (action: Action)
        requires
            FIRST_FACULTY <= index,
            all_wf(old(self).records@),
            forall|i: int|
                0 <= i < old(self)@.records.len() ==> distinct_keys(
                    (#[trigger] old(self)@.records[i]).scores,
                ),
        ensures
            (final(self)@, action) == turned_to(old(self)@, index as int),
            final(self).wf(),
    {
        self.label = String::new();
        self.subjects = Vec::new();
        assert(texts(self.subjects@) =~= Seq::<Seq<char>>::empty());
        if index < self.option_count {
            self.stage = Stage::NotSelected;
            self.cursor = index;
            Action::Select(index)
        } else {
            self.stage = Stage::Finished;
            Action::Finish
        }
    }

    /// Takes what the caller saw and says what to do next. An event that
    /// does not answer the last action, and a header with a blank subject
    /// label, end the run in `Failed` with `Abort`.
    pub fn step(&mut self, event: Event) -> (action: Action)
        requires
            old(self).wf(),
        ensures
            (final(self)@, action) == next(old(self)@, event@),
            final(self).wf(),
    {
        match (self.stage, event) {
            (Stage::Idle, Event::Options(count)) => {
                self.option_count = count;
                self.turn_to(FIRST_FACULTY)
            },
            (Stage::NotSelected, Event::Selected(label)) => {
                self.label = label;
                self.stage = Stage::Selected;
                Action::LocateTable
            },
            (Stage::Selected, Event::TableFound(rows)) => {
                if rows > HEADER_ROW {
                    self.stage = Stage::TableLocated;
                    Action::ReadHeader(HEADER_ROW)
                } else {
                    self.subjects = Vec::new();
                    assert(texts(self.subjects@) =~= Seq::<Seq<char>>::empty());
                    self.stage = Stage::HeaderRead;
                    Action::ReadBody
                }
            },
            (Stage::Selected, Event::TableMissing) => {
                let following = self.cursor + 1;
                self.turn_to(following)
            },
            (Stage::TableLocated, Event::Header(cells)) => {
                if is_labelled(cells.as_slice()) {
                    self.subjects = subject_keys(cells.as_slice());
                    self.stage = Stage::HeaderRead;
                    Action::ReadBody
                } else {
                    self.fail()
                }
            },
            (Stage::HeaderRead, Event::Body(rows)) => {
                let mut fresh = decode_rows(
                    rows.as_slice(),
                    self.label.as_str(),
                    self.subjects.as_slice(),
                );
                let ghost before = self.records@;
                let ghost added = fresh@;
                self.records.append(&mut fresh);
                proof {
                    assert(self.records@ == before + added);
                    assert(views(before + added) =~= views(before) + views(added));
                    assert forall|i: int| 0 <= i < self.records@.len() implies (
                    #[trigger] self.records@[i]).wf() by {
                        if i < before.len() {
                            assert(before[i].wf());
                        } else {
                            assert(added[i - before.len()].wf());
                        }
                    }
                    assert forall|i: int| 0 <= i < views(self.records@).len() implies distinct_keys(
                        (#[trigger] views(self.records@)[i]).scores,
                    ) by {
                        assert(self.records@[i].wf());
                    }
                }
                let following = self.cursor + 1;
                self.turn_to(following)
            },
            _ => self.fail(),
        }
    }
}

/// The state of a run after a course of events, taken in order.
pub open spec fn after(run: CrawlView, events: Seq<EventView>) -> CrawlView
    decreases events.len(),
{
    if events.len() == 0 {
        run
    } else {
        next(after(run, events.drop_last()), events.last()).0
    }
}

/// Every step keeps a well-formed run well formed.
pub proof fn lemma_step_keeps_well_formed(run: CrawlView, event: EventView)
    requires
        well_formed(run),
    ensures
        well_formed(next(run, event).0),
{
    if let (Stage::HeaderRead, EventView::Body(rows)) = (run.stage, event) {
        let fresh = decoded_rows(rows, run.label, run.subjects);
        let all = run.records + fresh;
        assert forall|i: int| 0 <= i < all.len() implies distinct_keys(
            (#[trigger] all[i]).scores,
        ) by {
            if i < run.records.len() {
                assert(all[i] == run.records[i]);
            } else {
                let k = i - run.records.len();
                assert(all[i] == fresh[k]);
                lemma_scores_of(rows[k], run.subjects);
            }
        }
    }
}

/// No step takes a record away or changes one: what was gathered before a
/// step stands at the front of what is gathered after it.
pub proof fn lemma_records_only_grow(run: CrawlView, event: EventView)
    ensures
        run.records.is_prefix_of(next(run, event).0.records),
{
    let later = next(run, event).0.records;
    if let (Stage::HeaderRead, EventView::Body(rows)) = (run.stage, event) {
        assert(later == run.records + decoded_rows(rows, run.label, run.subjects));
    }
    assert(later.subrange(0, run.records.len() as int) =~= run.records);
}

/// The only option ever selected is a real faculty of the list, never the
/// prompt before the first; and after the first, each one selected is the
/// one after the faculty just left.
pub proof fn lemma_selection_order(run: CrawlView, event: EventView)
    requires
        well_formed(run),
    ensures
        next(run, event).1 matches Action::Select(index) ==> {
            &&& FIRST_FACULTY <= index < next(run, event).0.option_count
            &&& next(run, event).0.cursor == index
            &&& next(run, event).0.stage == Stage::NotSelected
            &&& run.stage == Stage::Idle ==> index == FIRST_FACULTY
            &&& run.stage != Stage::Idle ==> index == run.cursor + 1
        },
{
}

/// A faculty whose table does not appear, and one whose table body has no
/// rows, adds no record and does not stop the run: the run turns to the
/// next option, or finishes where there is none.
pub proof fn lemma_empty_faculty_is_passed(run: CrawlView, event: EventView)
    requires
        well_formed(run),
        (run.stage == Stage::Selected && event == EventView::TableMissing) || (run.stage
            == Stage::HeaderRead && event == EventView::Body(Seq::empty())),
    ensures
        next(run, event).0.records == run.records,
        next(run, event).1 == if run.cursor + 1 < run.option_count {
            Action::Select((run.cursor + 1) as usize)
        } else {
            Action::Finish
        },
        next(run, event).0.stage != Stage::Failed,
{
    if run.stage == Stage::HeaderRead {
        assert(decoded_rows(Seq::empty(), run.label, run.subjects) =~= Seq::<MajorView>::empty());
        assert(run.records + Seq::<MajorView>::empty() =~= run.records);
    }
}

/// What one faculty with a table adds to a run. From the selection of the
/// faculty on, the events of a table with the header cells `header` in its
/// header row and the body rows `body` add one record for each body row, in
/// row order, decoded under the subject keys of the header and stamped with
/// the faculty's label. The run then turns to the next option.
pub proof fn lemma_faculty_with_table(
    run: CrawlView,
    label: Seq<char>,
    rows: usize,
    header: Seq<Seq<char>>,
    body: Seq<Seq<Seq<char>>>,
)
    requires
        well_formed(run),
        run.stage == Stage::NotSelected,
        rows > HEADER_ROW,
        labelled(header),
    ensures
        after(
            run,
            seq![
                EventView::Selected(label),
                EventView::TableFound(rows),
                EventView::Header(header),
                EventView::Body(body),
            ],
        ) == turned_to(
            CrawlView { records: run.records + decoded_rows(body, label, keys_of(header)), ..run },
            run.cursor + 1,
        ).0,
{
    let e1 = EventView::Selected(label);
    let e2 = EventView::TableFound(rows);
    let e3 = EventView::Header(header);
    let e4 = EventView::Body(body);
    let s0: Seq<EventView> = seq![];
    let s1 = seq![e1];
    let s2 = seq![e1, e2];
    let s3 = seq![e1, e2, e3];
    let s4 = seq![e1, e2, e3, e4];
    assert(s1.drop_last() =~= s0);
    assert(s2.drop_last() =~= s1);
    assert(s3.drop_last() =~= s2);
    assert(s4.drop_last() =~= s3);
    assert(after(run, s0) == run);
    assert(after(run, s1) == next(run, e1).0);
    assert(after(run, s2) == next(after(run, s1), e2).0);
    assert(after(run, s3) == next(after(run, s2), e3).0);
    assert(after(run, s4) == next(after(run, s3), e4).0);
}

/// What one faculty adds whose table has no header row: its body rows are
/// decoded under an empty subject list, so its records hold no scores.
pub proof fn lemma_faculty_without_header(
    run: CrawlView,
    label: Seq<char>,
    rows: usize,
    body: Seq<Seq<Seq<char>>>,
)
    requires
        well_formed(run),
        run.stage == Stage::NotSelected,
        rows <= HEADER_ROW,
    ensures
        after(run, seq![EventView::Selected(label), EventView::TableFound(rows), EventView::Body(body)])
            == turned_to(
            CrawlView { records: run.records + decoded_rows(body, label, Seq::empty()), ..run },
            run.cursor + 1,
        ).0,
{
    let e1 = EventView::Selected(label);
    let e2 = EventView::TableFound(rows);
    let e3 = EventView::Body(body);
    let s0: Seq<EventView> = seq![];
    let s1 = seq![e1];
    let s2 = seq![e1, e2];
    let s3 = seq![e1, e2, e3];
    assert(s1.drop_last() =~= s0);
    assert(s2.drop_last() =~= s1);
    assert(s3.drop_last() =~= s2);
    assert(after(run, s0) == run);
    assert(after(run, s1) == next(run, e1).0);
    assert(after(run, s2) == next(after(run, s1), e2).0);
    assert(after(run, s3) == next(after(run, s2), e3).0);
}

/// The score table of a faculty as the page shows it.
pub struct TablePage {
    /// The header cells of each row of the table, header region included.
    pub rows: Seq<Seq<Seq<char>>>,
    /// The data cells of each row of the table body.
    pub body: Seq<Seq<Seq<char>>>,
}

/// A faculty as the page shows it once it is selected.
pub struct FacultyPage {
    pub label: Seq<char>,
    /// The score table, where one appears.
    pub table: Option<TablePage>,
}

/// Whether a faculty can be read: its table, if it has one, has a key for
/// every subject label of its header row.
pub open spec fn readable(page: FacultyPage) -> bool {
    page.table matches Some(table) ==> table.rows.len() <= usize::MAX && discovered(table.rows)
        is Some
}

/// The records that a faculty stands for: none without a table, else one
/// for each body row under the subjects discovered in its rows.
pub open spec fn records_of(page: FacultyPage) -> Seq<MajorView> {
    match page.table {
        Some(table) => match discovered(table.rows) {
            Some(subjects) => decoded_rows(table.body, page.label, subjects),
            None => Seq::empty(),
        },
        None => Seq::empty(),
    }
}

/// What a caller sees of a faculty when it does what the run asks for.
pub open spec fn events_of(page: FacultyPage) -> Seq<EventView> {
    match page.table {
        Some(table) => if table.rows.len() > HEADER_ROW {
            seq![
                EventView::Selected(page.label),
                EventView::TableFound(table.rows.len() as usize),
                EventView::Header(table.rows[HEADER_ROW as int]),
                EventView::Body(table.body),
            ]
        } else {
            seq![
                EventView::Selected(page.label),
                EventView::TableFound(table.rows.len() as usize),
                EventView::Body(table.body),
            ]
        },
        None => seq![EventView::Selected(page.label), EventView::TableMissing],
    }
}

/// The records of a list of faculties: those of each, in list order.
pub open spec fn records_of_all(pages: Seq<FacultyPage>) -> Seq<MajorView>
    decreases pages.len(),
{
    if pages.len() == 0 {
        Seq::empty()
    } else {
        records_of_all(pages.drop_last()) + records_of(pages.last())
    }
}

/// What a caller sees of a list of faculties, one after the other.
pub open spec fn events_of_all(pages: Seq<FacultyPage>) -> Seq<EventView>
    decreases pages.len(),
{
    if pages.len() == 0 {
        Seq::empty()
    } else {
        events_of_all(pages.drop_last()) + events_of(pages.last())
    }
}

/// Taking two courses of events in a row is taking their concatenation.
pub proof fn lemma_after_concat(run: CrawlView, first: Seq<EventView>, second: Seq<EventView>)
    ensures
        after(run, first + second) == after(after(run, first), second),
    decreases second.len(),
{
    if second.len() == 0 {
        assert(first + second =~= first);
    } else {
        lemma_after_concat(run, first, second.drop_last());
        assert((first + second).drop_last() =~= first + second.drop_last());
        assert((first + second).last() == second.last());
    }
}

/// What one faculty without a table adds to a run: nothing. The run turns
/// to the next option.
pub proof fn lemma_faculty_without_table(run: CrawlView, label: Seq<char>)
    requires
        well_formed(run),
        run.stage == Stage::NotSelected,
    ensures
        after(run, seq![EventView::Selected(label), EventView::TableMissing]) == turned_to(
            run,
            run.cursor + 1,
        ).0,
{
    let e1 = EventView::Selected(label);
    let e2 = EventView::TableMissing;
    let s0: Seq<EventView> = seq![];
    let s1 = seq![e1];
    let s2 = seq![e1, e2];
    assert(s1.drop_last() =~= s0);
    assert(s2.drop_last() =~= s1);
    assert(after(run, s0) == run);
    assert(after(run, s1) == next(run, e1).0);
    assert(after(run, s2) == next(after(run, s1), e2).0);
}

/// What the visit of one readable faculty adds to a run: the records that
/// the faculty stands for. The run then turns to the next option.
pub proof fn lemma_visit(run: CrawlView, page: FacultyPage)
    requires
        well_formed(run),
        run.stage == Stage::NotSelected,
        readable(page),
    ensures
        after(run, events_of(page)) == turned_to(
            CrawlView { records: run.records + records_of(page), ..run },
            run.cursor + 1,
        ).0,
{
    match page.table {
        Some(table) => {
            let rows = table.rows.len() as usize;
            if table.rows.len() > HEADER_ROW {
                lemma_faculty_with_table(
                    run,
                    page.label,
                    rows,
                    table.rows[HEADER_ROW as int],
                    table.body,
                );
            } else {
                lemma_faculty_without_header(run, page.label, rows, table.body);
            }
        },
        None => {
            lemma_faculty_without_table(run, page.label);
            assert(run.records + Seq::<MajorView>::empty() =~= run.records);
        },
    }
}

/// Where a run stands after the first `done` faculties of a list.
proof fn lemma_run_upto(option_count: usize, pages: Seq<FacultyPage>, done: int)
    requires
        pages.len() == if option_count > 0 {
            option_count - FIRST_FACULTY
        } else {
            0
        },
        forall|i: int| 0 <= i < pages.len() ==> readable(#[trigger] pages[i]),
        0 <= done <= pages.len(),
    ensures
        ({
            let run = after(
                initial(),
                seq![EventView::Options(option_count)] + events_of_all(pages.take(done)),
            );
            &&& well_formed(run)
            &&& run.option_count == option_count
            &&& run.records == records_of_all(pages.take(done))
            &&& done < pages.len() ==> run.stage == Stage::NotSelected && run.cursor == done
                + FIRST_FACULTY
            &&& done == pages.len() ==> run.stage == Stage::Finished
        }),
    decreases done,
{
    let listed = seq![EventView::Options(option_count)];
    if done == 0 {
        assert(pages.take(0) =~= Seq::<FacultyPage>::empty());
        assert(listed + Seq::<EventView>::empty() =~= listed);
        assert(listed.drop_last() =~= Seq::<EventView>::empty());
        assert(after(initial(), Seq::<EventView>::empty()) == initial());
        assert(after(initial(), listed) == next(initial(), listed.last()).0);
    } else {
        let before = pages.take(done - 1);
        let page = pages[done - 1];
        lemma_run_upto(option_count, pages, done - 1);
        assert(pages.take(done).drop_last() =~= before);
        assert(pages.take(done).last() == page);
        let run = after(initial(), listed + events_of_all(before));
        lemma_after_concat(initial(), listed + events_of_all(before), events_of(page));
        assert(listed + events_of_all(pages.take(done)) =~= (listed + events_of_all(before))
            + events_of(page));
        lemma_visit(run, page);
        let gathered = CrawlView { records: run.records + records_of(page), ..run };
        assert forall|i: int| 0 <= i < gathered.records.len() implies distinct_keys(
            (#[trigger] gathered.records[i]).scores,
        ) by {
            if i < run.records.len() {
                assert(gathered.records[i] == run.records[i]);
            } else {
                lemma_records_of_are_well_formed(page, i - run.records.len());
            }
        }
    }
}

/// No record that a faculty stands for holds a subject twice.
proof fn lemma_records_of_are_well_formed(page: FacultyPage, i: int)
    requires
        0 <= i < records_of(page).len(),
    ensures
        distinct_keys(records_of(page)[i].scores),
{
    let table = page.table.unwrap();
    lemma_scores_of(table.body[i], discovered(table.rows).unwrap());
}

/// A run over a list of readable faculties finishes and holds exactly the
/// records they stand for: faculty by faculty in list order, and row by row
/// within a faculty. The option before the first faculty adds nothing.
pub proof fn lemma_run_gathers_all(option_count: usize, pages: Seq<FacultyPage>)
    requires
        pages.len() == if option_count > 0 {
            option_count - FIRST_FACULTY
        } else {
            0
        },
        forall|i: int| 0 <= i < pages.len() ==> readable(#[trigger] pages[i]),
    ensures
        ({
            let run = after(
                initial(),
                seq![EventView::Options(option_count)] + events_of_all(pages),
            );
            run.stage == Stage::Finished && run.records == records_of_all(pages)
        }),
{
    lemma_run_upto(option_count, pages, pages.len() as int);
    assert(pages.take(pages.len() as int) =~= pages);
}

/// Running again over unchanged faculties gives the same records in the
/// same order: whatever two runs were, if both took the events of the same
/// list of faculties, both hold the records that the list stands for.
pub proof fn lemma_rerun_is_identical(
    option_count: usize,
    pages: Seq<FacultyPage>,
    first: Crawl,
    second: Crawl,
)
    requires
        pages.len() == if option_count > 0 {
            option_count - FIRST_FACULTY
        } else {
            0
        },
        forall|i: int| 0 <= i < pages.len() ==> readable(#[trigger] pages[i]),
        first@ == after(initial(), seq![EventView::Options(option_count)] + events_of_all(pages)),
        second@ == after(initial(), seq![EventView::Options(option_count)] + events_of_all(pages)),
    ensures
        first@.records == records_of_all(pages),
        second@.records == first@.records,
        first@.stage == Stage::Finished && second@.stage == Stage::Finished,
{
    lemma_run_gathers_all(option_count, pages);
}

} // verus!
