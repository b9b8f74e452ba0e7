use score_table::layout::{field_at, Field};
use score_table::record::{decode_row, decode_rows, Major};
use score_table::scores::Scores;

fn strings(items: &[&str]) -> Vec<String> {
    items.iter().map(|item| item.to_string()).collect()
}

fn pairs(scores: &Scores) -> Vec<(String, i8)> {
    let mut out = Vec::new();
    for at in 0..scores.len() {
        let entry = scores.entry(at);
        out.push((entry.subject.clone(), entry.score));
    }
    out
}

#[test]
fn layout_has_four_fixed_columns() {
    assert_eq!(field_at(0, 3), Some(Field::Id));
    assert_eq!(field_at(1, 3), Some(Field::Name));
    assert_eq!(field_at(2, 3), Some(Field::Regular));
    assert_eq!(field_at(3, 3), Some(Field::Special));
    assert_eq!(field_at(0, 0), Some(Field::Id));
    assert_eq!(field_at(3, 0), Some(Field::Special));
}

#[test]
fn layout_maps_the_tail_to_subjects() {
    assert_eq!(field_at(4, 3), Some(Field::Score(0)));
    assert_eq!(field_at(6, 3), Some(Field::Score(2)));
    assert_eq!(field_at(7, 3), None);
    assert_eq!(field_at(4, 0), None);
    assert_eq!(field_at(usize::MAX, usize::MAX), Some(Field::Score(usize::MAX - 4)));
}

#[test]
fn scores_keep_recording_order() {
    let mut scores = Scores::new();
    assert_eq!(scores.len(), 0);
    scores.insert("Math".to_string(), 25);
    scores.insert("Eng".to_string(), 10);
    scores.insert("Math".to_string(), 30);
    assert_eq!(pairs(&scores), vec![("Math".to_string(), 30), ("Eng".to_string(), 10)]);
    assert_eq!(scores.get("Math"), Some(30));
    assert_eq!(scores.get("Eng"), Some(10));
    assert_eq!(scores.get("Thai"), None);
    assert_eq!(scores.get("math"), None);
}

#[test]
fn blank_record_has_defaults() {
    let major = Major::default();
    assert_eq!(major.id, "");
    assert_eq!(major.faculty, "");
    assert_eq!(major.name, "");
    assert_eq!(major.student_in_regular, 0);
    assert_eq!(major.student_in_special, 0);
    assert_eq!(major.scores.len(), 0);
}

#[test]
fn row_is_decoded_by_position() {
    let cells = strings(&["01010101", "Civil Engineering*", "40", "10", "25", "0"]);
    let subjects = strings(&["Math", "Eng"]);
    let major = decode_row(&cells, "Engineering", &subjects);
    assert_eq!(major.id, "01010101");
    assert_eq!(major.faculty, "Engineering");
    assert_eq!(major.name, "Civil Engineering");
    assert_eq!(major.student_in_regular, 40);
    assert_eq!(major.student_in_special, 10);
    assert_eq!(pairs(&major.scores), vec![("Math".to_string(), 25)]);
    assert_eq!(major.scores.get("Eng"), None);
}

#[test]
fn quotas_default_to_zero() {
    let cells = strings(&["7", "Nursing", "-", "", "12"]);
    let major = decode_row(&cells, "Health", &strings(&["Bio"]));
    assert_eq!(major.student_in_regular, 0);
    assert_eq!(major.student_in_special, 0);
    assert_eq!(major.scores.get("Bio"), Some(12));
}

#[test]
fn non_positive_scores_leave_no_entry() {
    let cells = strings(&["1", "A", "1", "1", "0", "-5", "x", "", "3"]);
    let subjects = strings(&["S0", "S1", "S2", "S3", "S4"]);
    let major = decode_row(&cells, "F", &subjects);
    assert_eq!(pairs(&major.scores), vec![("S4".to_string(), 3)]);
    for at in 0..major.scores.len() {
        assert!(major.scores.entry(at).score > 0);
    }
}

#[test]
fn cells_beyond_the_subjects_are_passed_over() {
    let cells = strings(&["1", "A", "2", "3", "10", "20", "30"]);
    let major = decode_row(&cells, "F", &strings(&["X"]));
    assert_eq!(pairs(&major.scores), vec![("X".to_string(), 10)]);
}

#[test]
fn subjects_beyond_the_cells_have_no_entry() {
    let cells = strings(&["1", "A", "2", "3", "10"]);
    let major = decode_row(&cells, "F", &strings(&["X", "Y", "Z"]));
    assert_eq!(pairs(&major.scores), vec![("X".to_string(), 10)]);
}

#[test]
fn short_rows_keep_defaults() {
    let none = decode_row(&strings(&[]), "F", &strings(&["X"]));
    assert_eq!(none.id, "");
    assert_eq!(none.name, "");
    assert_eq!(none.faculty, "F");
    let two = decode_row(&strings(&["9", "B*"]), "F", &strings(&["X"]));
    assert_eq!(two.id, "9");
    assert_eq!(two.name, "B");
    assert_eq!(two.student_in_regular, 0);
    assert_eq!(two.student_in_special, 0);
    assert_eq!(two.scores.len(), 0);
}

#[test]
fn repeated_subject_takes_the_last_positive_score() {
    let cells = strings(&["1", "A", "2", "3", "10", "5", "20", "0"]);
    let subjects = strings(&["Math", "Eng", "Math", "Eng"]);
    let major = decode_row(&cells, "F", &subjects);
    assert_eq!(pairs(&major.scores), vec![("Math".to_string(), 20), ("Eng".to_string(), 5)]);
}

#[test]
fn negative_quota_is_kept_as_read() {
    let cells = strings(&["1", "A", "-3", "+4"]);
    let major = decode_row(&cells, "F", &strings(&[]));
    assert_eq!(major.student_in_regular, -3);
    assert_eq!(major.student_in_special, 4);
}

#[test]
fn id_is_kept_verbatim() {
    let cells = strings(&[" 01* ", "N"]);
    let major = decode_row(&cells, "F", &strings(&[]));
    assert_eq!(major.id, " 01* ");
}

#[test]
fn rows_are_decoded_in_order() {
    let body = vec![
        strings(&["1", "A*", "5", "6", "7"]),
        strings(&[]),
        strings(&["3", "C", "x", "y", "0"]),
    ];
    let records = decode_rows(&body, "Science", &strings(&["Chem"]));
    assert_eq!(records.len(), 3);
    assert_eq!(records[0].id, "1");
    assert_eq!(records[0].name, "A");
    assert_eq!(records[0].scores.get("Chem"), Some(7));
    assert_eq!(records[1].id, "");
    assert_eq!(records[2].id, "3");
    assert_eq!(records[2].scores.len(), 0);
    for record in &records {
        assert_eq!(record.faculty, "Science");
    }
}

#[test]
fn empty_body_gives_no_records() {
    let body: Vec<Vec<String>> = Vec::new();
    assert_eq!(decode_rows(&body, "F", &strings(&["X"])).len(), 0);
}
