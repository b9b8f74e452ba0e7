//! Discovery of a faculty's subject keys from the header of its table.

use crate::text::{first_token, first_word, grid, lemma_first_word, texts};
use vstd::prelude::*;

verus! {

/// The row of a table that holds the header cells. The row before it is a
/// title row of the page and carries no labels.
pub const HEADER_ROW: usize = 1;

/// The number of leading header cells that label the two quota columns and
/// name no subject.
pub const QUOTA_LABELS: usize = 2;

/// Whether every subject label of the header has a token to serve as its key.
pub open spec fn labelled(header: Seq<Seq<char>>) -> bool {
    forall|i: int| QUOTA_LABELS <= i < header.len() ==> first_word(#[trigger] header[i]) is Some
}

/// The subject keys of a header: the first whitespace-delimited token of
/// each label after the two quota labels, in the order of the labels.
pub open spec fn keys_of(header: Seq<Seq<char>>) -> Seq<Seq<char>> {
    Seq::new(
        if header.len() >= QUOTA_LABELS {
            (header.len() - QUOTA_LABELS) as nat
        } else {
            0
        },
        |j: int| first_word(header[j + QUOTA_LABELS]).unwrap(),
    )
}

/// The subject keys of a table, given the header cells of each of its rows:
/// none for a table without a header row, `None` where a subject label of
/// the header row is blank.
pub open spec fn discovered(rows: Seq<Seq<Seq<char>>>) -> Option<Seq<Seq<char>>> {
    if rows.len() <= HEADER_ROW {
        Some(Seq::empty())
    } else if labelled(rows[HEADER_ROW as int]) {
        Some(keys_of(rows[HEADER_ROW as int]))
    } else {
        None
    }
}

/// Whether every subject label of `header` has a key.
pub fn is_labelled(header: &[String]) -> (ok: bool)
    ensures
        ok == labelled(texts(header@)),
{
    let mut i: usize = QUOTA_LABELS;
    while i < header.len()
        invariant
            QUOTA_LABELS <= i,
            forall|k: int|
                QUOTA_LABELS <= k < i && k < header@.len() ==> first_word(
                    #[trigger] texts(header@)[k],
                ) is Some,
        decreases header@.len() - i,
    {
        if first_token(header[i].as_str()).is_none() {
            assert(first_word(texts(header@)[i as int]) is None);
            return false;
        }
        i += 1;
    }
    true
}

/// The subject keys of a header row, in the order of its labels. The first
/// two labels belong to the quota columns and give no key.
pub fn subject_keys(header: &[String]) -> (keys: Vec<String>)
    requires
        labelled(texts(header@)),
    ensures
        texts(keys@) == keys_of(texts(header@)),
        keys@.len() == if header@.len() >= QUOTA_LABELS {
            header@.len() - QUOTA_LABELS
        } else {
            0
        },
        forall|j: int|
            0 <= j < keys@.len() ==> first_word(header@[j + QUOTA_LABELS]@) == Some(
                (#[trigger] keys@[j])@,
            ),
{
    let mut keys: Vec<String> = Vec::new();
    let mut i: usize = QUOTA_LABELS;
    while i < header.len()
        invariant
            QUOTA_LABELS <= i,
            labelled(texts(header@)),
            i <= header@.len() || i == QUOTA_LABELS,
            keys@.len() == i - QUOTA_LABELS,
            forall|j: int|
                0 <= j < keys@.len() ==> first_word(header@[j + QUOTA_LABELS]@) == Some(
                    (#[trigger] keys@[j])@,
                ),
        decreases header@.len() - i,
    {
        assert(first_word(texts(header@)[i as int]) is Some);
        match first_token(header[i].as_str()) {
            Some(key) => {
                keys.push(key);
            },
            None => {},
        }
        i += 1;
    }
    assert forall|j: int| 0 <= j < keys@.len() implies texts(keys@)[j] == keys_of(
        texts(header@),
    )[j] by {
        assert(texts(header@)[j + QUOTA_LABELS] == header@[j + QUOTA_LABELS]@);
        assert(first_word(header@[j + QUOTA_LABELS]@) == Some(keys@[j]@));
    }
    assert(texts(keys@) =~= keys_of(texts(header@)));
    keys
}

/// Discovers the subject keys of a table from the header cells of its rows.
/// A table with fewer than two rows has no subjects. The result is `None`
/// exactly where a subject label of the header row is empty or all
/// whitespace, so that it has no token to take as the key.
pub fn discover_subjects(rows: &[Vec<String>]) -> (r: Option<Vec<String>>)
    ensures
        r is Some <==> discovered(grid(rows@)) is Some,
        r matches Some(keys) ==> discovered(grid(rows@)) == Some(texts(keys@)),
{
    if rows.len() <= HEADER_ROW {
        let keys: Vec<String> = Vec::new();
        assert(texts(keys@) =~= Seq::<Seq<char>>::empty());
        Some(keys)
    } else {
        let header = rows[HEADER_ROW].as_slice();
        if is_labelled(header) {
            Some(subject_keys(header))
        } else {
            None
        }
    }
}

/// A label has a key exactly when some character of it is not whitespace,
/// and a key is never empty and holds no whitespace.
pub proof fn lemma_keys_are_tokens(header: Seq<Seq<char>>, j: int)
    requires
        labelled(header),
        0 <= j < keys_of(header).len(),
    ensures
        keys_of(header)[j].len() > 0,
        forall|k: int|
            0 <= k < keys_of(header)[j].len() ==> !crate::text::is_white_space(
                #[trigger] keys_of(header)[j][k],
            ),
{
    lemma_first_word(header[j + QUOTA_LABELS]);
}

} // verus!
