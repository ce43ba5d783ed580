//! A small fortune teller: calendar arithmetic on validated dates, and a
//! deterministic prediction of a date and a cause drawn from a name's hash.
use crate::text::{
    chars_of, is_piece, lemma_trim_is_idempotent, split, split_ranges, texts, trim, trim_range,
};
use vstd::prelude::*;
use vstd::string::*;

pub mod cli;
pub mod date;
pub mod text;
pub mod user;

verus! {

/// Why a list of causes could not be had.
#[derive(Debug, PartialEq, Eq, Clone, Copy, Structural)]
pub enum ReasonsError {
    /// The text holds no line with anything but white space on it.
    FileIsEmpty,
}

/// What a person is told when a list of causes could not be had.
pub open spec fn reasons_message(e: ReasonsError) -> Seq<char> {
    "File is empty"@
}

impl ReasonsError {
    /// The words for this error.
    pub fn message(&self) -> (r: String)
        ensures
            r@ == reasons_message(*self),
    {
        "File is empty".to_owned()
    }
}

/// The causes that are used where no others are given.
pub open spec fn default_reasons() -> Seq<Seq<char>> {
    seq![
        "cars"@,
        "illness"@,
        "height"@,
        "darkness"@,
        "fire"@,
        "water"@,
        "nature"@,
        "construction"@,
        "electricity"@,
        "explosions"@,
        "food"@,
        "animals"@,
        "temperature"@,
        "weapons"@,
    ]
}

/// Of a list of lines, those that are more than white space, each trimmed,
/// in their order.
pub open spec fn kept_lines(lines: Seq<Seq<char>>) -> Seq<Seq<char>>
    decreases lines.len(),
{
    if lines.len() == 0 {
        Seq::<Seq<char>>::empty()
    } else {
        let line = trim(lines.last());
        if line.len() > 0 {
            kept_lines(lines.drop_last()).push(line)
        } else {
            kept_lines(lines.drop_last())
        }
    }
}

/// Every kept line holds something, and neither starts nor ends with white
/// space: trimming it again changes nothing.
pub proof fn lemma_kept_lines_are_trimmed(lines: Seq<Seq<char>>)
    ensures
        forall|k: int|
            0 <= k < kept_lines(lines).len() ==> (#[trigger] kept_lines(lines)[k]).len() > 0
                && trim(kept_lines(lines)[k]) == kept_lines(lines)[k],
    decreases lines.len(),
{
    if lines.len() > 0 {
        let kept = kept_lines(lines);
        let init = kept_lines(lines.drop_last());
        lemma_kept_lines_are_trimmed(lines.drop_last());
        lemma_trim_is_idempotent(lines.last());
        assert forall|k: int| 0 <= k < kept.len() implies (#[trigger] kept[k]).len() > 0 && trim(
            kept[k],
        ) == kept[k] by {
            if k < init.len() {
                assert(kept[k] == init[k]);
            }
        }
    }
}

/// The causes that a text lists, one to a line.
pub open spec fn reasons_in(text: Seq<char>) -> Seq<Seq<char>> {
    kept_lines(split(text, '\n'))
}

/// The causes that an optional text gives: its own, or the default ones
/// where there is no text.
pub open spec fn wanted_reasons(contents: Option<String>) -> Seq<Seq<char>> {
    match contents {
        Some(text) => reasons_in(text@),
        None => default_reasons(),
    }
}

/// Returns the default causes.
pub fn default_death_reasons() -> (r: Vec<String>)
    ensures
        texts(r@) == default_reasons(),
        r@.len() == 14,
{
    let r = vec![
        "cars".to_owned(),
        "illness".to_owned(),
        "height".to_owned(),
        "darkness".to_owned(),
        "fire".to_owned(),
        "water".to_owned(),
        "nature".to_owned(),
        "construction".to_owned(),
        "electricity".to_owned(),
        "explosions".to_owned(),
        "food".to_owned(),
        "animals".to_owned(),
        "temperature".to_owned(),
        "weapons".to_owned(),
    ];
    assert(texts(r@) =~= default_reasons());
    r
}

/// Returns the causes listed in the contents of a file, one to a line, each
/// trimmed, lines of white space left out; or the default causes where no
/// contents are given. Contents that list no cause are an error.
pub fn read_death_reasons(contents: &Option<String>) -> (r: Result<Vec<String>, ReasonsError>)
    ensures
        match r {
            Ok(reasons) => texts(reasons@) == wanted_reasons(*contents) && reasons@.len() > 0,
            Err(e) => wanted_reasons(*contents).len() == 0,
        },
{
    let text = match contents {
        Some(text) => text,
        None => {
            let reasons = default_death_reasons();
            assert(texts(reasons@).len() == reasons@.len());
            assert(default_reasons().len() == 14);
            return Ok(reasons);
        },
    };
    let chars = chars_of(text.as_str());
    let ranges = split_ranges(&chars, '\n');
    let ghost lines = split(text@, '\n');
    let mut res: Vec<String> = Vec::new();
    let mut k: usize = 0;
    while k < ranges.len()
        invariant
            k <= ranges@.len(),
            chars@ == text@,
            lines == split(text@, '\n'),
            ranges@.len() == lines.len(),
            forall|j: int|
                0 <= j < ranges@.len() ==> is_piece(chars@, #[trigger] ranges@[j], lines[j]),
            texts(res@) == kept_lines(lines.take(k as int)),
        decreases ranges@.len() - k,
    {
        let range = ranges[k];
        let kept = trim_range(&chars, range.0, range.1);
        let ghost before = res@;
        proof {
            assert(lines.take(k + 1).drop_last() =~= lines.take(k as int));
            assert(lines.take(k + 1).last() == lines[k as int]);
        }
        if kept.0 < kept.1 {
            let line = text.as_str().substring_char(kept.0, kept.1).to_owned();
            res.push(line);
            proof {
                assert(texts(res@) =~= texts(before).push(line@));
            }
        }
        k += 1;
    }
    proof {
        assert(lines.take(k as int) =~= lines);
    }
    if res.len() == 0 {
        Err(ReasonsError::FileIsEmpty)
    } else {
        Ok(res)
    }
}

} // verus!
