//! The prediction: a person's number, age and list of causes, and the date
//! and cause that follow from them.
use crate::cli::{age_spec, birthday_age};
use crate::date::{days_in_month, valid, Civil, Date, MAX_YEARS_OLD};
use crate::text::texts;
use crate::{read_death_reasons, reasons_message, wanted_reasons, ReasonsError};
use std::collections::hash_map::DefaultHasher;
use std::hash::{BuildHasher, BuildHasherDefault};
use vstd::prelude::*;

verus! {

/// The mathematical model of a `User`.
pub ghost struct Profile {
    pub id: int,
    pub age: int,
    pub reasons: Seq<Seq<char>>,
}

/// Why a user cannot be made.
#[derive(Debug, PartialEq, Eq, Clone, Copy, Structural)]
pub enum UserError {
    /// The age is not below the longest lifespan.
    AgeTooHigh,
    /// The list of causes is empty.
    NoDeathReasons,
}

/// A person: the number drawn from their name, their age in years, and the
/// causes one of which will be theirs.
#[derive(Debug)]
pub struct User {
    id: u64,
    age: u8,
    death_reasons: Vec<String>,
}

/// Years left to a person: one more than the remainder of their number by
/// the years that separate their age from the longest lifespan.
pub open spec fn years_left(id: int, age: int) -> int {
    id % (MAX_YEARS_OLD - age) + 1
}

/// The day of `year` that a number picks: the month is one more than the
/// remainder of the number by 12, the day one more than its remainder by
/// that month's length.
pub open spec fn predicted_date(id: int, year: int) -> Civil {
    let month = id % 12 + 1;
    Civil { year, month, day: id % days_in_month(year, month) + 1 }
}

/// The day that awaits a person on the day `today`: the day that their
/// number picks in the year that lies their years left after the year of
/// `today`. There is none where that year is past 65535.
pub open spec fn death_date_spec(p: Profile, today: Civil) -> Option<Civil> {
    let year = today.year + years_left(p.id, p.age);
    if year <= u16::MAX {
        Some(predicted_date(p.id, year))
    } else {
        None
    }
}

/// What making a user of a number, an age and a list of causes gives. The
/// age is judged first, then the list.
pub open spec fn new_spec(id: int, age: int, reasons: Seq<Seq<char>>) -> Result<
    Profile,
    UserError,
> {
    if age >= MAX_YEARS_OLD {
        Err(UserError::AgeTooHigh)
    } else if reasons.len() == 0 {
        Err(UserError::NoDeathReasons)
    } else {
        Ok(Profile { id, age, reasons })
    }
}

/// The cause that a number picks in a list: the one at the remainder of the
/// number by the list's length.
pub open spec fn predicted_reason(id: int, reasons: Seq<Seq<char>>) -> Seq<char> {
    reasons[id % (reasons.len() as int)]
}

/// The number that a name stands for: the hash that std's `DefaultHasher`
/// gives to the name.
pub uninterp spec fn name_hash(name: Seq<char>) -> u64;

/// The birthday that is taken where none is given.
pub open spec fn default_birthday() -> Seq<char> {
    "01/01/1970"@
}

/// The text that an optional string holds, the empty text where there is
/// none.
pub open spec fn text_or(given: Option<String>, otherwise: Seq<char>) -> Seq<char> {
    match given {
        Some(text) => text@,
        None => otherwise,
    }
}

/// The user that a name, a birthday and the contents of a file of causes
/// make on the day `today`, each of the three optional. The birthday is
/// judged first, then the causes.
pub open spec fn from_spec(
    name: Option<String>,
    birthday: Option<String>,
    contents: Option<String>,
    today: Civil,
) -> Result<Profile, Seq<char>> {
    match age_spec(text_or(birthday, default_birthday()), today) {
        Err(message) => Err(message),
        Ok(age) => if wanted_reasons(contents).len() == 0 {
            Err(reasons_message(ReasonsError::FileIsEmpty))
        } else {
            Ok(
                Profile {
                    id: name_hash(text_or(name, Seq::<char>::empty())) as int,
                    age,
                    reasons: wanted_reasons(contents),
                },
            )
        },
    }
}

/// The years left always lie between 1 and the distance from the age to the
/// longest lifespan.
pub proof fn lemma_years_left_in_range(id: int, age: int)
    requires
        0 <= id,
        0 <= age < MAX_YEARS_OLD,
    ensures
        1 <= years_left(id, age) <= MAX_YEARS_OLD - age,
{
}

/// The predicted day is a real day of its year: its month lies between 1 and
/// 12 and its day between 1 and the length of that month.
pub proof fn lemma_predicted_date_valid(id: int, year: int)
    requires
        0 <= id,
        1 <= year,
    ensures
        predicted_date(id, year).year == year,
        1 <= predicted_date(id, year).month <= 12,
        1 <= predicted_date(id, year).day <= days_in_month(year, predicted_date(id, year).month),
        valid(predicted_date(id, year)),
{
}

/// The predicted cause is one of the list's entries.
pub proof fn lemma_predicted_reason_listed(id: int, reasons: Seq<Seq<char>>)
    requires
        0 <= id,
        reasons.len() > 0,
    ensures
        reasons.contains(predicted_reason(id, reasons)),
{
    let i = id % (reasons.len() as int);
    assert(reasons[i] == predicted_reason(id, reasons));
}

impl View for User {
    type V = Profile;

    closed spec fn view(&self) -> Profile {
        Profile { id: self.id as int, age: self.age as int, reasons: texts(self.death_reasons@) }
    }
}

impl User {
    /// Every `User` is younger than the longest lifespan and has at least
    /// one cause.
    #[verifier::type_invariant]
    pub open spec fn inv(self) -> bool {
        &&& 0 <= self@.id <= u64::MAX
        &&& 0 <= self@.age < MAX_YEARS_OLD
        &&& self@.reasons.len() > 0
    }

    /// Makes a user of a number, an age and a list of causes. An age that is
    /// not below the longest lifespan is refused, and so is an empty list.
    pub fn new(id: u64, age: u8, death_reasons: Vec<String>) -> (r: Result<User, UserError>)
        ensures
            match r {
                Ok(user) => new_spec(id as int, age as int, texts(death_reasons@)) == Ok::<
                    Profile,
                    UserError,
                >(user@),
                Err(e) => new_spec(id as int, age as int, texts(death_reasons@)) == Err::<
                    Profile,
                    UserError,
                >(e),
            },
    {
        if age as u16 >= MAX_YEARS_OLD {
            return Err(UserError::AgeTooHigh);
        }
        if death_reasons.len() == 0 {
            return Err(UserError::NoDeathReasons);
        }
        Ok(User { id, age, death_reasons })
    }

    /// Makes a user of what a person gave on the day `today`: a name, a
    /// birthday and the contents of a file of causes. Where the name is
    /// missing the empty name is taken, where the birthday is missing the
    /// first day of 1970, and where the contents are missing the default
    /// causes. What is wrong with the birthday or the causes comes back as a
    /// message.
    pub fn from(
        name: &Option<String>,
        birthday: &Option<String>,
        contents: &Option<String>,
        today: Date,
    ) -> (r: Result<User, String>)
        ensures
            match r {
                Ok(user) => from_spec(*name, *birthday, *contents, today@) == Ok::<
                    Profile,
                    Seq<char>,
                >(user@),
                Err(message) => from_spec(*name, *birthday, *contents, today@) == Err::<
                    Profile,
                    Seq<char>,
                >(message@),
            },
    {
        let birthday_text: String = match birthday {
            Some(text) => text.clone(),
            None => "01/01/1970".to_owned(),
        };
        let age: u8 = match birthday_age(&birthday_text, today) {
            Ok(age) => age,
            Err(message) => {
                return Err(message);
            },
        };
        let death_reasons = match read_death_reasons(contents) {
            Ok(reasons) => reasons,
            Err(e) => {
                return Err(e.message());
            },
        };
        let name_text: String = match name {
            Some(text) => text.clone(),
            None => String::new(),
        };
        let id = User::get_id_from_string(&name_text);
        Ok(User::new(id, age, death_reasons).unwrap())
    }

    /// Replaces the user's number.
    pub fn set_id(&mut self, id: u64)
        ensures
            final(self)@ == (Profile { id: id as int, ..old(self)@ }),
    {
        proof {
            use_type_invariant(&*self);
        }
        self.id = id;
    }

    /// Replaces the user's age, which stays below the longest lifespan.
    pub fn set_age(&mut self, age: u8)
        requires
            age < MAX_YEARS_OLD,
        ensures
            final(self)@ == (Profile { age: age as int, ..old(self)@ }),
    {
        proof {
            use_type_invariant(&*self);
        }
        self.age = age;
    }

    /// The number that a name stands for. The same name gives the same
    /// number. This is std's `BuildHasher::hash_one` on a `DefaultHasher`
    /// with its fixed keys, which the contract names and does not describe.
    #[verifier::external_body]
    pub fn get_id_from_string(string: &String) -> (id: u64)
        ensures
            id == name_hash(string@),
    {
        BuildHasherDefault::<DefaultHasher>::default().hash_one(string)
    }

    /// The years left to this user, from 1 to the distance from their age to
    /// the longest lifespan.
    pub fn get_years_left(&self) -> (r: u8)
        ensures
            r == years_left(self@.id, self@.age),
            1 <= r <= MAX_YEARS_OLD - self@.age,
    {
        proof {
            use_type_invariant(self);
        }
        let span: u64 = (MAX_YEARS_OLD - self.age as u16) as u64;
        (self.id % span + 1) as u8
    }

    /// The cause that awaits this user: always the same one of the list.
    pub fn get_death_reason(&self) -> (r: &String)
        ensures
            r@ == predicted_reason(self@.id, self@.reasons),
            self@.reasons.contains(r@),
    {
        proof {
            use_type_invariant(self);
            lemma_predicted_reason_listed(self@.id, self@.reasons);
        }
        let i: usize = (self.id % (self.death_reasons.len() as u64)) as usize;
        &self.death_reasons[i]
    }

    /// The day that awaits this user when `years_left` years are added to the
    /// year of `today`.
    pub fn death_date_after(&self, today: Date, years_left: u8) -> (r: Date)
        requires
            today@.year + years_left <= u16::MAX,
        ensures
            r@ == predicted_date(self@.id, today@.year + years_left),
    {
        proof {
            use_type_invariant(self);
            use_type_invariant(&today);
        }
        let year: u16 = today.year() + years_left as u16;
        let month: u8 = (self.id % 12 + 1) as u8;
        let first = Date::build(year, month, 1).unwrap();
        let day: u8 = (self.id % (first.get_max_day() as u64) + 1) as u8;
        Date::build(year, month, day).unwrap()
    }

    /// The day that awaits this user on the day `today`: their years left
    /// are added to the year of `today`. There is none where that year is
    /// past 65535.
    pub fn get_death_date(&self, today: Date) -> (r: Option<Date>)
        ensures
            match r {
                Some(d) => death_date_spec(self@, today@) == Some(d@),
                None => death_date_spec(self@, today@) is None,
            },
    {
        proof {
            use_type_invariant(&today);
        }
        let left: u8 = self.get_years_left();
        if today.year() > u16::MAX - left as u16 {
            return None;
        }
        Some(self.death_date_after(today, left))
    }
}

} // verus!
