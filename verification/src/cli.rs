//! The answers that a person gives about their birthday, read and judged.
use crate::date::{before, full_years_between, parse_spec, Civil, Date, ParseError, MAX_YEARS_OLD};
use vstd::prelude::*;

verus! {

/// What a person is told when their birthday cannot be read.
pub open spec fn error_message(e: ParseError) -> Seq<char> {
    match e {
        ParseError::SeparatorNotFound => "Use '/', or '.', or '-', or whitespace as separator between day, month and year."@,
        ParseError::InvalidPartsCount => "Invalid should be DD/MM/YYYY - day, month and year."@,
        ParseError::NumberConversionError => "Invalid number."@,
        ParseError::InvalidYear => "Invalid year."@,
        ParseError::InvalidMonth => "Invalid month."@,
        ParseError::InvalidDay => "Invalid day."@,
    }
}

/// What a person is told when their birthday is yet to come.
pub open spec fn future_message() -> Seq<char> {
    "Your birthday cannot be in the future."@
}

/// What a person is told when they have reached the longest lifespan.
pub open spec fn too_old_message() -> Seq<char> {
    "Your age must be less than 100 years."@
}

/// The birthday that a text gives on the day `today`, or what is wrong with
/// it: a text that is no date, or a date after `today`.
pub open spec fn birthday_spec(text: Seq<char>, today: Civil) -> Result<Civil, Seq<char>> {
    match parse_spec(text) {
        Err(e) => Err(error_message(e)),
        Ok(birthday) => if before(today, birthday) {
            Err(future_message())
        } else {
            Ok(birthday)
        },
    }
}

/// The age, in full years on the day `today`, that a text with a birthday
/// gives, or what is wrong with it: a birthday that cannot be had, or an age
/// that is not below the longest lifespan.
pub open spec fn age_spec(text: Seq<char>, today: Civil) -> Result<int, Seq<char>> {
    match birthday_spec(text, today) {
        Err(message) => Err(message),
        Ok(birthday) => if full_years_between(birthday, today) >= MAX_YEARS_OLD {
            Err(too_old_message())
        } else {
            Ok(full_years_between(birthday, today))
        },
    }
}

/// The message for a text that is no date.
pub fn describe(e: ParseError) -> (r: String)
    ensures
        r@ == error_message(e),
{
    let message: &'static str = match e {
        ParseError::SeparatorNotFound => "Use '/', or '.', or '-', or whitespace as separator between day, month and year.",
        ParseError::InvalidPartsCount => "Invalid should be DD/MM/YYYY - day, month and year.",
        ParseError::NumberConversionError => "Invalid number.",
        ParseError::InvalidYear => "Invalid year.",
        ParseError::InvalidMonth => "Invalid month.",
        ParseError::InvalidDay => "Invalid day.",
    };
    message.to_owned()
}

/// Reads a birthday from a text, on the day `today`. A birthday after `today`
/// is refused.
pub fn parse_birthday(string: &String, today: Date) -> (r: Result<Date, String>)
    ensures
        match r {
            Ok(birthday) => birthday_spec(string@, today@) == Ok::<Civil, Seq<char>>(birthday@),
            Err(message) => birthday_spec(string@, today@) == Err::<Civil, Seq<char>>(message@),
        },
{
    let birthday = match Date::parse(string) {
        Ok(d) => d,
        Err(e) => {
            return Err(describe(e));
        },
    };
    if today < birthday {
        return Err("Your birthday cannot be in the future.".to_owned());
    }
    Ok(birthday)
}

/// Reads a birthday from a text and gives the age that it makes on the day
/// `today`. An age that is not below the longest lifespan is refused.
pub fn birthday_age(string: &String, today: Date) -> (r: Result<u8, String>)
    ensures
        match r {
            Ok(age) => age_spec(string@, today@) == Ok::<int, Seq<char>>(age as int),
            Err(message) => age_spec(string@, today@) == Err::<int, Seq<char>>(message@),
        },
{
    let birthday = match parse_birthday(string, today) {
        Ok(d) => d,
        Err(message) => {
            return Err(message);
        },
    };
    let years: u16 = birthday.years_from(today);
    if years >= MAX_YEARS_OLD {
        return Err("Your age must be less than 100 years.".to_owned());
    }
    Ok(years as u8)
}

} // verus!
