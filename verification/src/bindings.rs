//! The calls this library makes into code outside it: the parts of the
//! standard library that have no specification here, and the crates
//! `sha1`, `rust-ini` and `chrono`. Each item states what the called code
//! is taken to do; those statements are trusted, not proved.
use chrono::TimeZone;
use sha1::Digest;
use vstd::prelude::*;

use crate::dates::date_text;

verus! {

/// `String::from_iter` over characters: the text made of `chars`, in order.
#[verifier::external_body]
pub(crate) fn text_of(chars: &Vec<char>) -> (res: String)
    ensures
        res@ == chars@,
{
    chars.iter().collect()
}

/// `std::io::Error`, carried through as an opaque value.
#[verifier::external_type_specification]
#[verifier::external_body]
pub struct ExIoError(std::io::Error);

/// The text that `std::io::Error`'s `Display` impl writes. It depends on
/// the operating system's message for the error, so nothing is stated of it.
#[verifier::external_body]
pub(crate) fn io_error_text(e: &std::io::Error) -> String {
    e.to_string()
}

/// The SHA-1 digest of the UTF-8 encoding of a text. It is a function of
/// the text alone.
pub uninterp spec fn sha1_of_text(text: Seq<char>) -> Seq<u8>;

/// `sha1::Sha1::digest` on the bytes of `text`: the digest, twenty bytes
/// long (the length of `Sha1`'s output type).
#[verifier::external_body]
pub(crate) fn sha1_digest(text: &str) -> (res: Vec<u8>)
    ensures
        res@ == sha1_of_text(text@),
        res@.len() == 20,
{
    sha1::Sha1::digest(text.as_bytes()).to_vec()
}

/// Whether `chrono` can represent the moment `secs` seconds after the Unix
/// epoch: its dates run from January 1 of the year -262143 to December 31
/// of the year 262142 (`NaiveDate::MIN` and `NaiveDate::MAX`).
pub open spec fn chrono_in_range(secs: i64) -> bool {
    -8334601228800 <= secs && secs <= 8210266876799
}

/// Whether `chrono` can represent the moment `secs` seconds after the Unix
/// epoch.
pub fn date_in_range(secs: i64) -> (res: bool)
    ensures
        res == chrono_in_range(secs),
{
    -8334601228800 <= secs && secs <= 8210266876799
}

/// Whether `day` is the day number (days after January 1, 1970) of the
/// moment `secs` seconds after the Unix epoch as seen in some time zone
/// less than a day away from UTC.
pub open spec fn day_near(secs: int, day: int) -> bool {
    (secs - 86399) / 86400 <= day && day <= (secs + 86399) / 86400
}

/// `chrono::Local.timestamp_opt(secs, 0)`, formatted with `"%b %e %Y"`:
/// the local date of the moment `secs` seconds after the Unix epoch, such
/// as `Jan  1 1970`, written as `date_text` states for its day number
/// (chrono's English month abbreviations, `%e` padding the day with a
/// space, `%Y` writing four digits, or a sign and at least four digits
/// outside 0 to 9999). There is a result exactly when the moment is in
/// chrono's range. The local offset comes from the machine's time zone; it
/// is a `FixedOffset`, which chrono keeps strictly within a day of UTC, so
/// the text is that of the UTC date of `secs` plus some offset of less than
/// a day. Which offset is not stated; looking the zone up may also panic on
/// some zone data.
#[verifier::external_body]
pub(crate) fn local_date(secs: i64) -> (res: Option<String>)
    ensures
        res is Some <==> chrono_in_range(secs),
        res matches Some(t) ==> exists|day: int|
            day_near(secs as int, day) && t@ == #[trigger] date_text(day),
{
    match chrono::Local.timestamp_opt(secs, 0) {
        chrono::MappedLocalTime::Single(d) => Some(d.format("%b %e %Y").to_string()),
        _ => None,
    }
}

/// `ini::Ini`, an INI document; what the library reads of it is
/// `ini_values`.
#[verifier::external_type_specification]
#[verifier::external_body]
pub struct ExIni(ini::Ini);

/// `ini::ParseError`, carried through as an opaque value.
#[verifier::external_type_specification]
#[verifier::external_body]
pub struct ExIniParseError(ini::ParseError);

/// What an INI document holds in its named sections: for a section name
/// and a key, the first value of the key in the first section of that name
/// (the value `Ini::get_from` gives).
pub uninterp spec fn ini_values(conf: ini::Ini) -> Map<(Seq<char>, Seq<char>), Seq<char>>;

/// What `ini::Ini::load_from_str` makes of a text: `None` when it refuses
/// it, otherwise the values of the document it reads. It is a function of
/// the text alone.
pub uninterp spec fn ini_parse(text: Seq<char>) -> Option<Map<(Seq<char>, Seq<char>), Seq<char>>>;

/// No values at all.
pub open spec fn no_ini_values() -> Map<(Seq<char>, Seq<char>), Seq<char>> {
    Map::empty()
}

/// `ini::Ini::new()`: a document with only an empty general section, so no
/// values in named sections.
#[verifier::external_body]
pub(crate) fn ini_new() -> (res: ini::Ini)
    ensures
        ini_values(res) == no_ini_values(),
{
    ini::Ini::new()
}

/// `ini::Ini::set_to(Some(section), key, value)`: the first section of that
/// name (created at the end if there is none) gets `key` set to `value`,
/// replacing its earlier values; nothing else changes.
#[verifier::external_body]
pub(crate) fn ini_set_to(conf: &mut ini::Ini, section: &str, key: &str, value: &str)
    ensures
        ini_values(*final(conf)) == ini_values(*old(conf)).insert((section@, key@), value@),
{
    conf.set_to(Some(section), key.to_string(), value.to_string())
}

/// `ini::Ini::get_from(Some(section), key)`: the first value of `key` in
/// the first section named `section`, if any.
#[verifier::external_body]
pub(crate) fn ini_get_from(conf: &ini::Ini, section: &str, key: &str) -> (res: Option<String>)
    ensures
        match res {
            Some(v) => ini_values(*conf).contains_key((section@, key@)) && v@ == ini_values(
                *conf,
            )[(section@, key@)],
            None => !ini_values(*conf).contains_key((section@, key@)),
        },
{
    match conf.get_from(Some(section), key) {
        Some(v) => Some(v.to_string()),
        None => None,
    }
}

/// `ini::Ini::load_from_str`: the document a text holds, or the error that
/// refuses it, as `ini_parse` names it.
#[verifier::external_body]
pub(crate) fn ini_load_from_str(text: &str) -> (res: Result<ini::Ini, ini::ParseError>)
    ensures
        match res {
            Ok(c) => ini_parse(text@) == Some(ini_values(c)),
            Err(_) => ini_parse(text@) is None,
        },
{
    ini::Ini::load_from_str(text)
}

} // verus!
