//! Access to documents in TOML notation, through the `toml` crate.
//!
//! Every function here parses the document with `toml::Table`'s `FromStr`
//! and hands out plain values. The contracts only name what the crate
//! gives.

use vstd::prelude::*;

verus! {

/// Whether the `toml` crate accepts a document.
pub uninterp spec fn toml_valid(content: Seq<char>) -> bool;

/// The string that a document holds under a key of its top level: `None`
/// where the document is not accepted, the key is absent, or its value is
/// no string.
pub uninterp spec fn toml_string_at(content: Seq<char>, key: Seq<char>) -> Option<Seq<char>>;

/// The elements of the array that a document holds under a key of its top
/// level, each as its string, or `None` for an element that is no string.
/// Empty where the document is not accepted or holds no array there.
pub uninterp spec fn toml_strings_at(content: Seq<char>, key: Seq<char>) -> Seq<Option<Seq<char>>>;

/// The elements of the array that a document holds under a key of its top
/// level, each as the three fields that are read from it where it is a
/// table, or `None` for an element that is none. A field is `None` where
/// it is absent or of another type. Empty where the document is not
/// accepted or holds no array there.
pub uninterp spec fn toml_rows_at(
    content: Seq<char>,
    key: Seq<char>,
    number_key: Seq<char>,
    text_key: Seq<char>,
    second_number_key: Seq<char>,
) -> Seq<Option<(Option<i64>, Option<Seq<char>>, Option<i64>)>>;

/// The three fields that are read from a table of an array.
#[derive(Debug)]
pub struct TomlRow {
    pub number: Option<i64>,
    pub text: Option<String>,
    pub second_number: Option<i64>,
}

/// The fields of a row as plain values.
pub open spec fn row_view(row: Option<TomlRow>) -> Option<
    (Option<i64>, Option<Seq<char>>, Option<i64>),
> {
    match row {
        None => None,
        Some(r) => Some(
            (
                r.number,
                match r.text {
                    Some(t) => Some(t@),
                    None => None,
                },
                r.second_number,
            ),
        ),
    }
}

/// The rows of a list as plain values.
pub open spec fn row_views(rows: Seq<Option<TomlRow>>) -> Seq<
    Option<(Option<i64>, Option<Seq<char>>, Option<i64>)>,
> {
    Seq::new(rows.len(), |i: int| row_view(rows[i]))
}

/// The strings of a list as plain values.
pub open spec fn optional_texts(items: Seq<Option<String>>) -> Seq<Option<Seq<char>>> {
    Seq::new(
        items.len(),
        |i: int|
            match items[i] {
                Some(t) => Some(t@),
                None => None,
            },
    )
}

/// `str::parse::<toml::Table>`: whether the document parses.
#[verifier::external_body]
pub(crate) fn toml_is_valid(content: &str) -> (r: bool)
    ensures
        r == toml_valid(content@),
{
    content.parse::<toml::Table>().is_ok()
}

/// `str::parse::<toml::Table>`, `Map::get` and `Value::as_str`: the string
/// under a key of the top level.
#[verifier::external_body]
pub(crate) fn toml_string(content: &str, key: &str) -> (r: Option<String>)
    ensures
        r is Some <==> toml_string_at(content@, key@) is Some,
        r matches Some(text) ==> toml_string_at(content@, key@) == Some(text@),
{
    let table = content.parse::<toml::Table>().ok()?;
    table.get(key)?.as_str().map(|text| text.to_owned())
}

/// `str::parse::<toml::Table>`, `Map::get`, `Value::as_array` and
/// `Value::as_str`: the elements of the array under a key of the top
/// level, as strings.
#[verifier::external_body]
pub(crate) fn toml_strings(content: &str, key: &str) -> (r: Vec<Option<String>>)
    ensures
        optional_texts(r@) == toml_strings_at(content@, key@),
{
    let Ok(table) = content.parse::<toml::Table>() else {
        return Vec::new();
    };
    let Some(list) = table.get(key).and_then(|value| value.as_array()) else {
        return Vec::new();
    };
    list.iter().map(|item| item.as_str().map(|text| text.to_owned())).collect()
}

/// `str::parse::<toml::Table>`, `Map::get`, `Value::as_array`,
/// `Value::as_table`, `Value::as_integer` and `Value::as_str`: the
/// elements of the array under a key of the top level, as rows of three
/// fields.
#[verifier::external_body]
pub(crate) fn toml_rows(
    content: &str,
    key: &str,
    number_key: &str,
    text_key: &str,
    second_number_key: &str,
) -> (r: Vec<Option<TomlRow>>)
    ensures
        row_views(r@) == toml_rows_at(
            content@,
            key@,
            number_key@,
            text_key@,
            second_number_key@,
        ),
{
    let Ok(table) = content.parse::<toml::Table>() else {
        return Vec::new();
    };
    let Some(list) = table.get(key).and_then(|value| value.as_array()) else {
        return Vec::new();
    };
    list.iter().map(|item| item.as_table().map(|row| TomlRow {
        number: row.get(number_key).and_then(|value| value.as_integer()),
        text: row.get(text_key).and_then(|value| value.as_str()).map(|text| text.to_owned()),
        second_number: row.get(second_number_key).and_then(|value| value.as_integer()),
    })).collect()
}

} // verus!
