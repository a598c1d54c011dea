//! Values read from the host: the reader's settings and decoded records.
//!
//! The host owns the settings store and the decoder. The library works on
//! a snapshot of what they returned, so every rule about absent or
//! ill-typed values is decided here, on plain data.

use vstd::prelude::*;
use vstd::string::*;

verus! {

/// A value as the host hands it out, reduced to what the helpers read.
#[derive(Clone, Debug)]
pub enum HostValue {
    /// Nothing is stored under the name, or reading it failed.
    Missing,
    /// A string.
    Text(String),
    /// An ordered list. An entry that is not a string is `None`.
    List(Vec<Option<String>>),
    /// A value of any other kind (number, boolean, record, ...).
    Other,
}

/// The reader's settings that the helpers consult.
#[derive(Clone, Debug)]
pub struct Preferences {
    /// The setting `languages`: content languages, the primary one first.
    pub languages: HostValue,
    /// The setting `scanlatorPriorities`: translation groups separated by
    /// commas, the most preferred first.
    pub scanlator_priorities: HostValue,
}

/// One named field of a decoded record.
#[derive(Clone, Debug)]
pub struct Field {
    pub name: String,
    pub value: HostValue,
}

/// A decoded record: its fields in the order the decoder produced them.
#[derive(Clone, Debug)]
pub struct Record {
    pub fields: Vec<Field>,
}

impl HostValue {
    /// The text of a string value; `None` for every other kind.
    pub open spec fn text(&self) -> Option<Seq<char>> {
        match self {
            HostValue::Text(s) => Some(s@),
            _ => None,
        }
    }

    /// The text of the first entry of a list, where that entry is a
    /// string; `None` for an empty list, another entry, or another kind.
    pub open spec fn first_text(&self) -> Option<Seq<char>> {
        match self {
            HostValue::List(entries) => if entries@.len() > 0 {
                match entries@[0] {
                    Some(s) => Some(s@),
                    None => None,
                }
            } else {
                None
            },
            _ => None,
        }
    }
}

impl Preferences {
    /// The primary content language, if the reader has set one.
    pub open spec fn preferred_language(&self) -> Option<Seq<char>> {
        self.languages.first_text()
    }

    /// The raw priority setting, if it is stored as a string.
    pub open spec fn priority_text(&self) -> Option<Seq<char>> {
        self.scanlator_priorities.text()
    }
}

/// The text of an optional string.
pub open spec fn text_of(s: Option<String>) -> Option<Seq<char>> {
    match s {
        Some(s) => Some(s@),
        None => None,
    }
}

/// The text of the first field called `key`, where that field is a
/// string; empty when there is no such field or it holds another kind.
pub open spec fn field_text(fields: Seq<Field>, key: Seq<char>) -> Seq<char>
    decreases fields.len(),
{
    if fields.len() == 0 {
        Seq::empty()
    } else if fields[0].name@ == key {
        match fields[0].value.text() {
            Some(t) => t,
            None => Seq::empty(),
        }
    } else {
        field_text(fields.skip(1), key)
    }
}

/// The reader's primary content language: the first entry of the
/// `languages` setting. A missing setting, an empty list, or a value of
/// the wrong kind gives `None`.
pub fn get_lang_code(prefs: &Preferences) -> (res: Option<String>)
    ensures
        text_of(res) == prefs.preferred_language(),
{
    match &prefs.languages {
        HostValue::List(entries) => {
            if entries.len() > 0 {
                match &entries[0] {
                    Some(s) => Some(s.clone()),
                    None => None,
                }
            } else {
                None
            }
        },
        _ => None,
    }
}

/// The string stored in the record under `key`, or the empty string
/// when the field is absent or not a string.
pub fn data_from_json(data: &Record, key: &str) -> (res: String)
    ensures
        res@ == field_text(data.fields@, key@),
{
    let wanted: String = key.to_owned();
    let n: usize = data.fields.len();
    let mut i: usize = 0;
    proof {
        assert(data.fields@.skip(0) == data.fields@);
    }
    while i < n
        invariant
            n == data.fields@.len(),
            i <= n,
            wanted@ == key@,
            field_text(data.fields@, key@) == field_text(data.fields@.skip(i as int), key@),
        decreases n - i,
    {
        let field: &Field = &data.fields[i];
        proof {
            let rest = data.fields@.skip(i as int);
            assert(rest[0] == data.fields@[i as int]);
            assert(rest.skip(1) == data.fields@.skip(i + 1));
        }
        if field.name == wanted {
            return match &field.value {
                HostValue::Text(s) => s.clone(),
                _ => String::new(),
            };
        }
        i = i + 1;
    }
    String::new()
}

} // verus!
