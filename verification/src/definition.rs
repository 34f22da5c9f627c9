//! Exercise definition files.
//!
//! A definition is a TOML document with the string fields `title` and
//! `difficulty`, an optional string field `hint` and an optional field
//! `timeout_secs` that holds a number of seconds. Other fields are let
//! pass. The document is parsed by the `toml` crate; which fields make a
//! definition is decided here.

use vstd::prelude::*;
use vstd::string::*;
use crate::exercise::{ExerciseMeta, ExerciseMetaModel};

verus! {

/// The table type of the `toml` crate: the fields of a parsed document.
#[verifier::external_type_specification]
#[verifier::external_body]
#[verifier::reject_recursive_types(K)]
#[verifier::reject_recursive_types(V)]
pub struct ExTomlMap<K, V>(toml::map::Map<K, V>);

/// The value type of the `toml` crate.
#[verifier::external_type_specification]
#[verifier::external_body]
pub struct ExTomlValue(toml::Value);

/// The error with which the `toml` crate refuses a document.
#[verifier::external_type_specification]
#[verifier::external_body]
pub struct ExTomlError(toml::de::Error);

/// What a document holds under one name, as far as a definition cares.
#[derive(Debug, Clone)]
pub enum Field {
    /// The document has no field of the name.
    Missing,
    /// A string.
    Text(String),
    /// An integer.
    Integer(i64),
    /// A value of any other kind.
    Other,
}

/// The mathematical content of a [`Field`].
pub enum FieldModel {
    Missing,
    Text(Seq<char>),
    Integer(i64),
    Other,
}

impl View for Field {
    type V = FieldModel;

    open spec fn view(&self) -> FieldModel {
        match self {
            Field::Missing => FieldModel::Missing,
            Field::Text(s) => FieldModel::Text(s@),
            Field::Integer(n) => FieldModel::Integer(*n),
            Field::Other => FieldModel::Other,
        }
    }
}

/// The fields of the TOML document `text`, or `None` where `text` is no
/// TOML document. This is what `toml::from_str` makes of the text; the
/// grammar of TOML is not restated here.
pub uninterp spec fn toml_document(text: Seq<char>) -> Option<Map<Seq<char>, FieldModel>>;

/// The fields that a parsed table holds, by name.
pub uninterp spec fn table_fields(table: toml::Table) -> Map<Seq<char>, FieldModel>;

/// What `fields` holds under `name`.
pub open spec fn field_at(fields: Map<Seq<char>, FieldModel>, name: Seq<char>) -> FieldModel {
    if fields.contains_key(name) {
        fields[name]
    } else {
        FieldModel::Missing
    }
}

/// Calls `toml::from_str` for a table. The contract names the outcome: the
/// call succeeds exactly on the texts that are TOML documents, and the
/// table then holds the document's fields.
#[verifier::external_body]
fn parse_table(text: &str) -> (r: Result<toml::Table, toml::de::Error>)
    ensures
        match r {
            Ok(table) => toml_document(text@) == Some(table_fields(table)),
            Err(_) => toml_document(text@) is None,
        },
{
    toml::from_str::<toml::Table>(text)
}

/// Calls `toml::map::Map::get` and tells the kind of the value found: a
/// string and an integer are handed out, any other value is `Other`, and
/// `Missing` says that the table has no such key.
#[verifier::external_body]
fn table_field(table: &toml::Table, name: &str) -> (field: Field)
    ensures
        field@ == field_at(table_fields(*table), name@),
{
    match table.get(name) {
        None => Field::Missing,
        Some(toml::Value::String(s)) => Field::Text(s.clone()),
        Some(toml::Value::Integer(n)) => Field::Integer(*n),
        Some(_) => Field::Other,
    }
}

/// The message of a `toml::de::Error`, through its `Display`. Nothing is
/// claimed of the text.
#[verifier::external_body]
fn error_text(e: &toml::de::Error) -> (text: String) {
    e.to_string()
}

/// Why a text is no definition.
#[derive(Debug, Clone, Copy, PartialEq, Eq, Structural)]
pub enum MetaProblem {
    /// The text is no TOML document.
    Syntax,
    /// There is no title.
    MissingTitle,
    /// There is no difficulty.
    MissingDifficulty,
    /// The title is no string.
    InvalidTitle,
    /// The difficulty is no string.
    InvalidDifficulty,
    /// The hint is no string.
    InvalidHint,
    /// The timeout is no integer, or a negative one.
    InvalidTimeout,
}

/// A refused definition: the reason, and the parser's words where it was
/// the parser that refused.
#[derive(Debug, Clone)]
pub struct MetaError {
    pub problem: MetaProblem,
    pub detail: String,
}

/// The string that a field holds, if it holds one.
pub open spec fn text_in(field: FieldModel) -> Option<Seq<char>> {
    match field {
        FieldModel::Text(text) => Some(text),
        _ => None,
    }
}

/// The seconds that a field holds: an integer that is not negative.
pub open spec fn seconds_in(field: FieldModel) -> Option<u64> {
    match field {
        FieldModel::Integer(n) if n >= 0 => Some(n as u64),
        _ => None,
    }
}

/// The metadata that the four fields make under the id `id`, or the first
/// reason why they make none. The title and the difficulty must be there
/// and be strings; the hint and the timeout may be missing, and else must
/// be a string and a number of seconds.
pub open spec fn meta_of_fields(
    id: Seq<char>,
    title: FieldModel,
    difficulty: FieldModel,
    hint: FieldModel,
    timeout: FieldModel,
) -> Result<ExerciseMetaModel, MetaProblem> {
    if title is Missing {
        Err(MetaProblem::MissingTitle)
    } else if text_in(title) is None {
        Err(MetaProblem::InvalidTitle)
    } else if difficulty is Missing {
        Err(MetaProblem::MissingDifficulty)
    } else if text_in(difficulty) is None {
        Err(MetaProblem::InvalidDifficulty)
    } else if !(hint is Missing) && text_in(hint) is None {
        Err(MetaProblem::InvalidHint)
    } else if !(timeout is Missing) && seconds_in(timeout) is None {
        Err(MetaProblem::InvalidTimeout)
    } else {
        Ok(
            ExerciseMetaModel {
                id,
                title: text_in(title)->0,
                difficulty: text_in(difficulty)->0,
                hint: text_in(hint),
                timeout_secs: seconds_in(timeout),
            },
        )
    }
}

/// The metadata that the document `text` defines under the id `id`.
pub open spec fn meta_of_text(id: Seq<char>, text: Seq<char>) -> Result<
    ExerciseMetaModel,
    MetaProblem,
> {
    match toml_document(text) {
        None => Err(MetaProblem::Syntax),
        Some(fields) => meta_of_fields(
            id,
            field_at(fields, "title"@),
            field_at(fields, "difficulty"@),
            field_at(fields, "hint"@),
            field_at(fields, "timeout_secs"@),
        ),
    }
}

/// Whether `r` is the outcome that the model `expected` describes.
pub open spec fn meta_matches(
    r: Result<ExerciseMeta, MetaError>,
    expected: Result<ExerciseMetaModel, MetaProblem>,
) -> bool {
    match r {
        Ok(meta) => expected == Ok::<ExerciseMetaModel, MetaProblem>(meta@),
        Err(e) => expected == Err::<ExerciseMetaModel, MetaProblem>(e.problem),
    }
}

fn refuse(problem: MetaProblem) -> (r: Result<ExerciseMeta, MetaError>)
    ensures
        r matches Err(e) && e.problem == problem && e.detail@ == Seq::<char>::empty(),
{
    Err(MetaError { problem, detail: String::new() })
}

/// Makes the metadata of an exercise from the four fields of its
/// definition.
pub fn meta_from_fields(
    id: String,
    title: Field,
    difficulty: Field,
    hint: Field,
    timeout: Field,
) -> (r: Result<ExerciseMeta, MetaError>)
    ensures
        meta_matches(r, meta_of_fields(id@, title@, difficulty@, hint@, timeout@)),
{
    let title_text = match title {
        Field::Text(s) => s,
        Field::Missing => {
            return refuse(MetaProblem::MissingTitle);
        },
        _ => {
            return refuse(MetaProblem::InvalidTitle);
        },
    };
    let difficulty_text = match difficulty {
        Field::Text(s) => s,
        Field::Missing => {
            return refuse(MetaProblem::MissingDifficulty);
        },
        _ => {
            return refuse(MetaProblem::InvalidDifficulty);
        },
    };
    let hint_text = match hint {
        Field::Text(s) => Some(s),
        Field::Missing => None,
        _ => {
            return refuse(MetaProblem::InvalidHint);
        },
    };
    let timeout_secs = match timeout {
        Field::Missing => None,
        Field::Integer(n) => {
            if n < 0 {
                return refuse(MetaProblem::InvalidTimeout);
            }
            Some(n as u64)
        },
        _ => {
            return refuse(MetaProblem::InvalidTimeout);
        },
    };
    Ok(
        ExerciseMeta {
            id,
            title: title_text,
            difficulty: difficulty_text,
            hint: hint_text,
            timeout_secs,
        },
    )
}

/// Reads the metadata of the exercise `id` from the text of its definition.
pub fn parse_meta(id: String, text: &str) -> (r: Result<ExerciseMeta, MetaError>)
    ensures
        meta_matches(r, meta_of_text(id@, text@)),
{
    match parse_table(text) {
        Err(e) => Err(MetaError { problem: MetaProblem::Syntax, detail: error_text(&e) }),
        Ok(table) => {
            let title = table_field(&table, "title");
            let difficulty = table_field(&table, "difficulty");
            let hint = table_field(&table, "hint");
            let timeout = table_field(&table, "timeout_secs");
            meta_from_fields(id, title, difficulty, hint, timeout)
        },
    }
}

} // verus!
