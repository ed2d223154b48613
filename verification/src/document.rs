//! Settings documents as JSON text: reading one, writing one, and merging
//! and unmerging from text to text.

use vstd::prelude::*;
use crate::history::{collected, record_views, without_source, MergeHistory};
use crate::json::{Json, JsonValue};
use crate::merge::{full_merge, scoped_merge, MergeError, MergeManager};
use crate::shape::well_formed;
use crate::unmerge::{full_unmerge, scoped_unmerge};

verus! {

/// A JSON value, as `serde_json` holds it. Nothing here looks inside one.
#[verifier::external_type_specification]
#[verifier::external_body]
pub struct ExValue(serde_json::Value);

/// What `serde_json` says of a text that it cannot read, or of a value that
/// it cannot write.
#[verifier::external_type_specification]
#[verifier::external_body]
pub struct ExError(serde_json::Error);

/// The document that `serde_json::from_str` reads from a text, with the
/// members of each object in the order in which `serde_json` hands them out;
/// `None` for a text that it refuses.
pub uninterp spec fn parsed(text: Seq<char>) -> Option<JsonValue>;

/// The text that `serde_json::to_string_pretty` writes for a document, where
/// an object that names a key twice stands for its first member of that key;
/// `None` for a document that it refuses.
pub uninterp spec fn printed(document: JsonValue) -> Option<Seq<char>>;

/// The same value as a document: each variant of `serde_json::Value` becomes
/// the variant of [`Json`] that holds the same.
#[verifier::external_body]
fn from_value(value: serde_json::Value) -> Json {
    match value {
        serde_json::Value::Null => Json::Null,
        serde_json::Value::Bool(b) => Json::Bool(b),
        serde_json::Value::Number(n) => Json::Number(n),
        serde_json::Value::String(s) => Json::Text(s),
        serde_json::Value::Array(items) => Json::List(items.into_iter().map(from_value).collect()),
        serde_json::Value::Object(members) => Json::Object(
            members.into_iter().map(|(key, value)| (key, from_value(value))).collect(),
        ),
    }
}

/// The same document as a `serde_json::Value`. The members of an object go
/// in from the last to the first, so that of two with one key the first
/// stays.
#[verifier::external_body]
fn to_value(document: &Json) -> serde_json::Value {
    match document {
        Json::Null => serde_json::Value::Null,
        Json::Bool(b) => serde_json::Value::Bool(*b),
        Json::Number(n) => serde_json::Value::Number(n.clone()),
        Json::Text(s) => serde_json::Value::String(s.clone()),
        Json::List(items) => serde_json::Value::Array(items.iter().map(to_value).collect()),
        Json::Object(members) => serde_json::Value::Object(
            members.iter().rev().map(|(key, value)| (key.clone(), to_value(value))).collect(),
        ),
    }
}

/// `serde_json::from_str` for a `serde_json::Value`: the document that the
/// text holds, or the error for a text that is no JSON. An object of
/// `serde_json` is a map, which holds each key once, so the document is
/// well formed.
#[verifier::external_body]
fn read_json(text: &str) -> (outcome: Result<Json, serde_json::Error>)
    ensures
        match outcome {
            Ok(document) => parsed(text@) == Some(document@) && well_formed(document@),
            Err(_) => parsed(text@) is None,
        },
{
    serde_json::from_str::<serde_json::Value>(text).map(from_value)
}

/// `serde_json::to_string_pretty` for a `serde_json::Value`: the document as
/// indented JSON text.
#[verifier::external_body]
fn write_json(document: &Json) -> (outcome: Result<String, serde_json::Error>)
    ensures
        match outcome {
            Ok(text) => printed(document@) == Some(text@),
            Err(_) => printed(document@) is None,
        },
{
    serde_json::to_string_pretty(&to_value(document))
}

/// What a `serde_json::Error` says, by its `to_string`.
#[verifier::external_body]
fn error_text(error: &serde_json::Error) -> (message: String) {
    error.to_string()
}

/// A text is no JSON, or a document cannot be written as JSON; with what
/// the reader or writer said of it.
#[derive(Debug, PartialEq, Eq)]
pub struct Malformed {
    pub message: String,
}

/// Reads a settings document from JSON text. What is read is well formed.
pub fn parse_document(text: &str) -> (outcome: Result<Json, Malformed>)
    ensures
        match outcome {
            Ok(document) => parsed(text@) == Some(document@) && well_formed(document@),
            Err(_) => parsed(text@) is None,
        },
{
    match read_json(text) {
        Ok(document) => Ok(document),
        Err(error) => Err(Malformed { message: error_text(&error) }),
    }
}

/// Writes a settings document as indented JSON text.
pub fn print_document(document: &Json) -> (outcome: Result<String, Malformed>)
    ensures
        match outcome {
            Ok(text) => printed(document@) == Some(text@),
            Err(_) => printed(document@) is None,
        },
{
    match write_json(document) {
        Ok(text) => Ok(text),
        Err(error) => Err(Malformed { message: error_text(&error) }),
    }
}

/// Why a merge or an unmerge of documents given as text failed.
#[derive(Debug, PartialEq, Eq)]
pub enum MergeFailure {
    /// The target is no JSON text.
    MalformedTarget(Malformed),
    /// The source is no JSON text.
    MalformedSource(Malformed),
    /// The merge was refused.
    Refused(MergeError),
    /// The document that was to be written cannot be written as JSON.
    Unprintable(Malformed),
}

/// What a merge leaves and adds: a full merge, or one of the permissions
/// alone.
pub open spec fn merge_of(target: JsonValue, source: JsonValue, full: bool) -> Result<
    (JsonValue, Seq<Seq<char>>),
    MergeError,
> {
    if full {
        full_merge(target, source)
    } else {
        scoped_merge(target, source)
    }
}

/// What an unmerge of `source` leaves, by the history: a full unmerge, or
/// one of the permissions alone.
pub open spec fn unmerge_of(
    target: JsonValue,
    history: Seq<crate::history::RecordView>,
    source: Seq<char>,
    full: bool,
) -> JsonValue {
    if full {
        full_unmerge(target, collected(history, source, true), collected(history, source, false))
    } else {
        scoped_unmerge(target, collected(history, source, false))
    }
}

impl MergeManager {
    /// Merges the document that the text `source` holds into the one that
    /// the text `target` holds: every setting where `full` is set, else the
    /// permissions alone. Returns the text of the merged document and the
    /// record of the merge, stamped with the time of the call. The target
    /// is read first, so a target that is no JSON is what is reported where
    /// neither text is.
    pub fn merge_texts(&self, target: &str, source: &str, source_name: &str, full: bool) -> (outcome:
        Result<(String, MergeHistory), MergeFailure>)
        ensures
            match (parsed(target@), parsed(source@)) {
                (None, _) => outcome is Err && outcome->Err_0 is MalformedTarget,
                (Some(_), None) => outcome is Err && outcome->Err_0 is MalformedSource,
                (Some(into), Some(from)) => match merge_of(into, from, full) {
                    Err(e) => outcome is Err && outcome->Err_0 == MergeFailure::Refused(e),
                    Ok((merged, items)) => match printed(merged) {
                        None => outcome is Err && outcome->Err_0 is Unprintable,
                        Some(text) => outcome is Ok && (outcome->Ok_0).0@ == text && (
                        outcome->Ok_0).1@.source == source_name@ && (
                        outcome->Ok_0).1@.merged_items == items && (outcome->Ok_0).1@.full_merge
                            == full,
                    },
                },
            },
    {
        let mut document = match parse_document(target) {
            Ok(document) => document,
            Err(error) => {
                return Err(MergeFailure::MalformedTarget(error));
            },
        };
        let from = match parse_document(source) {
            Ok(document) => document,
            Err(error) => {
                return Err(MergeFailure::MalformedSource(error));
            },
        };
        let merged = if full {
            self.merge_full(&mut document, &from, source_name)
        } else {
            self.merge_permissions(&mut document, &from, source_name)
        };
        let record = match merged {
            Ok(record) => record,
            Err(e) => {
                return Err(MergeFailure::Refused(e));
            },
        };
        match print_document(&document) {
            Ok(text) => Ok((text, record)),
            Err(error) => Err(MergeFailure::Unprintable(error)),
        }
    }

    /// Takes back from the document that the text `target` holds what was
    /// merged from `source_name`: everything where `full` is set, else the
    /// permissions alone. Returns the text of the document that is left.
    /// Where the target can be read, every record of the source leaves the
    /// history.
    pub fn unmerge_texts(
        &self,
        target: &str,
        history: &mut Vec<MergeHistory>,
        source_name: &str,
        full: bool,
    ) -> (outcome: Result<String, MergeFailure>)
        ensures
            match parsed(target@) {
                None => outcome is Err && outcome->Err_0 is MalformedTarget && record_views(
                    final(history)@,
                ) == record_views(old(history)@),
                Some(from) => record_views(final(history)@) == without_source(
                    record_views(old(history)@),
                    source_name@,
                ) && match printed(
                    unmerge_of(from, record_views(old(history)@), source_name@, full),
                ) {
                    None => outcome is Err && outcome->Err_0 is Unprintable,
                    Some(text) => outcome is Ok && outcome->Ok_0@ == text,
                },
            },
    {
        let mut document = match parse_document(target) {
            Ok(document) => document,
            Err(error) => {
                return Err(MergeFailure::MalformedTarget(error));
            },
        };
        if full {
            self.unmerge_full(&mut document, history, source_name);
        } else {
            self.unmerge_permissions(&mut document, history, source_name);
        }
        match print_document(&document) {
            Ok(text) => Ok(text),
            Err(error) => Err(MergeFailure::Unprintable(error)),
        }
    }
}

} // verus!
