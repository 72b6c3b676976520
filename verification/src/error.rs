//! The errors that lifting a document can report.

use vstd::prelude::*;
use crate::key::{Key, KeyNode};
use crate::range::{range_debug, TextRange};
use crate::text::string_append;

verus! {

/// A semantic error in a document.
#[derive(Debug)]
pub enum Error {
    DuplicateKey { first: KeyNode, second: KeyNode },
    ExpectedTableArray { target: KeyNode, key: KeyNode },
    ExpectedTable { target: KeyNode, key: KeyNode },
    TopLevelTableDefined { table: KeyNode, key: KeyNode },
    InlineTable { target: KeyNode, key: KeyNode },
    Spanned { range: TextRange, message: String },
    Generic(String),
}

/// The mathematical value of an [`Error`].
pub ghost enum ErrorModel {
    DuplicateKey { first: Key, second: Key },
    ExpectedTableArray { target: Key, key: Key },
    ExpectedTable { target: Key, key: Key },
    TopLevelTableDefined { table: Key, key: Key },
    InlineTable { target: Key, key: Key },
    Spanned { range: TextRange, message: Seq<char> },
    Generic(Seq<char>),
}

impl View for Error {
    type V = ErrorModel;

    open spec fn view(&self) -> ErrorModel {
        match *self {
            Error::DuplicateKey { first, second } => ErrorModel::DuplicateKey {
                first: first@,
                second: second@,
            },
            Error::ExpectedTableArray { target, key } => ErrorModel::ExpectedTableArray {
                target: target@,
                key: key@,
            },
            Error::ExpectedTable { target, key } => ErrorModel::ExpectedTable {
                target: target@,
                key: key@,
            },
            Error::TopLevelTableDefined { table, key } => ErrorModel::TopLevelTableDefined {
                table: table@,
                key: key@,
            },
            Error::InlineTable { target, key } => ErrorModel::InlineTable {
                target: target@,
                key: key@,
            },
            Error::Spanned { range, message } => ErrorModel::Spanned { range, message: message@ },
            Error::Generic(message) => ErrorModel::Generic(message@),
        }
    }
}

/// The views of a list of errors.
pub open spec fn errors_model(v: Seq<Error>) -> Seq<ErrorModel> {
    v.map_values(|e: Error| e@)
}

/// The range `r` as diagnostics print it.
pub open spec fn range_text(r: TextRange) -> Seq<char> {
    range_debug(r.lo(), r.hi())
}

/// A key as diagnostics print it: its dotted text in quotes, then its range
/// in parentheses.
pub open spec fn key_text(k: Key) -> Seq<char> {
    "\""@ + k.full_key_string() + "\" ("@ + range_text(k.text_range()) + ")"@
}

impl ErrorModel {
    /// The message of the error.
    pub open spec fn text(self) -> Seq<char> {
        match self {
            ErrorModel::DuplicateKey { first, second } => "duplicate keys: "@ + key_text(first)
                + " and "@ + key_text(second),
            ErrorModel::ExpectedTable { target, key } => "Expected "@ + key_text(target)
                + " to be a table, but it is not, required by "@ + key_text(key),
            ErrorModel::TopLevelTableDefined { table, key } => "full table definition "@
                + key_text(table) + " conflicts with dotted keys "@ + key_text(key),
            ErrorModel::ExpectedTableArray { target, key } => key_text(target)
                + " conflicts with array of tables: "@ + key_text(key),
            ErrorModel::InlineTable { target, key } => "inline tables cannot be modified: "@
                + key_text(target) + ", modification attempted here: "@ + key_text(key),
            ErrorModel::Spanned { range, message } => message + " ("@ + range_text(range) + ")"@,
            ErrorModel::Generic(message) => message,
        }
    }
}

/// Adds a key, as diagnostics print it, at the end of `s`.
fn append_key(s: &mut String, k: &KeyNode)
    requires
        k.wf(),
    ensures
        final(s)@ == old(s)@ + key_text(k@),
{
    let ghost before = s@;
    s.append("\"");
    string_append(s, &k.full_key_string());
    s.append("\" (");
    string_append(s, &k.text_range().debug_text());
    s.append(")");
    assert(s@ =~= before + key_text(k@));
}

impl Error {
    /// Every key of the error has a proper window of identifiers.
    pub open spec fn wf(&self) -> bool {
        match *self {
            Error::DuplicateKey { first, second } => first.wf() && second.wf(),
            Error::ExpectedTableArray { target, key } => target.wf() && key.wf(),
            Error::ExpectedTable { target, key } => target.wf() && key.wf(),
            Error::TopLevelTableDefined { table, key } => table.wf() && key.wf(),
            Error::InlineTable { target, key } => target.wf() && key.wf(),
            Error::Spanned { .. } => true,
            Error::Generic(_) => true,
        }
    }

    /// The message of the error.
    pub fn to_string(&self) -> (s: String)
        requires
            self.wf(),
        ensures
            s@ == self@.text(),
    {
        let mut s = String::new();
        match self {
            Error::DuplicateKey { first, second } => {
                s.append("duplicate keys: ");
                append_key(&mut s, first);
                s.append(" and ");
                append_key(&mut s, second);
                assert(s@ =~= self@.text());
            },
            Error::ExpectedTable { target, key } => {
                s.append("Expected ");
                append_key(&mut s, target);
                s.append(" to be a table, but it is not, required by ");
                append_key(&mut s, key);
                assert(s@ =~= self@.text());
            },
            Error::TopLevelTableDefined { table, key } => {
                s.append("full table definition ");
                append_key(&mut s, table);
                s.append(" conflicts with dotted keys ");
                append_key(&mut s, key);
                assert(s@ =~= self@.text());
            },
            Error::ExpectedTableArray { target, key } => {
                append_key(&mut s, target);
                s.append(" conflicts with array of tables: ");
                append_key(&mut s, key);
                assert(s@ =~= self@.text());
            },
            Error::InlineTable { target, key } => {
                s.append("inline tables cannot be modified: ");
                append_key(&mut s, target);
                s.append(", modification attempted here: ");
                append_key(&mut s, key);
                assert(s@ =~= self@.text());
            },
            Error::Spanned { range, message } => {
                string_append(&mut s, message);
                s.append(" (");
                string_append(&mut s, &range.debug_text());
                s.append(")");
                assert(s@ =~= self@.text());
            },
            Error::Generic(message) => {
                string_append(&mut s, message);
                assert(s@ =~= self@.text());
            },
        }
        s
    }
}

impl Clone for Error {
    fn clone(&self) -> (r: Self)
        ensures
            self.wf() ==> r.wf() && r@ == self@,
    {
        match self {
            Error::DuplicateKey { first, second } => Error::DuplicateKey {
                first: first.clone(),
                second: second.clone(),
            },
            Error::ExpectedTableArray { target, key } => Error::ExpectedTableArray {
                target: target.clone(),
                key: key.clone(),
            },
            Error::ExpectedTable { target, key } => Error::ExpectedTable {
                target: target.clone(),
                key: key.clone(),
            },
            Error::TopLevelTableDefined { table, key } => Error::TopLevelTableDefined {
                table: table.clone(),
                key: key.clone(),
            },
            Error::InlineTable { target, key } => Error::InlineTable {
                target: target.clone(),
                key: key.clone(),
            },
            Error::Spanned { range, message } => Error::Spanned {
                range: *range,
                message: message.clone(),
            },
            Error::Generic(message) => Error::Generic(message.clone()),
        }
    }
}

} // verus!
