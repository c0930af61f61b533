//! The warnings that reading the input can give. None of them is fatal.

use crate::ident::{hyphenated, SecretId};
use vstd::prelude::*;
use vstd::string::StringExecFns;

verus! {

/// A warning about one input line.
#[derive(Debug)]
pub enum Warning {
    /// The identifier text of the line is no identifier: the line is
    /// skipped.
    InvalidIdentifier { text: String, reason: String },
    /// The identifier of the line was given a name before: the new name
    /// takes the place of the old one.
    DuplicateIdentifier { id: SecretId, previous: String, replacement: String },
}

/// What a warning says, over plain sequences.
pub enum WarningView {
    InvalidIdentifier { text: Seq<char>, reason: Seq<char> },
    DuplicateIdentifier { id: u128, previous: Seq<char>, replacement: Seq<char> },
}

impl View for Warning {
    type V = WarningView;

    open spec fn view(&self) -> WarningView {
        match *self {
            Warning::InvalidIdentifier { text, reason } => WarningView::InvalidIdentifier {
                text: text@,
                reason: reason@,
            },
            Warning::DuplicateIdentifier {
                id,
                previous,
                replacement,
            } => WarningView::DuplicateIdentifier {
                id: id.value,
                previous: previous@,
                replacement: replacement@,
            },
        }
    }
}

/// The views of a sequence of warnings.
pub open spec fn warning_views(warnings: Seq<Warning>) -> Seq<WarningView> {
    warnings.map_values(|w: Warning| w@)
}

/// The line that a warning is reported with.
pub open spec fn message_text(warning: WarningView) -> Seq<char> {
    match warning {
        WarningView::InvalidIdentifier { text, reason } => "Warning: Invalid UUID format in \""@
            + text + "\": "@ + reason,
        WarningView::DuplicateIdentifier { id, previous, replacement } =>
            "Warning: Duplicate UUID found: "@ + hyphenated(id) + ". Old value: "@ + previous
                + ", New value: "@ + replacement,
    }
}

impl Warning {
    /// The line to report the warning with, without a line end.
    pub fn message(&self) -> (res: String)
        ensures
            res@ == message_text(self@),
    {
        match self {
            Warning::InvalidIdentifier { text, reason } => {
                let mut out = String::from_str("Warning: Invalid UUID format in \"");
                out.append(text.as_str());
                out.append("\": ");
                out.append(reason.as_str());
                out
            },
            Warning::DuplicateIdentifier { id, previous, replacement } => {
                let mut out = String::from_str("Warning: Duplicate UUID found: ");
                out.append(id.to_text().as_str());
                out.append(". Old value: ");
                out.append(previous.as_str());
                out.append(", New value: ");
                out.append(replacement.as_str());
                out
            },
        }
    }

    /// Whether the warning reports an identifier that is none.
    pub fn is_invalid(&self) -> (res: bool)
        ensures
            res == (self@ is InvalidIdentifier),
    {
        match self {
            Warning::InvalidIdentifier { .. } => true,
            Warning::DuplicateIdentifier { .. } => false,
        }
    }

    /// Whether the warning reports an identifier that was named twice.
    pub fn is_duplicate(&self) -> (res: bool)
        ensures
            res == (self@ is DuplicateIdentifier),
    {
        match self {
            Warning::InvalidIdentifier { .. } => false,
            Warning::DuplicateIdentifier { .. } => true,
        }
    }
}

} // verus!
