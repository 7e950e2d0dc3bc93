//! The error vocabulary of the library.
//!
//! Every operation reports failure as a typed result; nothing panics.
//! The validation faults carry the offending field's name, since the
//! host shows that name to the user.

use vstd::prelude::*;

verus! {

/// The ways a submitted field value can violate the plugin schema.
#[derive(Clone, Copy, Debug, PartialEq, Eq, Structural)]
pub enum ValidationFault {
    /// A field the schema marks required is absent from the submission.
    MissingRequired,
    /// A `number` field's value does not read as a finite number.
    NotANumber,
    /// A `checkbox` field's value is neither `true` nor `false`.
    NotABoolean,
}

/// A schema violation, naming the field at fault.
#[derive(Debug)]
pub struct ValidationError {
    pub field: String,
    pub fault: ValidationFault,
}

/// The failure kinds the library and its host report.
#[derive(Debug)]
pub enum CoreError {
    /// A required environment value, such as the home directory, is unavailable.
    Environment,
    /// An expected file is missing.
    NotFound,
    /// Reading an external file failed.
    Read,
    /// Writing an external file failed.
    Write,
    /// A structured file is malformed.
    Parse,
    /// The submission violates the plugin schema.
    Validation(ValidationError),
}

impl ValidationError {
    /// The message shown to the user for this fault.
    pub fn describe(&self) -> (r: String)
        ensures
            self.fault is MissingRequired ==> r@ == "Required field '"@ + self.field@
                + "' is missing"@,
            self.fault is NotANumber ==> r@ == "Field '"@ + self.field@ + "' must be a number"@,
            self.fault is NotABoolean ==> r@ == "Field '"@ + self.field@
                + "' must be true or false"@,
    {
        match self.fault {
            ValidationFault::MissingRequired => {
                let mut out = String::from_str("Required field '");
                out.append(self.field.as_str());
                out.append("' is missing");
                out
            },
            ValidationFault::NotANumber => {
                let mut out = String::from_str("Field '");
                out.append(self.field.as_str());
                out.append("' must be a number");
                out
            },
            ValidationFault::NotABoolean => {
                let mut out = String::from_str("Field '");
                out.append(self.field.as_str());
                out.append("' must be true or false");
                out
            },
        }
    }
}

} // verus!
