//! Plugin schemas and validation of user submissions.
//!
//! A plugin descriptor declares, in order, the form fields a backend
//! needs. A submission is an ordered list of field name / raw value
//! pairs. Validation walks the declared fields in declaration order and
//! reports the first violation it meets: a required field that is
//! absent, a `number` field whose value does not read as a finite
//! number, or a `checkbox` field whose value is neither `true` nor
//! `false`. Any other declared type passes with no extra check.

use crate::errors::{ValidationError, ValidationFault};
use crate::text::str_eq;
use vstd::prelude::*;

verus! {

/// One form field of a plugin schema.
pub struct FieldSpec {
    pub name: String,
    pub display_name: String,
    pub field_type: String,
    pub required: bool,
    pub default_value: String,
    pub placeholder: String,
}

/// The mathematical image of a field declaration.
pub struct FieldSpecView {
    pub name: Seq<char>,
    pub display_name: Seq<char>,
    pub field_type: Seq<char>,
    pub required: bool,
    pub default_value: Seq<char>,
    pub placeholder: Seq<char>,
}

impl View for FieldSpec {
    type V = FieldSpecView;

    open spec fn view(&self) -> FieldSpecView {
        FieldSpecView {
            name: self.name@,
            display_name: self.display_name@,
            field_type: self.field_type@,
            required: self.required,
            default_value: self.default_value@,
            placeholder: self.placeholder@,
        }
    }
}

/// A plugin descriptor: identity, authorship and the ordered field list.
pub struct PluginDescriptor {
    pub name: String,
    pub display_name: String,
    pub description: String,
    pub version: String,
    pub author: String,
    pub fields: Vec<FieldSpec>,
}

/// The views of a descriptor's field list.
pub open spec fn fields_view(v: Seq<FieldSpec>) -> Seq<FieldSpecView> {
    v.map_values(|f: FieldSpec| f@)
}

/// A user submission: field name / raw value pairs in submission order.
pub struct Submission {
    pub entries: Vec<(String, String)>,
}

impl View for Submission {
    type V = Seq<(Seq<char>, Seq<char>)>;

    open spec fn view(&self) -> Seq<(Seq<char>, Seq<char>)> {
        self.entries@.map_values(|p: (String, String)| (p.0@, p.1@))
    }
}

/// Whether the submission carries the given field name.
pub open spec fn sub_has_key(s: Seq<(Seq<char>, Seq<char>)>, key: Seq<char>) -> bool
    decreases s.len(),
{
    s.len() > 0 && (s[0].0 == key || sub_has_key(s.skip(1), key))
}

/// The value the submission gives the field: the first pair with the
/// name wins.
pub open spec fn sub_value(s: Seq<(Seq<char>, Seq<char>)>, key: Seq<char>) -> Seq<char>
    decreases s.len(),
{
    if s.len() == 0 {
        Seq::empty()
    } else if s[0].0 == key {
        s[0].1
    } else {
        sub_value(s.skip(1), key)
    }
}

impl Submission {
    /// The value submitted for a field, or `None` when the field is absent.
    pub fn get<'a>(&'a self, key: &str) -> (r: Option<&'a String>)
        ensures
            match r {
                Some(v) => sub_has_key(self@, key@) && v@ == sub_value(self@, key@),
                None => !sub_has_key(self@, key@),
            },
    {
        let mut i: usize = 0;
        proof {
            assert(self@.skip(0) =~= self@);
        }
        while i < self.entries.len()
            invariant
                i <= self.entries.len(),
                sub_has_key(self@, key@) == sub_has_key(self@.skip(i as int), key@),
                sub_has_key(self@, key@) ==> sub_value(self@, key@) == sub_value(
                    self@.skip(i as int),
                    key@,
                ),
            decreases self.entries.len() - i,
        {
            let ghost rest = self@.skip(i as int);
            proof {
                assert(rest[0] == (self.entries@[i as int].0@, self.entries@[i as int].1@));
                assert(rest.skip(1) =~= self@.skip(i + 1));
            }
            if str_eq(self.entries[i].0.as_str(), key) {
                return Some(&self.entries[i].1);
            }
            i = i + 1;
        }
        proof {
            assert(self@.skip(self.entries@.len() as int) =~= Seq::<(Seq<char>, Seq<char>)>::empty());
        }
        None
    }

    /// Whether the submission carries the given field name.
    pub fn contains_key(&self, key: &str) -> (r: bool)
        ensures
            r == sub_has_key(self@, key@),
    {
        self.get(key).is_some()
    }
}

/// A value reads as a number: the whole text is a finite decimal
/// numeral, possibly signed, fractional or with an exponent. The
/// judgment is delegated to the JSON number grammar and left abstract
/// here.
pub uninterp spec fn is_number_literal(s: Seq<char>) -> bool;

/// Relies on serde_json::Number::from_str, which accepts a string
/// exactly when the whole string is a JSON number; such a number is
/// always finite, and the verdict depends on the characters alone.
#[verifier::external_body]
fn parses_as_number(s: &str) -> (r: bool)
    ensures
        r == is_number_literal(s@),
{
    s.parse::<serde_json::Number>().is_ok()
}

/// The violation one declared field finds in the submission, if any.
pub open spec fn field_error(
    f: FieldSpecView,
    sub: Seq<(Seq<char>, Seq<char>)>,
) -> Option<ValidationFault> {
    if f.required && !sub_has_key(sub, f.name) {
        Some(ValidationFault::MissingRequired)
    } else if sub_has_key(sub, f.name) && f.field_type == "number"@ && !is_number_literal(
        sub_value(sub, f.name),
    ) {
        Some(ValidationFault::NotANumber)
    } else if sub_has_key(sub, f.name) && f.field_type == "checkbox"@ && !(sub_value(sub, f.name)
        == "true"@ || sub_value(sub, f.name) == "false"@) {
        Some(ValidationFault::NotABoolean)
    } else {
        None
    }
}

/// The first violation in field declaration order, if any: validation
/// is fail-fast, so the user sees the earliest declared fault.
pub open spec fn first_error(
    fields: Seq<FieldSpecView>,
    sub: Seq<(Seq<char>, Seq<char>)>,
) -> Option<(Seq<char>, ValidationFault)>
    decreases fields.len(),
{
    if fields.len() == 0 {
        None
    } else if field_error(fields[0], sub) is Some {
        Some((fields[0].name, field_error(fields[0], sub)->0))
    } else {
        first_error(fields.skip(1), sub)
    }
}

/// Validates a submission against a plugin's field schema, reporting
/// the first violation in field declaration order.
pub fn validate_submission(plugin: &PluginDescriptor, sub: &Submission) -> (r: Result<
    (),
    ValidationError,
>)
    ensures
        match r {
            Ok(_) => first_error(fields_view(plugin.fields@), sub@) is None,
            Err(e) => first_error(fields_view(plugin.fields@), sub@) == Some((e.field@, e.fault)),
        },
{
    let ghost fv = fields_view(plugin.fields@);
    let mut i: usize = 0;
    proof {
        assert(fv.skip(0) =~= fv);
    }
    while i < plugin.fields.len()
        invariant
            i <= plugin.fields.len(),
            fv == fields_view(plugin.fields@),
            first_error(fv, sub@) == first_error(fv.skip(i as int), sub@),
        decreases plugin.fields.len() - i,
    {
        let ghost rest = fv.skip(i as int);
        proof {
            assert(rest[0] == plugin.fields@[i as int]@);
            assert(rest.skip(1) =~= fv.skip(i + 1));
        }
        let field = &plugin.fields[i];
        if field.required && !sub.contains_key(field.name.as_str()) {
            return Err(
                ValidationError {
                    field: field.name.clone(),
                    fault: ValidationFault::MissingRequired,
                },
            );
        }
        match sub.get(field.name.as_str()) {
            Some(value) => {
                if str_eq(field.field_type.as_str(), "number") {
                    if !parses_as_number(value.as_str()) {
                        return Err(
                            ValidationError {
                                field: field.name.clone(),
                                fault: ValidationFault::NotANumber,
                            },
                        );
                    }
                } else if str_eq(field.field_type.as_str(), "checkbox") {
                    if !str_eq(value.as_str(), "true") && !str_eq(value.as_str(), "false") {
                        return Err(
                            ValidationError {
                                field: field.name.clone(),
                                fault: ValidationFault::NotABoolean,
                            },
                        );
                    }
                }
            },
            None => {},
        }
        proof {
            reveal_strlit("number");
            reveal_strlit("checkbox");
            assert("number"@.len() == 6);
            assert("checkbox"@.len() == 8);
            assert("number"@ != "checkbox"@);
            assert(field_error(rest[0], sub@) is None);
        }
        i = i + 1;
    }
    proof {
        assert(fv.skip(plugin.fields@.len() as int) =~= Seq::<FieldSpecView>::empty());
    }
    Ok(())
}

/// A submission missing a required field always fails with that field's
/// name, whatever the rest of the submission holds: as long as every
/// field declared earlier passes, validation reports exactly the
/// missing field.
pub proof fn lemma_missing_required_fails(
    fields: Seq<FieldSpecView>,
    sub: Seq<(Seq<char>, Seq<char>)>,
    i: int,
)
    requires
        0 <= i < fields.len(),
        fields[i].required,
        !sub_has_key(sub, fields[i].name),
        forall|j: int| 0 <= j < i ==> field_error(#[trigger] fields[j], sub) is None,
    ensures
        first_error(fields, sub) == Some((fields[i].name, ValidationFault::MissingRequired)),
    decreases i,
{
    if i == 0 {
        assert(field_error(fields[0], sub) == Some(ValidationFault::MissingRequired));
    } else {
        assert(field_error(fields[0], sub) is None);
        assert forall|j: int| 0 <= j < i - 1 implies field_error(
            #[trigger] fields.skip(1)[j],
            sub,
        ) is None by {
            assert(fields.skip(1)[j] == fields[j + 1]);
        }
        assert(fields.skip(1)[i - 1] == fields[i]);
        lemma_missing_required_fails(fields.skip(1), sub, i - 1);
    }
}

} // verus!
