//! The typed parameter model: parameter definitions, the validation rules
//! they impose, parsing of raw textual values, and the errors either can
//! raise.

use vstd::prelude::*;
use vstd::string::{StringExecFns, StrSliceExecFns};
use crate::num::{Number, NumV, num_lt, num_eq, dec_normal};
use crate::values::{JsonValue, JsonV, view_of, val_eq, views_of_vec};
use crate::render::{num_chars, num_display, render_json, render_value};
use crate::text::{chars_of, string_of_chars};
use crate::parse::{
    parse_i64_chars, parse_decimal_chars, parse_bool_chars, is_int_literal, int_lit_val,
    is_dec_literal, dec_representable, dec_ideal, dec_mant, dec_net_scale, bool_lit,
};

verus! {

/// The declared type of a stored-query parameter.
#[derive(Clone, Copy, Debug, PartialEq, Eq, Structural)]
pub enum ParamType {
    String,
    Number,
    Bool,
}

/// The display name of a parameter type.
pub open spec fn type_label_spec(t: ParamType) -> Seq<char> {
    match t {
        ParamType::String => "string"@,
        ParamType::Number => "number"@,
        ParamType::Bool => "bool"@,
    }
}

impl ParamType {
    /// The name of this type as written in error messages.
    pub fn label(&self) -> (r: &'static str)
        ensures
            r@ == type_label_spec(*self),
    {
        match self {
            ParamType::String => "string",
            ParamType::Number => "number",
            ParamType::Bool => "bool",
        }
    }
}

/// A failure while parsing, validating or resolving stored-query input.
#[derive(Debug)]
pub enum StoredQueryError {
    /// The query file does not start with a front matter block.
    MissingFrontMatter,
    /// The query file has no SQL body after the front matter.
    EmptyQuery,
    /// A required parameter was not supplied.
    MissingParam { name: String },
    /// A value's dynamic type does not match the declared type.
    InvalidParamType { name: String, expected: String, value: String },
    /// A numeric value lies below the declared minimum.
    BelowMin { name: String, value: Number, min: Number },
    /// A numeric value exceeds the declared maximum.
    AboveMax { name: String, value: Number, max: Number },
    /// A value is not among the declared choices.
    InvalidChoice { name: String, value: String, choices: String },
    /// A string value does not match the declared pattern.
    PatternMismatch { name: String, value: String, pattern: String },
}

/// The message text of an error.
pub open spec fn message_spec(e: StoredQueryError) -> Seq<char> {
    match e {
        StoredQueryError::MissingFrontMatter =>
            "invalid query file: missing front matter delimiters (---)"@,
        StoredQueryError::EmptyQuery => "query file has no SQL body"@,
        StoredQueryError::MissingParam { name } => "parameter '"@ + name@ + "' is required"@,
        StoredQueryError::InvalidParamType { name, expected, value } =>
            "parameter '"@ + name@ + "': expected "@ + expected@ + ", got '"@ + value@ + "'"@,
        StoredQueryError::BelowMin { name, value, min } =>
            "parameter '"@ + name@ + "': value "@ + num_chars(value@, false) + " is below minimum "@
            + num_chars(min@, false),
        StoredQueryError::AboveMax { name, value, max } =>
            "parameter '"@ + name@ + "': value "@ + num_chars(value@, false) + " exceeds maximum "@
            + num_chars(max@, false),
        StoredQueryError::InvalidChoice { name, value, choices } =>
            "parameter '"@ + name@ + "': '"@ + value@ + "' is not one of the allowed values: "@
            + choices@,
        StoredQueryError::PatternMismatch { name, value, pattern } =>
            "parameter '"@ + name@ + "': value '"@ + value@ + "' does not match pattern '"@
            + pattern@ + "'"@,
    }
}

impl StoredQueryError {
    /// Renders this error as its message text.
    pub fn message(&self) -> (s: String)
        ensures
            s@ == message_spec(*self),
    {
        match self {
            StoredQueryError::MissingFrontMatter => {
                let s = String::from_str("invalid query file: missing front matter delimiters (---)");
                s
            },
            StoredQueryError::EmptyQuery => {
                let s = String::from_str("query file has no SQL body");
                s
            },
            StoredQueryError::MissingParam { name } => {
                let mut s = String::from_str("parameter '");
                s.append(name.as_str());
                s.append("' is required");
                proof {
                    assert(s@ =~= message_spec(*self));
                }
                s
            },
            StoredQueryError::InvalidParamType { name, expected, value } => {
                let mut s = String::from_str("parameter '");
                s.append(name.as_str());
                s.append("': expected ");
                s.append(expected.as_str());
                s.append(", got '");
                s.append(value.as_str());
                s.append("'");
                proof {
                    assert(s@ =~= message_spec(*self));
                }
                s
            },
            StoredQueryError::BelowMin { name, value, min } => {
                let mut s = String::from_str("parameter '");
                s.append(name.as_str());
                s.append("': value ");
                let vtxt = num_display(value);
                s.append(vtxt.as_str());
                s.append(" is below minimum ");
                let mtxt = num_display(min);
                s.append(mtxt.as_str());
                proof {
                    assert(s@ =~= message_spec(*self));
                }
                s
            },
            StoredQueryError::AboveMax { name, value, max } => {
                let mut s = String::from_str("parameter '");
                s.append(name.as_str());
                s.append("': value ");
                let vtxt = num_display(value);
                s.append(vtxt.as_str());
                s.append(" exceeds maximum ");
                let mtxt = num_display(max);
                s.append(mtxt.as_str());
                proof {
                    assert(s@ =~= message_spec(*self));
                }
                s
            },
            StoredQueryError::InvalidChoice { name, value, choices } => {
                let mut s = String::from_str("parameter '");
                s.append(name.as_str());
                s.append("': '");
                s.append(value.as_str());
                s.append("' is not one of the allowed values: ");
                s.append(choices.as_str());
                proof {
                    assert(s@ =~= message_spec(*self));
                }
                s
            },
            StoredQueryError::PatternMismatch { name, value, pattern } => {
                let mut s = String::from_str("parameter '");
                s.append(name.as_str());
                s.append("': value '");
                s.append(value.as_str());
                s.append("' does not match pattern '");
                s.append(pattern.as_str());
                s.append("'");
                proof {
                    assert(s@ =~= message_spec(*self));
                }
                s
            },
        }
    }
}

/// A parameter definition within a stored query.
#[derive(Debug)]
pub struct ParamDef {
    /// Parameter name, referenced as `@name` in the SQL body.
    pub name: String,
    /// Declared type.
    pub param_type: ParamType,
    /// Human-readable description.
    pub description: Option<String>,
    /// Default value.
    pub default: Option<JsonValue>,
    /// Closed set of allowed values.
    pub choices: Option<Vec<JsonValue>>,
    /// Whether the parameter is required; when unset, it is inferred.
    pub required: Option<bool>,
    /// Minimum value, for numbers.
    pub min: Option<Number>,
    /// Maximum value, for numbers.
    pub max: Option<Number>,
    /// Full-text regular expression constraint, for strings.
    pub pattern: Option<String>,
}

/// Whether a parameter is required: an explicit flag wins; otherwise a
/// parameter without default and without choices is required.
pub open spec fn spec_is_required(p: &ParamDef) -> bool {
    match p.required {
        Some(b) => b,
        None => p.default is None && p.choices is None,
    }
}

impl ParamDef {
    /// Whether this parameter must be supplied.
    pub fn is_required(&self) -> (r: bool)
        ensures
            r == spec_is_required(self),
    {
        match self.required {
            Some(b) => b,
            None => self.default.is_none() && self.choices.is_none(),
        }
    }
}

/// A parameter that has neither a default nor a choices list is required,
/// unless `required` says `false` explicitly.
pub proof fn lemma_implicitly_required(p: &ParamDef)
    requires
        p.default is None,
        p.choices is None,
        p.required != Some(false),
    ensures
        spec_is_required(p),
{
}

/// How a resolved value relates to the mathematically parsed one: numbers
/// agree as exact rationals, keep their integer-versus-fraction kind, and
/// are held in normal form; every other value is taken as is.
pub open spec fn resolved_like(got: JsonV, ideal: JsonV) -> bool {
    match (got, ideal) {
        (JsonV::Num(a), JsonV::Num(b)) => num_eq(a, b) && (a is Int <==> b is Int)
            && dec_normal(a),
        (g, m) => g == m,
    }
}

/// What parsing a raw string as a given parameter type yields: the string
/// itself for string parameters; an exact integer, or else an exact decimal
/// fraction, for number parameters; a boolean literal for boolean parameters.
pub open spec fn parsed_value(t: ParamType, raw: Seq<char>) -> Option<JsonV> {
    match t {
        ParamType::String => Some(JsonV::Str(raw)),
        ParamType::Number => {
            if is_int_literal(raw) && -0x8000_0000_0000_0000 <= int_lit_val(raw)
                < 0x8000_0000_0000_0000 {
                Some(JsonV::Num(NumV::Int(int_lit_val(raw))))
            } else if is_dec_literal(raw) && dec_representable(raw) {
                Some(JsonV::Num(dec_ideal(dec_mant(raw), dec_net_scale(raw))))
            } else {
                None
            }
        },
        ParamType::Bool => match bool_lit(raw) {
            Some(b) => Some(JsonV::Bool(b)),
            None => None,
        },
    }
}

/// Parses a raw string into a typed parameter value. For number parameters
/// an integer parse is attempted first, then a decimal one; the decimal
/// result is numerically equal to the literal's exact value, in normal form.
pub fn parse_param_value_public(name: &str, param_type: &ParamType, raw: &str) -> (r: Result<
    JsonValue,
    StoredQueryError,
>)
    ensures
        match r {
            Ok(v) => {
                &&& parsed_value(*param_type, raw@) is Some
                &&& resolved_like(v@, parsed_value(*param_type, raw@)->0)
            },
            Err(e) => {
                &&& parsed_value(*param_type, raw@) is None
                &&& (e matches StoredQueryError::InvalidParamType { name: n, expected, value }
                    && n@ == name@ && value@ == raw@ && expected@ == (
                    if *param_type == ParamType::Number {
                        "number"@
                    } else {
                        "bool (true/false)"@
                    }))
            },
        },
{
    match param_type {
        ParamType::String => {
            let v = JsonValue::Str(raw.to_owned());
            proof {
                assert(*param_type == ParamType::String);
                assert(parsed_value(*param_type, raw@) == Some(JsonV::Str(raw@)));
                assert(v@ == JsonV::Str(raw@));
            }
            Ok(v)
        },
        ParamType::Number => {
            let cs: Vec<char> = chars_of(raw);
            match parse_i64_chars(&cs) {
                Some(i) => Ok(JsonValue::Num(Number::Int(i))),
                None => match parse_decimal_chars(&cs) {
                    Some(num) => Ok(JsonValue::Num(num)),
                    None => Err(StoredQueryError::InvalidParamType {
                        name: name.to_owned(),
                        expected: String::from_str("number"),
                        value: raw.to_owned(),
                    }),
                },
            }
        },
        ParamType::Bool => {
            let cs: Vec<char> = chars_of(raw);
            match parse_bool_chars(&cs) {
                Some(b) => Ok(JsonValue::Bool(b)),
                None => Err(StoredQueryError::InvalidParamType {
                    name: name.to_owned(),
                    expected: String::from_str("bool (true/false)"),
                    value: raw.to_owned(),
                }),
            }
        },
    }
}

} // verus!
// Validation: type check, range check, choices membership, pattern match, in
// that fixed order; the first failing check is the one reported.

verus! {

/// What `regex::Regex::new(pattern)` followed by `is_match(text)` yields:
/// `None` when the pattern does not compile, otherwise whether the pattern
/// matches anywhere in the text.
pub uninterp spec fn regex_verdict(pattern: Seq<char>, text: Seq<char>) -> Option<bool>;

/// Relies on `regex::Regex::new` and `regex::Regex::is_match`: whether the
/// pattern compiles, and whether the compiled pattern matches somewhere in
/// the text, are functions of the two strings alone.
#[verifier::external_body]
fn regex_is_match(pattern: &str, text: &str) -> (r: Option<bool>)
    ensures
        r == regex_verdict(pattern@, text@),
{
    match regex::Regex::new(pattern) {
        Ok(re) => Some(re.is_match(text)),
        Err(_) => None,
    }
}

/// Whether a value's dynamic type matches a declared parameter type.
pub open spec fn type_matches(t: ParamType, v: JsonV) -> bool {
    match t {
        ParamType::String => v is Str,
        ParamType::Number => v is Num,
        ParamType::Bool => v is Bool,
    }
}

/// The display text of one allowed value: strings appear bare, every other
/// value in its JSON form.
pub open spec fn choice_text(v: JsonV) -> Seq<char> {
    if v is Str {
        v->Str_0
    } else {
        render_json(v)
    }
}

/// The comma-joined display of the allowed values from position `i` on.
pub open spec fn choices_joined_from(cs: Seq<JsonV>, i: int) -> Seq<char>
    decreases cs.len() - i,
{
    if i < 0 || i >= cs.len() {
        Seq::empty()
    } else {
        let sep: Seq<char> = if i > 0 {
            seq![',', ' ']
        } else {
            Seq::empty()
        };
        sep + choice_text(cs[i]) + choices_joined_from(cs, i + 1)
    }
}

/// Renders the comma-joined display of a choices list.
fn choices_joined(cs: &Vec<JsonValue>) -> (s: String)
    ensures
        s@ == choices_joined_from(views_of_vec(*cs), 0),
{
    let ghost vs = views_of_vec(*cs);
    let mut out: Vec<char> = Vec::new();
    let mut i: usize = 0;
    while i < cs.len()
        invariant
            i <= cs@.len(),
            vs == views_of_vec(*cs),
            vs.len() == cs@.len(),
            choices_joined_from(vs, 0) =~= out@ + choices_joined_from(vs, i as int),
        decreases cs@.len() - i,
    {
        let ghost before = out@;
        if i > 0 {
            out.push(',');
            out.push(' ');
        }
        match &cs[i] {
            JsonValue::Str(st) => {
                let mut piece: Vec<char> = chars_of(st.as_str());
                out.append(&mut piece);
            },
            other => {
                let mut piece: Vec<char> = crate::render::render_chars(other);
                out.append(&mut piece);
            },
        }
        proof {
            let sep: Seq<char> = if i > 0 {
                seq![',', ' ']
            } else {
                Seq::empty()
            };
            assert(cs@[i as int]@ == vs[i as int]);
            assert(out@ =~= before + (sep + choice_text(vs[i as int])));
            assert(choices_joined_from(vs, i as int) =~= (sep + choice_text(vs[i as int]))
                + choices_joined_from(vs, i + 1));
            assert(before + ((sep + choice_text(vs[i as int])) + choices_joined_from(vs, i + 1))
                =~= (before + (sep + choice_text(vs[i as int]))) + choices_joined_from(
                vs,
                i + 1,
            ));
        }
        i += 1;
    }
    proof {
        assert(choices_joined_from(vs, vs.len() as int) =~= Seq::<char>::empty());
        assert(out@ =~= choices_joined_from(vs, 0));
    }
    string_of_chars(&out)
}

impl ParamDef {
    /// The value lies below the declared minimum.
    pub open spec fn min_violated(&self, v: JsonV) -> bool {
        v is Num && self.min is Some && num_lt(v->Num_0, self.min->0@)
    }

    /// The value exceeds the declared maximum.
    pub open spec fn max_violated(&self, v: JsonV) -> bool {
        v is Num && self.max is Some && num_lt(self.max->0@, v->Num_0)
    }

    /// The value is not among the declared choices.
    pub open spec fn choice_violated(&self, v: JsonV) -> bool {
        self.choices is Some && !crate::values::in_choices(views_of_vec(self.choices->0), v)
    }

    /// The value is a string that the declared pattern does not accept (or
    /// the pattern itself does not compile).
    pub open spec fn pattern_violated(&self, v: JsonV) -> bool {
        self.pattern is Some && v is Str && regex_verdict(self.pattern->0@, v->Str_0) != Some(
            true,
        )
    }

    /// All four checks pass.
    pub open spec fn validate_ok(&self, v: JsonV) -> bool {
        &&& type_matches(self.param_type, v)
        &&& !self.min_violated(v)
        &&& !self.max_violated(v)
        &&& !self.choice_violated(v)
        &&& !self.pattern_violated(v)
    }

    /// Validates a resolved value against this parameter's constraints:
    /// a type check, then the numeric range, then choices membership, then
    /// the string pattern. The first check that fails is the one reported.
    pub fn validate(&self, value: &JsonValue) -> (r: Result<(), StoredQueryError>)
        ensures
            r is Ok <==> self.validate_ok(value@),
            match r {
                Ok(()) => true,
                Err(e) => match e {
                    StoredQueryError::InvalidParamType { name, expected, value: val } => {
                        &&& !type_matches(self.param_type, value@)
                        &&& name@ == self.name@
                        &&& expected@ == type_label_spec(self.param_type)
                        &&& val@ == render_json(value@)
                    },
                    StoredQueryError::BelowMin { name, value: got, min } => {
                        &&& type_matches(self.param_type, value@)
                        &&& self.min_violated(value@)
                        &&& name@ == self.name@
                        &&& got@ == value@->Num_0
                        &&& Some(min) == self.min
                    },
                    StoredQueryError::AboveMax { name, value: got, max } => {
                        &&& type_matches(self.param_type, value@)
                        &&& !self.min_violated(value@)
                        &&& self.max_violated(value@)
                        &&& name@ == self.name@
                        &&& got@ == value@->Num_0
                        &&& Some(max) == self.max
                    },
                    StoredQueryError::InvalidChoice { name, value: val, choices } => {
                        &&& type_matches(self.param_type, value@)
                        &&& !self.min_violated(value@)
                        &&& !self.max_violated(value@)
                        &&& self.choice_violated(value@)
                        &&& name@ == self.name@
                        &&& val@ == choice_text(value@)
                        &&& choices@ == choices_joined_from(
                            views_of_vec(self.choices->0),
                            0,
                        )
                    },
                    StoredQueryError::PatternMismatch { name, value: val, pattern } => {
                        &&& type_matches(self.param_type, value@)
                        &&& !self.min_violated(value@)
                        &&& !self.max_violated(value@)
                        &&& !self.choice_violated(value@)
                        &&& self.pattern_violated(value@)
                        &&& name@ == self.name@
                        &&& val@ == value@->Str_0
                        &&& Some(pattern) == self.pattern
                    },
                    _ => false,
                },
            },
    {
        // Type check.
        let type_ok: bool = match (self.param_type, value) {
            (ParamType::String, JsonValue::Str(_)) => true,
            (ParamType::Number, JsonValue::Num(_)) => true,
            (ParamType::Bool, JsonValue::Bool(_)) => true,
            _ => false,
        };
        if !type_ok {
            return Err(StoredQueryError::InvalidParamType {
                name: self.name.clone(),
                expected: String::from_str(self.param_type.label()),
                value: render_value(value),
            });
        }
        // Range check for numbers.
        if let JsonValue::Num(n) = value {
            if let Some(m) = &self.min {
                if n.lt(m) {
                    return Err(StoredQueryError::BelowMin {
                        name: self.name.clone(),
                        value: *n,
                        min: *m,
                    });
                }
            }
            if let Some(m) = &self.max {
                if m.lt(n) {
                    return Err(StoredQueryError::AboveMax {
                        name: self.name.clone(),
                        value: *n,
                        max: *m,
                    });
                }
            }
        }
        // Choices membership.
        if let Some(cs) = &self.choices {
            if !crate::values::contains_value(cs, value) {
                let val_text: String = match value {
                    JsonValue::Str(st) => st.clone(),
                    other => render_value(other),
                };
                return Err(StoredQueryError::InvalidChoice {
                    name: self.name.clone(),
                    value: val_text,
                    choices: choices_joined(cs),
                });
            }
        }
        // Pattern check for strings.
        if let Some(p) = &self.pattern {
            if let JsonValue::Str(sv) = value {
                let verdict: Option<bool> = regex_is_match(p.as_str(), sv.as_str());
                let matched: bool = match verdict {
                    Some(true) => true,
                    _ => false,
                };
                if !matched {
                    return Err(StoredQueryError::PatternMismatch {
                        name: self.name.clone(),
                        value: sv.clone(),
                        pattern: p.clone(),
                    });
                }
            }
        }
        Ok(())
    }
}

} // verus!
