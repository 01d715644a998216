//! Compiling the validation rules of a schema.
//!
//! A schema node lists its rules under `x-kubernetes-validations`. Each rule is read and
//! compiled by itself: one that cannot be read or compiled is kept as an error in its place
//! and stops none of the others.

use vstd::prelude::*;
use vstd::string::*;
use crate::engine::{compile_expression, expression_parses, expression_references, parse_detail};
use crate::json::{JsonValue, JsonView, lemma_lookup_decreases, lemma_object_view, lemma_array_view};
use crate::text::{clone_text, concat2, concat3, text_view};
use crate::values::{SchemaFormat, schema_format};

verus! {

/// One validation rule of a schema node.
#[derive(Debug)]
pub struct Rule {
    /// The expression to evaluate.
    pub rule: String,
    /// The message to report when the rule fails.
    pub message: Option<String>,
    /// An expression that gives the message to report.
    pub message_expression: Option<String>,
    /// A machine-readable reason for the failure.
    pub reason: Option<String>,
    /// A path to the field that the failure is about.
    pub field_path: Option<String>,
    /// Whether the rule is evaluated even where there is no prior object; the prior object
    /// is then null.
    pub optional_old_self: Option<bool>,
}

/// The mathematical value of a [`Rule`].
pub struct RuleView {
    pub rule: Seq<char>,
    pub message: Option<Seq<char>>,
    pub message_expression: Option<Seq<char>>,
    pub reason: Option<Seq<char>>,
    pub field_path: Option<Seq<char>>,
    pub optional_old_self: Option<bool>,
}

impl View for Rule {
    type V = RuleView;

    open spec fn view(&self) -> RuleView {
        RuleView {
            rule: self.rule@,
            message: text_view(self.message),
            message_expression: text_view(self.message_expression),
            reason: text_view(self.reason),
            field_path: text_view(self.field_path),
            optional_old_self: self.optional_old_self,
        }
    }
}

impl Clone for Rule {
    fn clone(&self) -> (r: Self)
        ensures
            r@ == self@,
    {
        Rule {
            rule: self.rule.clone(),
            message: clone_text(&self.message),
            message_expression: clone_text(&self.message_expression),
            reason: clone_text(&self.reason),
            field_path: clone_text(&self.field_path),
            optional_old_self: self.optional_old_self,
        }
    }
}

/// The name of the kind of value that `v` is, as a complaint about a value of the wrong
/// kind gives it.
pub open spec fn kind_name(v: JsonView) -> Seq<char> {
    match v {
        JsonView::Null => "null"@,
        JsonView::Bool(_) => "boolean"@,
        JsonView::Number(n) => match n {
            crate::json::JsonNumber::Float(_) => "floating point"@,
            _ => "integer"@,
        },
        JsonView::String(_) => "string"@,
        JsonView::Array(_) => "sequence"@,
        JsonView::Object(_) => "map"@,
    }
}

/// The complaint about a value of the wrong kind.
pub open spec fn wrong_kind(v: JsonView, expected: Seq<char>) -> Seq<char> {
    "invalid type: "@ + kind_name(v) + ", expected "@ + expected
}

/// What an optional string member of a rule holds: absent and null count as nothing.
pub open spec fn optional_text(entry: JsonView, key: Seq<char>) -> Result<
    Option<Seq<char>>,
    Seq<char>,
> {
    match entry.get(key) {
        None => Ok(None),
        Some(JsonView::Null) => Ok(None),
        Some(JsonView::String(s)) => Ok(Some(s)),
        Some(other) => Err(wrong_kind(other, "a string"@)),
    }
}

/// What an optional boolean member of a rule holds: absent and null count as nothing.
pub open spec fn optional_flag(entry: JsonView, key: Seq<char>) -> Result<
    Option<bool>,
    Seq<char>,
> {
    match entry.get(key) {
        None => Ok(None),
        Some(JsonView::Null) => Ok(None),
        Some(JsonView::Bool(b)) => Ok(Some(b)),
        Some(other) => Err(wrong_kind(other, "a boolean"@)),
    }
}

/// The rule that one entry of a rules array holds, or why it holds none.
///
/// An entry is an object with a string `rule` and, optionally, `message`,
/// `messageExpression`, `reason`, `fieldPath` (strings) and `optionalOldSelf` (a boolean).
/// Other members are ignored. The first thing found wrong, in that order, is reported.
/// An entry of any other kind, an array too, holds no rule; a complaint names the kind of
/// the value that is wrong, not the value.
pub open spec fn rule_of(entry: JsonView) -> Result<RuleView, Seq<char>> {
    if !(entry is Object) {
        Err(wrong_kind(entry, "struct Rule"@))
    } else {
        match entry.get("rule"@) {
            None => Err("missing field `rule`"@),
            Some(JsonView::String(rule)) => match optional_text(entry, "message"@) {
                Err(e) => Err(e),
                Ok(message) => match optional_text(entry, "messageExpression"@) {
                    Err(e) => Err(e),
                    Ok(message_expression) => match optional_text(entry, "reason"@) {
                        Err(e) => Err(e),
                        Ok(reason) => match optional_text(entry, "fieldPath"@) {
                            Err(e) => Err(e),
                            Ok(field_path) => match optional_flag(entry, "optionalOldSelf"@) {
                                Err(e) => Err(e),
                                Ok(optional_old_self) => Ok(
                                    RuleView {
                                        rule,
                                        message,
                                        message_expression,
                                        reason,
                                        field_path,
                                        optional_old_self,
                                    },
                                ),
                            },
                        },
                    },
                },
            },
            Some(other) => Err(wrong_kind(other, "a string"@)),
        }
    }
}

fn kind_name_of(v: &JsonValue) -> (r: &'static str)
    ensures
        r@ == kind_name(v@),
{
    match v {
        JsonValue::Null => "null",
        JsonValue::Bool(_) => "boolean",
        JsonValue::Number(n) => match n {
            crate::json::JsonNumber::Float(_) => "floating point",
            _ => "integer",
        },
        JsonValue::String(_) => "string",
        JsonValue::Array(_) => "sequence",
        JsonValue::Object(_) => "map",
    }
}

fn wrong_kind_of(v: &JsonValue, expected: &str) -> (r: String)
    ensures
        r@ == wrong_kind(v@, expected@),
{
    let mut out = concat3("invalid type: ", kind_name_of(v), ", expected ");
    out.append(expected);
    out
}

fn read_optional_text(entry: &JsonValue, key: &str) -> (r: Result<Option<String>, String>)
    ensures
        match r {
            Ok(o) => optional_text(entry@, key@) == Ok::<Option<Seq<char>>, Seq<char>>(
                text_view(o),
            ),
            Err(e) => optional_text(entry@, key@) == Err::<Option<Seq<char>>, Seq<char>>(e@),
        },
{
    match entry.get(key) {
        None => Ok(None),
        Some(v) => match v {
            JsonValue::Null => Ok(None),
            JsonValue::String(s) => Ok(Some(s.clone())),
            _ => Err(wrong_kind_of(v, "a string")),
        },
    }
}

fn read_optional_flag(entry: &JsonValue, key: &str) -> (r: Result<Option<bool>, String>)
    ensures
        match r {
            Ok(o) => optional_flag(entry@, key@) == Ok::<Option<bool>, Seq<char>>(o),
            Err(e) => optional_flag(entry@, key@) == Err::<Option<bool>, Seq<char>>(e@),
        },
{
    match entry.get(key) {
        None => Ok(None),
        Some(v) => match v {
            JsonValue::Null => Ok(None),
            JsonValue::Bool(b) => Ok(Some(*b)),
            _ => Err(wrong_kind_of(v, "a boolean")),
        },
    }
}

impl Rule {
    /// Reads a rule from one entry of a rules array.
    pub fn from_json(entry: &JsonValue) -> (r: Result<Rule, String>)
        ensures
            match r {
                Ok(rule) => rule_of(entry@) == Ok::<RuleView, Seq<char>>(rule@),
                Err(e) => rule_of(entry@) == Err::<RuleView, Seq<char>>(e@),
            },
    {
        if !entry.is_object() {
            return Err(wrong_kind_of(entry, "struct Rule"));
        }
        let rule = match entry.get("rule") {
            None => {
                return Err("missing field `rule`".to_owned());
            },
            Some(v) => match v {
                JsonValue::String(s) => s.clone(),
                _ => {
                    return Err(wrong_kind_of(v, "a string"));
                },
            },
        };
        let message = match read_optional_text(entry, "message") {
            Ok(o) => o,
            Err(e) => {
                return Err(e);
            },
        };
        let message_expression = match read_optional_text(entry, "messageExpression") {
            Ok(o) => o,
            Err(e) => {
                return Err(e);
            },
        };
        let reason = match read_optional_text(entry, "reason") {
            Ok(o) => o,
            Err(e) => {
                return Err(e);
            },
        };
        let field_path = match read_optional_text(entry, "fieldPath") {
            Ok(o) => o,
            Err(e) => {
                return Err(e);
            },
        };
        let optional_old_self = match read_optional_flag(entry, "optionalOldSelf") {
            Ok(o) => o,
            Err(e) => {
                return Err(e);
            },
        };
        Ok(Rule { rule, message, message_expression, reason, field_path, optional_old_self })
    }
}

/// A rule that compiled.
#[derive(Debug)]
pub struct CompilationResult {
    /// The compiled expression of the rule.
    pub program: cel::Program,
    /// The rule as it was given.
    pub rule: Rule,
    /// Whether the rule refers to the prior object, `oldSelf`.
    pub is_transition_rule: bool,
    /// The compiled `messageExpression`, where the rule has one and it compiles.
    pub message_program: Option<cel::Program>,
}

/// Why a rule did not compile.
#[derive(Debug)]
pub enum CompilationError {
    /// The expression of the rule does not parse.
    Parse { rule: String, source: cel::ParseErrors },
    /// The entry of the rules array does not hold a rule.
    InvalidRule(String),
}

/// What compiling one entry of a rules array came to, as a mathematical value.
pub enum RuleEntryView {
    /// The rule compiled. `dynamic_message` says whether its `messageExpression` did too.
    Compiled { rule: RuleView, transition: bool, dynamic_message: bool },
    /// The expression `rule` does not parse.
    ParseFailure { rule: Seq<char> },
    /// The entry holds no rule.
    Invalid { message: Seq<char> },
}

impl View for CompilationResult {
    type V = RuleEntryView;

    open spec fn view(&self) -> RuleEntryView {
        RuleEntryView::Compiled {
            rule: self.rule@,
            transition: self.is_transition_rule,
            dynamic_message: self.message_program is Some,
        }
    }
}

impl View for CompilationError {
    type V = RuleEntryView;

    open spec fn view(&self) -> RuleEntryView {
        match self {
            CompilationError::Parse { rule, source } => RuleEntryView::ParseFailure { rule: rule@ },
            CompilationError::InvalidRule(message) => RuleEntryView::Invalid { message: message@ },
        }
    }
}

impl CompilationError {
    /// The error as one line of text.
    pub fn to_string(&self) -> (r: String)
        ensures
            match self {
                CompilationError::Parse { rule, source } => exists|detail: Seq<char>|
                    r@ == "failed to compile CEL rule \""@ + rule@ + "\": "@ + detail,
                CompilationError::InvalidRule(message) => r@ == "invalid rule definition: "@
                    + message@,
            },
    {
        match self {
            CompilationError::Parse { rule, source } => {
                let detail = parse_detail(source);
                let mut out = concat3("failed to compile CEL rule \"", rule.as_str(), "\": ");
                out.append(detail.as_str());
                out
            },
            CompilationError::InvalidRule(message) => concat2(
                "invalid rule definition: ",
                message.as_str(),
            ),
        }
    }
}

/// The mathematical value of one compilation outcome.
pub open spec fn outcome_view(o: Result<CompilationResult, CompilationError>) -> RuleEntryView {
    match o {
        Ok(c) => c@,
        Err(e) => e@,
    }
}

/// The mathematical values of a list of compilation outcomes, in order.
pub open spec fn outcomes_view(
    outcomes: Seq<Result<CompilationResult, CompilationError>>,
) -> Seq<RuleEntryView> {
    Seq::new(outcomes.len(), |i: int| outcome_view(outcomes[i]))
}

/// The name of the variable that stands for the prior object.
pub open spec fn old_self() -> Seq<char> {
    "oldSelf"@
}

/// What compiling `rule` comes to.
///
/// The rule compiles exactly when its expression parses. It is a transition rule exactly
/// when that expression refers to `oldSelf`. Its message expression is compiled where it
/// parses and dropped where it does not.
pub open spec fn compiled_rule(rule: RuleView) -> RuleEntryView {
    if expression_parses(rule.rule) {
        RuleEntryView::Compiled {
            rule,
            transition: expression_references(rule.rule, old_self()),
            dynamic_message: match rule.message_expression {
                Some(m) => expression_parses(m),
                None => false,
            },
        }
    } else {
        RuleEntryView::ParseFailure { rule: rule.rule }
    }
}

/// What compiling one entry of a rules array comes to.
pub open spec fn compiled_entry(entry: JsonView) -> RuleEntryView {
    match rule_of(entry) {
        Ok(rule) => compiled_rule(rule),
        Err(message) => RuleEntryView::Invalid { message },
    }
}

/// What compiling the rules of the schema node `schema` comes to: one outcome for each
/// entry of its `x-kubernetes-validations` array, in order, and none where it has no such
/// array.
pub open spec fn compiled_rules(schema: JsonView) -> Seq<RuleEntryView> {
    match schema.get("x-kubernetes-validations"@) {
        Some(JsonView::Array(entries)) => Seq::new(
            entries.len(),
            |i: int| compiled_entry(entries[i]),
        ),
        _ => Seq::empty(),
    }
}

/// Compiles one rule.
///
/// Fails with [`CompilationError::Parse`], which keeps the expression, exactly when the
/// expression does not parse. A `messageExpression` that does not parse is dropped and
/// fails nothing.
pub fn compile_rule(rule: &Rule) -> (r: Result<CompilationResult, CompilationError>)
    ensures
        outcome_view(r) == compiled_rule(rule@),
        r is Ok <==> expression_parses(rule.rule@),
        r matches Ok(c) ==> c.rule@ == rule@ && c.is_transition_rule == expression_references(
            rule.rule@,
            old_self(),
        ),
        r matches Err(e) ==> e is Parse,
{
    match compile_expression(rule.rule.as_str(), "oldSelf") {
        Err(source) => Err(CompilationError::Parse { rule: rule.rule.clone(), source }),
        Ok(compiled) => {
            let message_program = match &rule.message_expression {
                Some(text) => match compile_expression(text.as_str(), "oldSelf") {
                    Ok(m) => Some(m.0),
                    Err(_) => None,
                },
                None => None,
            };
            Ok(
                CompilationResult {
                    program: compiled.0,
                    rule: rule.clone(),
                    is_transition_rule: compiled.1,
                    message_program,
                },
            )
        },
    }
}

/// Compiles the rules of one schema node, each by itself.
///
/// A node without `x-kubernetes-validations`, or with one that is no array, has no rules.
pub fn compile_schema_validations(schema: &JsonValue) -> (r: Vec<
    Result<CompilationResult, CompilationError>,
>)
    ensures
        outcomes_view(r@) == compiled_rules(schema@),
{
    let entries = match schema.get("x-kubernetes-validations") {
        Some(v) => match v.as_array() {
            Some(entries) => entries,
            None => {
                assert(outcomes_view(Seq::empty()) =~= Seq::empty());
                return Vec::new();
            },
        },
        None => {
            assert(outcomes_view(Seq::empty()) =~= Seq::empty());
            return Vec::new();
        },
    };
    proof {
        lemma_array_view(*entries);
    }
    let ghost list = JsonValue::Array(*entries)@.items();
    let mut out: Vec<Result<CompilationResult, CompilationError>> = Vec::new();
    let mut i: usize = 0;
    while i < entries.len()
        invariant
            i <= entries.len(),
            out.len() == i,
            list.len() == entries.len(),
            forall|j: int| 0 <= j < entries.len() ==> #[trigger] list[j] == entries[j]@,
            forall|j: int| 0 <= j < i ==> outcome_view(#[trigger] out[j]) == compiled_entry(list[j]),
        decreases entries.len() - i,
    {
        let outcome = match Rule::from_json(&entries[i]) {
            Ok(rule) => compile_rule(&rule),
            Err(message) => Err(CompilationError::InvalidRule(message)),
        };
        assert(list[i as int] == entries[i as int]@);
        out.push(outcome);
        i += 1;
    }
    assert(outcomes_view(out@) =~= compiled_rules(schema@));
    out
}


/// A schema with its rules compiled: made once by [`compile_schema`], then used for any
/// number of validations.
#[derive(Debug)]
pub struct CompiledSchema {
    /// The outcome of compiling each rule of this node, in order.
    pub validations: Vec<Result<CompilationResult, CompilationError>>,
    /// The compiled schema of each declared property, by name, in the order of the schema.
    /// Of two entries with one name the first is the property.
    pub properties: Vec<(String, CompiledSchema)>,
    /// The compiled schema of the array's items.
    pub items: Option<Box<CompiledSchema>>,
    /// The compiled schema of the properties that are not declared by name.
    pub additional_properties: Option<Box<CompiledSchema>>,
    /// The string format that this node declares.
    pub format: SchemaFormat,
}

/// The mathematical value of a [`CompiledSchema`].
pub struct CompiledView {
    pub validations: Seq<RuleEntryView>,
    pub properties: Seq<(Seq<char>, CompiledView)>,
    pub items: Option<Box<CompiledView>>,
    pub additional_properties: Option<Box<CompiledView>>,
    pub format: SchemaFormat,
}

/// The mathematical value of `c`.
pub open spec fn compiled_schema_view(c: CompiledSchema) -> CompiledView
    decreases c,
{
    CompiledView {
        validations: outcomes_view(c.validations@),
        properties: Seq::new(
            c.properties@.len(),
            |i: int|
                if 0 <= i < c.properties@.len() {
                    (c.properties@[i].0@, compiled_schema_view(c.properties@[i].1))
                } else {
                    (Seq::empty(), empty_view())
                },
        ),
        items: match c.items {
            Some(b) => Some(Box::new(compiled_schema_view(*b))),
            None => None,
        },
        additional_properties: match c.additional_properties {
            Some(b) => Some(Box::new(compiled_schema_view(*b))),
            None => None,
        },
        format: c.format,
    }
}

/// A compiled schema that declares nothing.
pub open spec fn empty_view() -> CompiledView {
    CompiledView {
        validations: Seq::empty(),
        properties: Seq::empty(),
        items: None,
        additional_properties: None,
        format: SchemaFormat::Plain,
    }
}

impl View for CompiledSchema {
    type V = CompiledView;

    open spec fn view(&self) -> CompiledView {
        compiled_schema_view(*self)
    }
}

/// The first of `properties` that is named `name`, if there is one.
pub open spec fn find_property(
    properties: Seq<(Seq<char>, CompiledView)>,
    name: Seq<char>,
) -> Option<CompiledView>
    decreases properties.len(),
{
    if properties.len() == 0 {
        None
    } else if properties[0].0 == name {
        Some(properties[0].1)
    } else {
        find_property(properties.drop_first(), name)
    }
}

impl CompiledView {
    /// The compiled schema of the property `name`, where one is declared.
    pub open spec fn property(self, name: Seq<char>) -> Option<CompiledView> {
        find_property(self.properties, name)
    }
}

/// The compiled schemas of the properties that `schema` declares, in order.
pub open spec fn compiled_properties(schema: JsonView) -> Seq<(Seq<char>, CompiledView)>
    decreases schema, 0nat,
{
    match schema {
        JsonView::Object(members) => {
            proof {
                lemma_lookup_decreases(members, "properties"@);
            }
            match crate::json::lookup(members, "properties"@) {
                Some(JsonView::Object(declared)) => Seq::new(
                    declared.len(),
                    |i: int|
                        if 0 <= i < declared.len() {
                            (declared[i].0, compiled_view(declared[i].1))
                        } else {
                            (Seq::empty(), empty_view())
                        },
                ),
                _ => Seq::empty(),
            }
        },
        _ => Seq::empty(),
    }
}

/// The compiled schema of the member `key` of `schema`, where it has one and, if
/// `objects_only`, that member is an object.
pub open spec fn compiled_member(schema: JsonView, key: Seq<char>, objects_only: bool) -> Option<
    Box<CompiledView>,
>
    decreases schema, 0nat,
{
    match schema {
        JsonView::Object(members) => {
            proof {
                lemma_lookup_decreases(members, key);
            }
            match crate::json::lookup(members, key) {
                Some(child) => if objects_only && !(child is Object) {
                    None
                } else {
                    Some(Box::new(compiled_view(child)))
                },
                None => None,
            }
        },
        _ => None,
    }
}

/// What compiling the schema `schema` comes to: the rules of each node compiled, and the
/// tree of `properties`, `items` and `additionalProperties` kept as it is. An
/// `additionalProperties` that is no object (a boolean, say) is left out.
pub open spec fn compiled_view(schema: JsonView) -> CompiledView
    decreases schema, 1nat,
{
    CompiledView {
        validations: compiled_rules(schema),
        properties: compiled_properties(schema),
        items: compiled_member(schema, "items"@, false),
        additional_properties: compiled_member(schema, "additionalProperties"@, true),
        format: schema_format(schema),
    }
}

impl CompiledSchema {
    /// The compiled schema of the property `name`, where one is declared.
    pub fn property(&self, name: &str) -> (r: Option<&CompiledSchema>)
        ensures
            match r {
                Some(c) => self@.property(name@) == Some(c@),
                None => self@.property(name@) is None,
            },
    {
        let mut i: usize = 0;
        assert(self@.properties.skip(0) =~= self@.properties);
        while i < self.properties.len()
            invariant
                i <= self.properties.len(),
                self@.properties.len() == self.properties.len(),
                forall|j: int|
                    0 <= j < self.properties.len() ==> #[trigger] self@.properties[j] == (
                        self.properties[j].0@,
                        self.properties[j].1@,
                    ),
                find_property(self@.properties, name@) == find_property(
                    self@.properties.skip(i as int),
                    name@,
                ),
            decreases self.properties.len() - i,
        {
            let ghost rest = self@.properties.skip(i as int);
            assert(rest[0] == self@.properties[i as int]);
            assert(rest.drop_first() == self@.properties.skip(i + 1));
            if crate::text::same_text(self.properties[i].0.as_str(), name) {
                return Some(&self.properties[i].1);
            }
            i += 1;
        }
        None
    }
}

/// Compiles every rule of a schema, node by node.
///
/// Never fails: a rule that does not compile is kept as an error among the `validations`
/// of its node.
pub fn compile_schema(schema: &JsonValue) -> (r: CompiledSchema)
    ensures
        r@ == compiled_view(schema@),
    decreases schema,
{
    let validations = compile_schema_validations(schema);
    let mut properties: Vec<(String, CompiledSchema)> = Vec::new();
    match schema.get("properties") {
        Some(p) => match p.as_object() {
            Some(declared) => {
                proof {
                    lemma_object_view(*declared);
                }
                let mut i: usize = 0;
                while i < declared.len()
                    invariant
                        i <= declared.len(),
                        properties.len() == i,
                        decreases_to!(schema => declared),
                        forall|j: int|
                            0 <= j < i ==> (#[trigger] properties[j]).0@ == declared[j].0@
                                && properties[j].1@ == compiled_view(declared[j].1@),
                    decreases declared.len() - i,
                {
                    let name = declared[i].0.clone();
                    let child = compile_schema(&declared[i].1);
                    properties.push((name, child));
                    i += 1;
                }
            },
            None => {},
        },
        None => {},
    }
    let items = match schema.get("items") {
        Some(s) => Some(Box::new(compile_schema(s))),
        None => None,
    };
    let additional_properties = match schema.get("additionalProperties") {
        Some(s) => if s.is_object() {
            Some(Box::new(compile_schema(s)))
        } else {
            None
        },
        None => None,
    };
    let format = SchemaFormat::from_schema(schema);
    let r = CompiledSchema { validations, properties, items, additional_properties, format };
    assert(r@.properties =~= compiled_properties(schema@));
    r
}


/// One bad rule stops none of the others: a schema node has exactly one outcome for each
/// entry of its rules array, in the order of the array, and the outcome of an entry is a
/// compiled rule exactly when the entry holds a rule whose expression parses.
pub proof fn lemma_one_outcome_per_entry(schema: JsonView, entries: Seq<JsonView>)
    requires
        schema.get("x-kubernetes-validations"@) == Some(JsonView::Array(entries)),
    ensures
        compiled_view(schema).validations.len() == entries.len(),
        forall|i: int|
            0 <= i < entries.len() ==> #[trigger] compiled_view(schema).validations[i]
                == compiled_entry(entries[i]),
        forall|i: int|
            0 <= i < entries.len() ==> ((#[trigger] compiled_view(schema).validations[i]
                is Compiled) <==> (rule_of(entries[i]) matches Ok(rule) && expression_parses(
                rule.rule,
            ))),
{
}

/// A rule that compiles is a transition rule exactly when its expression refers to
/// `oldSelf`.
pub proof fn lemma_transition_rule_detected(rule: RuleView)
    requires
        expression_parses(rule.rule),
    ensures
        compiled_rule(rule) matches RuleEntryView::Compiled { transition, .. } && transition
            == expression_references(rule.rule, old_self()),
{
}

} // verus!
