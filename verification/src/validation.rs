//! Validating an object against the rules of its schema.
//!
//! The validator walks the schema and the object together. At each node it evaluates the
//! rules declared there with `self` bound to the value at that place and, where there is
//! one, `oldSelf` bound to the value at the same place of the prior object. Then it goes on
//! to the declared properties that the object has, to the items of an array, and to the
//! members that only `additionalProperties` covers. Every failure is reported with the path
//! of the place where it arose.

use vstd::prelude::*;
use vstd::string::*;
use crate::compilation::{
    CompilationError, CompilationResult, CompiledSchema, CompiledView, RuleEntryView, RuleView,
    compile_schema_validations, compiled_view, outcome_view, outcomes_view,
};
use crate::engine::{
    bind, execution_error_text, expression_parses, from_cel, new_context, parse_detail,
    to_cel,
};
use crate::json::{JsonValue, JsonView, leads, leads_among, lemma_array_view, lemma_object_view};
use crate::model::{CelValue, CelView};
use crate::text::{
    clone_text, concat2, concat3, decimal_string, decimal_text, same_text, text_view,
};
use crate::values::{
    compiled_context, converted, json_to_cel_with_compiled, json_to_cel_with_schema,
    lemma_converted_agrees,
};

verus! {

/// A rule that did not hold, or could not be evaluated.
#[derive(Debug)]
pub struct ValidationError {
    /// The expression of the rule.
    pub rule: String,
    /// What went wrong, for a person to read.
    pub message: String,
    /// The path of the value that the rule was evaluated on, such as `spec.replicas` or
    /// `items[1]`; empty at the root.
    pub field_path: String,
    /// The machine-readable reason that the rule gives.
    pub reason: Option<String>,
}

/// The mathematical value of a [`ValidationError`].
pub struct ErrorView {
    pub rule: Seq<char>,
    pub message: Seq<char>,
    pub field_path: Seq<char>,
    pub reason: Option<Seq<char>>,
}

impl View for ValidationError {
    type V = ErrorView;

    open spec fn view(&self) -> ErrorView {
        ErrorView {
            rule: self.rule@,
            message: self.message@,
            field_path: self.field_path@,
            reason: text_view(self.reason),
        }
    }
}

impl Clone for ValidationError {
    fn clone(&self) -> (r: Self)
        ensures
            r@ == self@,
    {
        ValidationError {
            rule: self.rule.clone(),
            message: self.message.clone(),
            field_path: self.field_path.clone(),
            reason: clone_text(&self.reason),
        }
    }
}

impl ValidationError {
    /// The error as one line of text: the path, a colon and the message, or the message
    /// alone at the root.
    pub fn to_string(&self) -> (r: String)
        ensures
            r@ == if self.field_path@.len() == 0 {
                self.message@
            } else {
                self.field_path@ + ": "@ + self.message@
            },
    {
        if self.field_path.as_str().unicode_len() == 0 {
            self.message.clone()
        } else {
            concat3(self.field_path.as_str(), ": ", self.message.as_str())
        }
    }
}

/// The mathematical values of a list of errors, in order.
pub open spec fn errors_view(errors: Seq<ValidationError>) -> Seq<ErrorView> {
    Seq::new(errors.len(), |i: int| errors[i]@)
}

/// The path of the member `segment` under `base`: the name alone at the root, else the
/// base, a dot and the name.
pub open spec fn joined_path(base: Seq<char>, segment: Seq<char>) -> Seq<char> {
    if base.len() == 0 {
        segment
    } else {
        base + "."@ + segment
    }
}

/// The path of the element `index` under `base`: the base, then the index in brackets.
pub open spec fn indexed_path(base: Seq<char>, index: nat) -> Seq<char> {
    base + "["@ + decimal_text(index) + "]"@
}

/// The path of a member of the value at `base`.
pub fn join_path(base: &str, segment: &str) -> (r: String)
    ensures
        r@ == joined_path(base@, segment@),
{
    if base.unicode_len() == 0 {
        segment.to_owned()
    } else {
        concat3(base, ".", segment)
    }
}

/// The path of an element of the array at `base`.
pub fn join_path_index(base: &str, index: usize) -> (r: String)
    ensures
        r@ == indexed_path(base@, index as nat),
{
    let digits = decimal_string(index as u128);
    let mut out = concat3(base, "[", digits.as_str());
    out.append("]");
    out
}

/// What the engine made of one rule.
#[derive(Debug)]
pub enum Verdict {
    /// The rule evaluated to `true`.
    Passed,
    /// The rule evaluated to `false`. `dynamic` is the text that the rule's message
    /// expression gave, where there is one and it evaluated to a string.
    Failed { dynamic: Option<String> },
    /// The rule evaluated to something that is no boolean.
    NotBool,
    /// The rule could not be evaluated, or its expression not compiled; `detail` is the
    /// engine's account of it.
    Failure { detail: String },
}

/// The mathematical value of a [`Verdict`].
pub enum Observation {
    Passed,
    Failed { dynamic: Option<Seq<char>> },
    NotBool,
    Failure { detail: Seq<char> },
}

impl View for Verdict {
    type V = Observation;

    open spec fn view(&self) -> Observation {
        match self {
            Verdict::Passed => Observation::Passed,
            Verdict::Failed { dynamic } => Observation::Failed { dynamic: text_view(*dynamic) },
            Verdict::NotBool => Observation::NotBool,
            Verdict::Failure { detail } => Observation::Failure { detail: detail@ },
        }
    }
}

/// The message of a rule that failed: what its message expression gave, else its static
/// message, else a default that quotes the rule.
pub open spec fn resolved_message(rule: RuleView, dynamic: Option<Seq<char>>) -> Seq<char> {
    match dynamic {
        Some(text) => text,
        None => match rule.message {
            Some(message) => message,
            None => "failed rule: "@ + rule.rule,
        },
    }
}

/// The account that an observation carries, if it is a failure.
pub open spec fn detail_of(observation: Observation) -> Seq<char> {
    match observation {
        Observation::Failure { detail } => detail,
        _ => Seq::empty(),
    }
}

/// The errors that one rule entry gives at `path`, for what was observed of it.
///
/// A compiled rule gives nothing where it passed, and one error where it failed, was no
/// boolean or could not be evaluated. An entry that did not compile gives one error,
/// whatever the object.
pub open spec fn entry_errors(entry: RuleEntryView, observation: Observation, path: Seq<char>) -> Seq<
    ErrorView,
> {
    match entry {
        RuleEntryView::Compiled { rule, transition, dynamic_message } => match observation {
            Observation::Passed => Seq::empty(),
            Observation::Failed { dynamic } => seq![
                ErrorView {
                    rule: rule.rule,
                    message: resolved_message(
                        rule,
                        if dynamic_message {
                            dynamic
                        } else {
                            None
                        },
                    ),
                    field_path: path,
                    reason: rule.reason,
                },
            ],
            Observation::NotBool => seq![
                ErrorView {
                    rule: rule.rule,
                    message: "rule \""@ + rule.rule + "\" did not evaluate to bool"@,
                    field_path: path,
                    reason: None,
                },
            ],
            Observation::Failure { detail } => seq![
                ErrorView {
                    rule: rule.rule,
                    message: "rule evaluation error: "@ + detail,
                    field_path: path,
                    reason: None,
                },
            ],
        },
        RuleEntryView::ParseFailure { rule } => seq![
            ErrorView {
                rule,
                message: "failed to compile rule \""@ + rule + "\": "@ + detail_of(observation),
                field_path: path,
                reason: None,
            },
        ],
        RuleEntryView::Invalid { message } => seq![
            ErrorView {
                rule: Seq::empty(),
                message: "invalid rule definition: "@ + message,
                field_path: path,
                reason: None,
            },
        ],
    }
}

/// One thing for the validator to do: a rule entry, the values that `self` and `oldSelf`
/// are bound to for it, and the path of the place.
pub struct Task {
    pub entry: RuleEntryView,
    pub value: CelView,
    /// What `oldSelf` is bound to; nothing where it is left unbound.
    pub old: Option<CelView>,
    pub path: Seq<char>,
}

/// Whether a rule is passed over: a transition rule, where there is no prior value and the
/// rule has not asked to be evaluated without one.
pub open spec fn skipped(entry: RuleEntryView, old: Option<CelView>) -> bool {
    match entry {
        RuleEntryView::Compiled { rule, transition, dynamic_message } => transition && old is None
            && rule.optional_old_self != Some(true),
        _ => false,
    }
}

/// What `oldSelf` is bound to for a rule: the prior value where there is one, null where
/// there is none and the rule asked to be evaluated all the same, and nothing otherwise.
pub open spec fn old_binding(entry: RuleEntryView, old: Option<CelView>) -> Option<CelView> {
    match old {
        Some(o) => Some(o),
        None => match entry {
            RuleEntryView::Compiled { rule, transition, dynamic_message } => if rule.optional_old_self
                == Some(true) {
                Some(CelView::Null)
            } else {
                None
            },
            _ => None,
        },
    }
}

/// The task that one rule entry makes, if it is not passed over.
pub open spec fn entry_tasks(
    entry: RuleEntryView,
    value: CelView,
    old: Option<CelView>,
    path: Seq<char>,
) -> Seq<Task> {
    if skipped(entry, old) {
        Seq::empty()
    } else {
        seq![Task { entry, value, old: old_binding(entry, old), path }]
    }
}

/// The tasks that the rule entries of one node make, in order.
pub open spec fn rule_tasks(
    entries: Seq<RuleEntryView>,
    value: CelView,
    old: Option<CelView>,
    path: Seq<char>,
) -> Seq<Task>
    decreases entries.len(),
{
    if entries.len() == 0 {
        Seq::empty()
    } else {
        rule_tasks(entries.drop_last(), value, old, path) + entry_tasks(
            entries.last(),
            value,
            old,
            path,
        )
    }
}

/// The member `name` of the prior value, where there is a prior value that has one.
pub open spec fn old_member(old: Option<JsonView>, name: Seq<char>) -> Option<JsonView> {
    match old {
        Some(o) => o.get(name),
        None => None,
    }
}

/// The element `index` of the prior value, where there is a prior value that has one.
/// Elements are matched by position alone.
pub open spec fn old_item(old: Option<JsonView>, index: int) -> Option<JsonView> {
    match old {
        Some(o) => o.at(index),
        None => None,
    }
}

/// What expressions see of an optional prior value under the node `node`.
pub open spec fn converted_old(old: Option<JsonView>, node: CompiledView) -> Option<CelView> {
    match old {
        Some(o) => Some(converted(o, compiled_context(node))),
        None => None,
    }
}

/// All that the validator does for the value `value` at `path` under the node `node`, in
/// order: the rules of the node, then the declared properties that `value` has, then the
/// elements of `value` if the node declares items, then the members of `value` that no
/// declared property covers if the node has additional properties.
pub open spec fn walk_tasks(
    node: CompiledView,
    value: JsonView,
    old: Option<JsonView>,
    path: Seq<char>,
) -> Seq<Task>
    decreases node, 1nat, 0nat,
{
    rule_tasks(
        node.validations,
        converted(value, compiled_context(node)),
        converted_old(old, node),
        path,
    ) + property_tasks(node, node.properties.len(), value, old, path) + item_tasks(
        node,
        value.items().len(),
        value,
        old,
        path,
    ) + additional_tasks(node, value.entries().len(), value, old, path)
}

/// The tasks under the first `count` declared properties of `node`. A property that has
/// the name of an earlier one is passed over.
pub open spec fn property_tasks(
    node: CompiledView,
    count: nat,
    value: JsonView,
    old: Option<JsonView>,
    path: Seq<char>,
) -> Seq<Task>
    decreases node, 0nat, count,
{
    if count == 0 || count > node.properties.len() || !(value is Object) {
        Seq::empty()
    } else {
        let name = node.properties[count - 1].0;
        property_tasks(node, (count - 1) as nat, value, old, path) + if !leads(
            node.properties,
            count - 1,
        ) {
            Seq::empty()
        } else {
            match value.get(name) {
                Some(child) => walk_tasks(
                    node.properties[count - 1].1,
                    child,
                    old_member(old, name),
                    joined_path(path, name),
                ),
                None => Seq::empty(),
            }
        }
    }
}

/// The tasks under the first `count` elements of `value`.
pub open spec fn item_tasks(
    node: CompiledView,
    count: nat,
    value: JsonView,
    old: Option<JsonView>,
    path: Seq<char>,
) -> Seq<Task>
    decreases node, 0nat, count,
{
    if count == 0 || count > value.items().len() || node.items is None {
        Seq::empty()
    } else {
        item_tasks(node, (count - 1) as nat, value, old, path) + walk_tasks(
            *node.items->Some_0,
            value.items()[count - 1],
            old_item(old, count - 1),
            indexed_path(path, (count - 1) as nat),
        )
    }
}

/// The tasks under those of the first `count` members of `value` that no declared
/// property of `node` covers. An entry that has the name of an earlier one is no member,
/// and is passed over.
pub open spec fn additional_tasks(
    node: CompiledView,
    count: nat,
    value: JsonView,
    old: Option<JsonView>,
    path: Seq<char>,
) -> Seq<Task>
    decreases node, 0nat, count,
{
    if count == 0 || count > value.entries().len() || node.additional_properties is None {
        Seq::empty()
    } else {
        let name = value.entries()[count - 1].0;
        additional_tasks(node, (count - 1) as nat, value, old, path) + if node.property(name)
            is Some || !leads(value.entries(), count - 1) {
            Seq::empty()
        } else {
            walk_tasks(
                *node.additional_properties->Some_0,
                value.entries()[count - 1].1,
                old_member(old, name),
                joined_path(path, name),
            )
        }
    }
}

/// The errors that a list of tasks gives, for what was observed of each.
pub open spec fn report(tasks: Seq<Task>, trace: Seq<Observation>) -> Seq<ErrorView>
    decreases tasks.len(),
{
    if tasks.len() == 0 || trace.len() != tasks.len() {
        Seq::empty()
    } else {
        report(tasks.drop_last(), trace.drop_last()) + entry_errors(
            tasks.last().entry,
            trace.last(),
            tasks.last().path,
        )
    }
}

/// Reporting on two lists of tasks, one after the other, reports on the first and then on
/// the second.
pub proof fn lemma_report_concat(
    first: Seq<Task>,
    first_trace: Seq<Observation>,
    second: Seq<Task>,
    second_trace: Seq<Observation>,
)
    requires
        first.len() == first_trace.len(),
        second.len() == second_trace.len(),
    ensures
        report(first + second, first_trace + second_trace) == report(first, first_trace) + report(
            second,
            second_trace,
        ),
    decreases second.len(),
{
    if second.len() == 0 {
        assert(first + second =~= first);
        assert(first_trace + second_trace =~= first_trace);
        assert(report(first, first_trace) + report(second, second_trace) =~= report(
            first,
            first_trace,
        ));
    } else {
        let tasks = first + second;
        let trace = first_trace + second_trace;
        assert(tasks.drop_last() =~= first + second.drop_last());
        assert(trace.drop_last() =~= first_trace + second_trace.drop_last());
        assert(tasks.last() == second.last());
        assert(trace.last() == second_trace.last());
        lemma_report_concat(first, first_trace, second.drop_last(), second_trace.drop_last());
        assert(report(tasks, trace) =~= report(first, first_trace) + report(second, second_trace));
    }
}


/// A schema node, raw or compiled.
pub enum NodeRef<'a> {
    Raw(&'a JsonValue),
    Compiled(&'a CompiledSchema),
}

/// The properties that a schema node declares, raw or compiled.
pub enum Declared<'a> {
    Raw(&'a Vec<(String, JsonValue)>),
    Compiled(&'a Vec<(String, CompiledSchema)>),
    Nothing,
}

impl<'a> NodeRef<'a> {
    /// The node as a compiled schema: a raw node as what compiling it comes to.
    pub open spec fn node_view(self) -> CompiledView {
        match self {
            NodeRef::Raw(schema) => compiled_view(schema@),
            NodeRef::Compiled(compiled) => compiled@,
        }
    }

    /// The declared properties of the node.
    fn declared(&self) -> (r: Declared<'a>)
        ensures
            r.declared_view() == self.node_view().properties,
    {
        match self {
            NodeRef::Raw(schema) => match schema.get("properties") {
                Some(p) => match p.as_object() {
                    Some(declared) => {
                        proof {
                            lemma_object_view(*declared);
                            assert(Declared::Raw(declared).declared_view()
                                =~= self.node_view().properties);
                        }
                        Declared::Raw(declared)
                    },
                    None => Declared::Nothing,
                },
                None => Declared::Nothing,
            },
            NodeRef::Compiled(compiled) => {
                proof {
                    assert(Declared::Compiled(&compiled.properties).declared_view()
                        =~= self.node_view().properties);
                }
                Declared::Compiled(&compiled.properties)
            },
        }
    }

    /// The node of the items, where the node declares any.
    fn items(&self) -> (r: Option<NodeRef<'a>>)
        ensures
            match r {
                Some(child) => self.node_view().items == Some(Box::new(child.node_view())),
                None => self.node_view().items is None,
            },
    {
        match self {
            NodeRef::Raw(schema) => match schema.get("items") {
                Some(s) => Some(NodeRef::Raw(s)),
                None => None,
            },
            NodeRef::Compiled(compiled) => match &compiled.items {
                Some(b) => Some(NodeRef::Compiled(&**b)),
                None => None,
            },
        }
    }

    /// The node of the additional properties, where the node has any.
    fn additional(&self) -> (r: Option<NodeRef<'a>>)
        ensures
            match r {
                Some(child) => self.node_view().additional_properties == Some(
                    Box::new(child.node_view()),
                ),
                None => self.node_view().additional_properties is None,
            },
    {
        match self {
            NodeRef::Raw(schema) => match schema.get("additionalProperties") {
                Some(s) => if s.is_object() {
                    Some(NodeRef::Raw(s))
                } else {
                    None
                },
                None => None,
            },
            NodeRef::Compiled(compiled) => match &compiled.additional_properties {
                Some(b) => Some(NodeRef::Compiled(&**b)),
                None => None,
            },
        }
    }

    /// Whether the node declares a property named `name`.
    fn has_property(&self, name: &str) -> (r: bool)
        ensures
            r == (self.node_view().property(name@) is Some),
    {
        match self {
            NodeRef::Raw(schema) => {
                proof {
                    crate::values::lemma_compiled_member(schema@, name@);
                    match schema@.get("properties"@) {
                        Some(JsonView::Object(declared)) => {
                            crate::values::lemma_find_property(
                                declared,
                                crate::compilation::compiled_properties(schema@),
                                name@,
                            );
                        },
                        _ => {},
                    }
                }
                match schema.get("properties") {
                    Some(p) => p.get(name).is_some(),
                    None => false,
                }
            },
            NodeRef::Compiled(compiled) => compiled.property(name).is_some(),
        }
    }

    /// What expressions see of `value` at this node.
    fn convert(&self, value: &JsonValue) -> (r: CelValue)
        ensures
            r@ == converted(value@, compiled_context(self.node_view())),
    {
        match self {
            NodeRef::Raw(schema) => {
                proof {
                    lemma_converted_agrees(value@, schema@);
                }
                json_to_cel_with_schema(value, schema)
            },
            NodeRef::Compiled(compiled) => json_to_cel_with_compiled(value, compiled),
        }
    }
}

impl<'a> Declared<'a> {
    /// The declared properties as those of a compiled schema.
    pub open spec fn declared_view(self) -> Seq<(Seq<char>, CompiledView)> {
        match self {
            Declared::Raw(declared) => Seq::new(
                declared@.len(),
                |i: int| (declared@[i].0@, compiled_view(declared@[i].1@)),
            ),
            Declared::Compiled(declared) => Seq::new(
                declared@.len(),
                |i: int| (declared@[i].0@, declared@[i].1@),
            ),
            Declared::Nothing => Seq::empty(),
        }
    }

    /// How many properties are declared.
    fn len(&self) -> (r: usize)
        ensures
            r == self.declared_view().len(),
    {
        match self {
            Declared::Raw(declared) => declared.len(),
            Declared::Compiled(declared) => declared.len(),
            Declared::Nothing => 0,
        }
    }

    /// Whether the declared property at `index` is the first of its name.
    fn leads(&self, index: usize) -> (r: bool)
        requires
            index < self.declared_view().len(),
        ensures
            r == leads(self.declared_view(), index as int),
    {
        let name = self.at(index).0;
        let mut j: usize = 0;
        while j < index
            invariant
                j <= index < self.declared_view().len(),
                name@ == self.declared_view()[index as int].0,
                forall|k: int| 0 <= k < j ==> (#[trigger] self.declared_view()[k]).0 != name@,
            decreases index - j,
        {
            if same_text(self.at(j).0, name) {
                return false;
            }
            j += 1;
        }
        true
    }

    /// The name and the node of the declared property at `index`.
    fn at(&self, index: usize) -> (r: (&'a str, NodeRef<'a>))
        requires
            index < self.declared_view().len(),
        ensures
            r.0@ == self.declared_view()[index as int].0,
            r.1.node_view() == self.declared_view()[index as int].1,
    {
        match self {
            Declared::Raw(declared) => (
                declared[index].0.as_str(),
                NodeRef::Raw(&declared[index].1),
            ),
            Declared::Compiled(declared) => (
                declared[index].0.as_str(),
                NodeRef::Compiled(&declared[index].1),
            ),
            Declared::Nothing => ("", NodeRef::Raw(&JsonValue::Null)),
        }
    }
}


/// The message of a rule that failed: what its message expression gave, if the rule has a
/// compiled one and it gave a text; else its static message; else a default that quotes the
/// rule.
pub fn resolve_message(cr: &CompilationResult, dynamic: &Option<String>) -> (r: String)
    ensures
        r@ == resolved_message(
            cr.rule@,
            if cr.message_program is Some {
                text_view(*dynamic)
            } else {
                None
            },
        ),
{
    if cr.message_program.is_some() {
        if let Some(text) = dynamic {
            return text.clone();
        }
    }
    match &cr.rule.message {
        Some(message) => message.clone(),
        None => concat2("failed rule: ", cr.rule.rule.as_str()),
    }
}

/// The error that a compiled rule gives at `path` for the verdict `verdict`: none where it
/// passed, else the one that says how it failed.
pub fn verdict_error(cr: &CompilationResult, verdict: &Verdict, path: &str) -> (r: Option<
    ValidationError,
>)
    ensures
        match r {
            Some(e) => entry_errors(cr@, verdict@, path@) == seq![e@],
            None => entry_errors(cr@, verdict@, path@) == Seq::<ErrorView>::empty(),
        },
{
    match verdict {
        Verdict::Passed => None,
        Verdict::Failed { dynamic } => Some(
            ValidationError {
                rule: cr.rule.rule.clone(),
                message: resolve_message(cr, dynamic),
                field_path: path.to_owned(),
                reason: clone_text(&cr.rule.reason),
            },
        ),
        Verdict::NotBool => Some(
            ValidationError {
                rule: cr.rule.rule.clone(),
                message: concat3("rule \"", cr.rule.rule.as_str(), "\" did not evaluate to bool"),
                field_path: path.to_owned(),
                reason: None,
            },
        ),
        Verdict::Failure { detail } => Some(
            ValidationError {
                rule: cr.rule.rule.clone(),
                message: concat2("rule evaluation error: ", detail.as_str()),
                field_path: path.to_owned(),
                reason: None,
            },
        ),
    }
}

/// The error that a rule entry which did not compile gives at `path`. `detail` is the
/// parser's account, which only a parse failure quotes.
pub fn compilation_error(error: &CompilationError, detail: &str, path: &str) -> (r:
    ValidationError)
    ensures
        entry_errors(error@, (Observation::Failure { detail: detail@ }), path@) == seq![r@],
{
    match error {
        CompilationError::Parse { rule, source } => {
            let mut message = concat3("failed to compile rule \"", rule.as_str(), "\": ");
            message.append(detail);
            ValidationError {
                rule: rule.clone(),
                message,
                field_path: path.to_owned(),
                reason: None,
            }
        },
        CompilationError::InvalidRule(cause) => ValidationError {
            rule: String::new(),
            message: concat2("invalid rule definition: ", cause.as_str()),
            field_path: path.to_owned(),
            reason: None,
        },
    }
}

/// What a compiled rule is evaluated with: the value of `self` and, where `oldSelf` is
/// bound, its value. Nothing where the rule is passed over.
pub fn rule_bindings(cr: &CompilationResult, value: CelValue, old: Option<CelValue>) -> (r: Option<
    (CelValue, Option<CelValue>),
>)
    ensures
        match r {
            Some(bound) => !skipped(cr@, cel_option_view(old)) && bound.0@ == value@
                && cel_option_view(bound.1) == old_binding(cr@, cel_option_view(old)),
            None => skipped(cr@, cel_option_view(old)),
        },
{
    let optional = match cr.rule.optional_old_self {
        Some(flag) => flag,
        None => false,
    };
    match old {
        Some(o) => Some((value, Some(o))),
        None => if cr.is_transition_rule && !optional {
            None
        } else if optional {
            Some((value, Some(CelValue::Null)))
        } else {
            Some((value, None))
        },
    }
}

/// The mathematical value of an optional value.
pub open spec fn cel_option_view(o: Option<CelValue>) -> Option<CelView> {
    match o {
        Some(v) => Some(v@),
        None => None,
    }
}

/// Appending one error appends its view.
proof fn lemma_errors_push(errors: Seq<ValidationError>, e: ValidationError)
    ensures
        errors_view(errors.push(e)) == errors_view(errors) + seq![e@],
{
    assert(errors_view(errors.push(e)) =~= errors_view(errors) + seq![e@]);
}

/// Reporting on one task reports the errors of its entry.
proof fn lemma_report_one(task: Task, observation: Observation)
    ensures
        report(seq![task], seq![observation]) == entry_errors(task.entry, observation, task.path),
{
    let tasks = seq![task];
    let trace = seq![observation];
    assert(tasks.drop_last() =~= Seq::<Task>::empty());
    assert(report(tasks.drop_last(), trace.drop_last()) =~= Seq::<ErrorView>::empty());
    assert(report(tasks, trace) =~= entry_errors(task.entry, observation, task.path));
}

/// Whether `run` takes every program and every context.
pub open spec fn can_run<F>(run: &F) -> bool where
    F: Fn(&cel::Program, &cel::Context<'static>) -> Result<cel::Value, cel::ExecutionError>,
 {
    forall|program: &cel::Program, ctx: &cel::Context<'static>|
        call_requires(*run, (program, ctx))
}

/// What evaluating a rule came to, as plain data: the value it gave, or the engine's account
/// of why it gave none.
pub open spec fn outcome_of(outcome: Result<CelValue, String>) -> Result<CelView, Seq<char>> {
    match outcome {
        Ok(v) => Ok(v@),
        Err(e) => Err(e@),
    }
}

/// Whether the outcome of a rule is that it does not hold: it evaluated to `false`.
pub open spec fn is_failed(outcome: Result<CelView, Seq<char>>) -> bool {
    outcome == Ok::<CelView, Seq<char>>(CelView::Bool(false))
}

/// What is observed of a rule with the outcome `outcome`: it passed where it evaluated to
/// `true`, it failed where it evaluated to `false`, it was no boolean where it evaluated to
/// anything else, and it could not be evaluated where the engine gave an error. `dynamic`
/// is what the message expression gave; it counts where the rule failed.
pub open spec fn observed(
    outcome: Result<CelView, Seq<char>>,
    dynamic: Option<Seq<char>>,
) -> Observation {
    match outcome {
        Ok(CelView::Bool(true)) => Observation::Passed,
        Ok(CelView::Bool(false)) => Observation::Failed { dynamic },
        Ok(_) => Observation::NotBool,
        Err(detail) => Observation::Failure { detail },
    }
}

/// Whether the outcome of a rule is that it does not hold. Only then is its message
/// expression evaluated.
pub fn rule_failed(outcome: &Result<CelValue, String>) -> (r: bool)
    ensures
        r == is_failed(outcome_of(*outcome)),
{
    match outcome {
        Ok(CelValue::Bool(false)) => true,
        _ => false,
    }
}

/// The verdict on a rule, from the outcome of evaluating it and from what its message
/// expression gave.
pub fn verdict_of(outcome: &Result<CelValue, String>, dynamic: Option<String>) -> (r: Verdict)
    ensures
        r@ == observed(outcome_of(*outcome), text_view(dynamic)),
{
    match outcome {
        Ok(CelValue::Bool(true)) => Verdict::Passed,
        Ok(CelValue::Bool(false)) => Verdict::Failed { dynamic },
        Ok(_) => Verdict::NotBool,
        Err(detail) => Verdict::Failure { detail: detail.clone() },
    }
}

/// The message that the value of a message expression gives: the text of a string, and
/// nothing for any other value.
pub fn message_text(value: CelValue) -> (r: Option<String>)
    ensures
        text_view(r) == match value@ {
            CelView::String(s) => Some(s),
            _ => None,
        },
{
    match value {
        CelValue::String(s) => Some(s),
        _ => None,
    }
}

/// Validates objects against the rules of a schema.
pub struct Validator {
    _private: (),
}

impl Validator {
    /// A validator.
    pub fn new() -> (r: Self) {
        Validator { _private: () }
    }

    /// What evaluating `program` with the variables and functions of `ctx` comes to, as
    /// plain data. `run` does the evaluating.
    fn outcome<F>(&self, program: &cel::Program, ctx: &cel::Context<'static>, run: &F) -> (r:
        Result<CelValue, String>) where
        F: Fn(&cel::Program, &cel::Context<'static>) -> Result<cel::Value, cel::ExecutionError>,

        requires
            can_run(run),
    {
        match run(program, ctx) {
            Ok(v) => Ok(from_cel(&v)),
            Err(e) => Err(execution_error_text(&e)),
        }
    }

    /// What the message expression of a rule gives with the variables of `ctx`: a text,
    /// where the rule has a compiled message expression and it evaluates to a string.
    /// Nothing where the rule has none; where it has one, the engine decides.
    fn dynamic_message<F>(
        &self,
        cr: &CompilationResult,
        ctx: &cel::Context<'static>,
        run: &F,
    ) -> (r: Option<String>) where
        F: Fn(&cel::Program, &cel::Context<'static>) -> Result<cel::Value, cel::ExecutionError>,

        requires
            can_run(run),
        ensures
            cr.message_program is None ==> r is None,
    {
        match &cr.message_program {
            Some(program) => match self.outcome(program, ctx, run) {
                Ok(v) => message_text(v),
                Err(_) => None,
            },
            None => None,
        }
    }

    /// Evaluates one compiled rule on the value at `path` and records the error, if the
    /// rule gives one. A transition rule is passed over where there is no prior value,
    /// unless it asked to be evaluated without one.
    fn evaluate_rule<F>(
        &self,
        cr: &CompilationResult,
        node: &NodeRef<'_>,
        value: &JsonValue,
        old_value: Option<&JsonValue>,
        path: &str,
        errors: &mut Vec<ValidationError>,
        run: &F,
    ) -> (trace: Ghost<Seq<Observation>>) where
        F: Fn(&cel::Program, &cel::Context<'static>) -> Result<cel::Value, cel::ExecutionError>,

        requires
            can_run(run),
        ensures
            trace@.len() == entry_tasks(
                cr@,
                converted(value@, compiled_context(node.node_view())),
                converted_old(crate::values::raw_view(old_value), node.node_view()),
                path@,
            ).len(),
            errors_view(final(errors)@) == errors_view(old(errors)@) + report(
                entry_tasks(
                    cr@,
                    converted(value@, compiled_context(node.node_view())),
                    converted_old(crate::values::raw_view(old_value), node.node_view()),
                    path@,
                ),
                trace@,
            ),
    {
        let self_value = node.convert(value);
        let old_self = match old_value {
            Some(old) => Some(node.convert(old)),
            None => None,
        };
        let ghost tasks = entry_tasks(
            cr@,
            converted(value@, compiled_context(node.node_view())),
            converted_old(crate::values::raw_view(old_value), node.node_view()),
            path@,
        );
        let bound = match rule_bindings(cr, self_value, old_self) {
            Some(bound) => bound,
            None => {
                assert(errors_view(errors@) + report(tasks, Seq::empty()) =~= errors_view(
                    errors@,
                ));
                return Ghost(Seq::empty());
            },
        };
        let mut ctx = new_context();
        crate::register_all(&mut ctx);
        bind(&mut ctx, "self", to_cel(&bound.0));
        match &bound.1 {
            Some(old) => {
                bind(&mut ctx, "oldSelf", to_cel(old));
            },
            None => {},
        }
        let outcome = self.outcome(&cr.program, &ctx, run);
        let dynamic = if rule_failed(&outcome) {
            self.dynamic_message(cr, &ctx, run)
        } else {
            None
        };
        let verdict = verdict_of(&outcome, dynamic);
        proof {
            lemma_report_one(tasks[0], verdict@);
            assert(tasks =~= seq![tasks[0]]);
        }
        match verdict_error(cr, &verdict, path) {
            Some(error) => {
                proof {
                    lemma_errors_push(errors@, error);
                }
                errors.push(error);
            },
            None => {
                assert(errors_view(errors@) + Seq::<ErrorView>::empty() =~= errors_view(errors@));
            },
        }
        let ghost observed = seq![verdict@];
        Ghost(observed)
    }

    /// Evaluates the rule entries of one node, in order, on the value at `path`: a compiled
    /// rule by [`Self::evaluate_rule`], and an entry that did not compile as the error
    /// that says so.
    fn evaluate_compiled_results<F>(
        &self,
        results: &Vec<Result<CompilationResult, CompilationError>>,
        node: &NodeRef<'_>,
        value: &JsonValue,
        old_value: Option<&JsonValue>,
        path: &str,
        errors: &mut Vec<ValidationError>,
        run: &F,
    ) -> (trace: Ghost<Seq<Observation>>) where
        F: Fn(&cel::Program, &cel::Context<'static>) -> Result<cel::Value, cel::ExecutionError>,

        requires
            can_run(run),
        ensures
            trace@.len() == rule_tasks(
                outcomes_view(results@),
                converted(value@, compiled_context(node.node_view())),
                converted_old(crate::values::raw_view(old_value), node.node_view()),
                path@,
            ).len(),
            errors_view(final(errors)@) == errors_view(old(errors)@) + report(
                rule_tasks(
                    outcomes_view(results@),
                    converted(value@, compiled_context(node.node_view())),
                    converted_old(crate::values::raw_view(old_value), node.node_view()),
                    path@,
                ),
                trace@,
            ),
    {
        let ghost start = errors_view(errors@);
        let ghost entries = outcomes_view(results@);
        let ghost cv = converted(value@, compiled_context(node.node_view()));
        let ghost co = converted_old(crate::values::raw_view(old_value), node.node_view());
        let ghost mut trace: Seq<Observation> = Seq::empty();
        let mut i: usize = 0;
        proof {
            assert(entries.take(0) =~= Seq::<RuleEntryView>::empty());
            assert(start + report(Seq::empty(), Seq::empty()) =~= start);
        }
        while i < results.len()
            invariant
                can_run(run),
                i <= results.len(),
                entries == outcomes_view(results@),
                cv == converted(value@, compiled_context(node.node_view())),
                co == converted_old(crate::values::raw_view(old_value), node.node_view()),
                trace.len() == rule_tasks(entries.take(i as int), cv, co, path@).len(),
                errors_view(errors@) == start + report(
                    rule_tasks(entries.take(i as int), cv, co, path@),
                    trace,
                ),
            decreases results.len() - i,
        {
            let ghost before = rule_tasks(entries.take(i as int), cv, co, path@);
            let ghost step = entry_tasks(entries[i as int], cv, co, path@);
            proof {
                assert(entries.take(i + 1).drop_last() =~= entries.take(i as int));
                assert(entries.take(i + 1).last() == entries[i as int]);
                assert(entries[i as int] == outcome_view(results@[i as int]));
            }
            let piece = match &results[i] {
                Ok(cr) => self.evaluate_rule(cr, node, value, old_value, path, errors, run),
                Err(error) => {
                    let detail = match error {
                        CompilationError::Parse { rule, source } => parse_detail(source),
                        CompilationError::InvalidRule(_) => String::new(),
                    };
                    let e = compilation_error(error, detail.as_str(), path);
                    proof {
                        lemma_errors_push(errors@, e);
                        lemma_report_one(step[0], (Observation::Failure { detail: detail@ }));
                        assert(step =~= seq![step[0]]);
                    }
                    errors.push(e);
                    let ghost observed = seq![(Observation::Failure { detail: detail@ })];
                    Ghost(observed)
                },
            };
            proof {
                lemma_report_concat(before, trace, step, piece@);
                assert(errors_view(errors@) =~= start + report(before + step, trace + piece@));
                trace = trace + piece@;
            }
            i += 1;
        }
        proof {
            assert(entries.take(results.len() as int) =~= entries);
        }
        Ghost(trace)
    }
}


impl Validator {
    /// Evaluates the rules of one node on the value at `path`: those of a raw node are
    /// compiled first, those of a compiled node were compiled already.
    fn evaluate_validations<F>(
        &self,
        node: &NodeRef<'_>,
        value: &JsonValue,
        old_value: Option<&JsonValue>,
        path: &str,
        errors: &mut Vec<ValidationError>,
        run: &F,
    ) -> (trace: Ghost<Seq<Observation>>) where
        F: Fn(&cel::Program, &cel::Context<'static>) -> Result<cel::Value, cel::ExecutionError>,

        requires
            can_run(run),
        ensures
            trace@.len() == rule_tasks(
                node.node_view().validations,
                converted(value@, compiled_context(node.node_view())),
                converted_old(crate::values::raw_view(old_value), node.node_view()),
                path@,
            ).len(),
            errors_view(final(errors)@) == errors_view(old(errors)@) + report(
                rule_tasks(
                    node.node_view().validations,
                    converted(value@, compiled_context(node.node_view())),
                    converted_old(crate::values::raw_view(old_value), node.node_view()),
                    path@,
                ),
                trace@,
            ),
    {
        match node {
            NodeRef::Raw(schema) => {
                let compiled = compile_schema_validations(schema);
                self.evaluate_compiled_results(
                    &compiled,
                    node,
                    value,
                    old_value,
                    path,
                    errors,
                    run,
                )
            },
            NodeRef::Compiled(compiled) => self.evaluate_compiled_results(
                &compiled.validations,
                node,
                value,
                old_value,
                path,
                errors,
                run,
            ),
        }
    }

    /// Walks the value at `path` under `node`: the rules of the node, then the declared
    /// properties that the value has, then its elements, then the members that only the
    /// additional properties cover.
    fn walk<F>(
        &self,
        node: NodeRef<'_>,
        value: &JsonValue,
        old_value: Option<&JsonValue>,
        path: String,
        errors: &mut Vec<ValidationError>,
        run: &F,
    ) -> (trace: Ghost<Seq<Observation>>) where
        F: Fn(&cel::Program, &cel::Context<'static>) -> Result<cel::Value, cel::ExecutionError>,

        requires
            can_run(run),
        ensures
            trace@.len() == walk_tasks(
                node.node_view(),
                value@,
                crate::values::raw_view(old_value),
                path@,
            ).len(),
            errors_view(final(errors)@) == errors_view(old(errors)@) + report(
                walk_tasks(node.node_view(), value@, crate::values::raw_view(old_value), path@),
                trace@,
            ),
        decreases node.node_view(),
    {
        let ghost start = errors_view(errors@);
        let ghost view = node.node_view();
        let ghost old = crate::values::raw_view(old_value);
        let rules = self.evaluate_validations(
            &node,
            value,
            old_value,
            path.as_str(),
            errors,
            run,
        );
        let ghost rule_part = rule_tasks(
            view.validations,
            converted(value@, compiled_context(view)),
            converted_old(old, view),
            path@,
        );
        let ghost mut tasks = rule_part;
        let ghost mut trace = rules@;

        let declared = node.declared();
        if let Some(obj) = value.as_object() {
            let mut i: usize = 0;
            proof {
                assert(tasks =~= rule_part + property_tasks(view, 0, value@, old, path@));
            }
            let count = declared.len();
            while i < count
                invariant
                    can_run(run),
                    i <= count,
                    count == view.properties.len(),
                    view == node.node_view(),
                    old == crate::values::raw_view(old_value),
                    declared.declared_view() == view.properties,
                    value@ is Object,
                    tasks.len() == trace.len(),
                    tasks == rule_part + property_tasks(view, i as nat, value@, old, path@),
                    errors_view(errors@) == start + report(tasks, trace),
                decreases count - i,
            {
                let (name, child) = declared.at(i);
                let ghost before = property_tasks(view, i as nat, value@, old, path@);
                if !declared.leads(i) {
                    proof {
                        assert(before + Seq::<Task>::empty() =~= before);
                    }
                } else if let Some(child_value) = value.get(name) {
                    let child_old = match old_value {
                        Some(o) => o.get(name),
                        None => None,
                    };
                    let child_path = join_path(path.as_str(), name);
                    let ghost step = walk_tasks(
                        child.node_view(),
                        child_value@,
                        crate::values::raw_view(child_old),
                        child_path@,
                    );
                    let piece = self.walk(
                        child,
                        child_value,
                        child_old,
                        child_path,
                        errors,
                        run,
                    );
                    proof {
                        lemma_report_concat(tasks, trace, step, piece@);
                        assert(start + report(tasks, trace) + report(step, piece@) =~= start + (
                        report(tasks, trace) + report(step, piece@)));
                        assert(rule_part + (before + step) =~= rule_part + before + step);
                        tasks = tasks + step;
                        trace = trace + piece@;
                    }
                } else {
                    proof {
                        assert(before + Seq::<Task>::empty() =~= before);
                    }
                }
                i += 1;
            }
        } else {
            proof {
                assert(tasks =~= rule_part + property_tasks(
                    view,
                    view.properties.len(),
                    value@,
                    old,
                    path@,
                ));
            }
        }
        let ghost property_part = property_tasks(
            view,
            view.properties.len(),
            value@,
            old,
            path@,
        );
        assert(tasks == rule_part + property_part);

        match (node.items(), value.as_array()) {
            (Some(items_node), Some(arr)) => {
                proof {
                    lemma_array_view(*arr);
                    assert(tasks =~= rule_part + property_part + item_tasks(
                        view,
                        0,
                        value@,
                        old,
                        path@,
                    ));
                }
                let mut i: usize = 0;
                while i < arr.len()
                    invariant
                        can_run(run),
                        i <= arr.len(),
                        view == node.node_view(),
                        old == crate::values::raw_view(old_value),
                        view.items == Some(Box::new(items_node.node_view())),
                        *value == JsonValue::Array(*arr),
                        value@.items().len() == arr.len(),
                        forall|j: int| 0 <= j < arr.len() ==> #[trigger] value@.items()[j] == arr[j]@,
                        tasks.len() == trace.len(),
                        tasks == rule_part + property_part + item_tasks(
                            view,
                            i as nat,
                            value@,
                            old,
                            path@,
                        ),
                        errors_view(errors@) == start + report(tasks, trace),
                    decreases arr.len() - i,
                {
                    let ghost before = item_tasks(view, i as nat, value@, old, path@);
                    let old_item = match old_value {
                        Some(o) => match o.as_array() {
                            Some(a) => if i < a.len() {
                                proof {
                                    lemma_array_view(*a);
                                }
                                Some(&a[i])
                            } else {
                                proof {
                                    lemma_array_view(*a);
                                }
                                None
                            },
                            None => None,
                        },
                        None => None,
                    };
                    assert(crate::values::raw_view(old_item) == self::old_item(old, i as int));
                    let item_path = join_path_index(path.as_str(), i);
                    let ghost step = walk_tasks(
                        items_node.node_view(),
                        arr[i as int]@,
                        crate::values::raw_view(old_item),
                        item_path@,
                    );
                    let child = match &items_node {
                        NodeRef::Raw(s) => NodeRef::Raw(*s),
                        NodeRef::Compiled(c) => NodeRef::Compiled(*c),
                    };
                    let piece = self.walk(child, &arr[i], old_item, item_path, errors, run);
                    proof {
                        lemma_report_concat(tasks, trace, step, piece@);
                        assert(start + report(tasks, trace) + report(step, piece@) =~= start + (
                        report(tasks, trace) + report(step, piece@)));
                        assert(rule_part + property_part + (before + step) =~= rule_part
                            + property_part + before + step);
                        tasks = tasks + step;
                        trace = trace + piece@;
                    }
                    i += 1;
                }
            },
            _ => {
                proof {
                    assert(item_tasks(view, value@.items().len(), value@, old, path@)
                        =~= Seq::<Task>::empty());
                    assert(tasks =~= rule_part + property_part + item_tasks(
                        view,
                        value@.items().len(),
                        value@,
                        old,
                        path@,
                    ));
                }
            },
        }
        let ghost item_part = item_tasks(view, value@.items().len(), value@, old, path@);
        assert(tasks == rule_part + property_part + item_part);

        match (node.additional(), value.as_object()) {
            (Some(additional_node), Some(obj)) => {
                proof {
                    lemma_object_view(*obj);
                    assert(tasks =~= rule_part + property_part + item_part + additional_tasks(
                        view,
                        0,
                        value@,
                        old,
                        path@,
                    ));
                }
                let mut i: usize = 0;
                while i < obj.len()
                    invariant
                        can_run(run),
                        i <= obj.len(),
                        view == node.node_view(),
                        old == crate::values::raw_view(old_value),
                        view.additional_properties == Some(Box::new(additional_node.node_view())),
                        *value == JsonValue::Object(*obj),
                        value@.entries().len() == obj.len(),
                        forall|j: int|
                            0 <= j < obj.len() ==> #[trigger] value@.entries()[j] == (
                                obj[j].0@,
                                obj[j].1@,
                            ),
                        tasks.len() == trace.len(),
                        tasks == rule_part + property_part + item_part + additional_tasks(
                            view,
                            i as nat,
                            value@,
                            old,
                            path@,
                        ),
                        errors_view(errors@) == start + report(tasks, trace),
                    decreases obj.len() - i,
                {
                    let ghost before = additional_tasks(view, i as nat, value@, old, path@);
                    let key = obj[i].0.as_str();
                    assert(value@.entries()[i as int] == (obj[i as int].0@, obj[i as int].1@));
                    if node.has_property(key) || !leads_among(obj, i) {
                        proof {
                            assert(before + Seq::<Task>::empty() =~= before);
                        }
                    } else {
                        let old_val = match old_value {
                            Some(o) => o.get(key),
                            None => None,
                        };
                        let child_path = join_path(path.as_str(), key);
                        let ghost step = walk_tasks(
                            additional_node.node_view(),
                            obj[i as int].1@,
                            crate::values::raw_view(old_val),
                            child_path@,
                        );
                        let child = match &additional_node {
                            NodeRef::Raw(s) => NodeRef::Raw(*s),
                            NodeRef::Compiled(c) => NodeRef::Compiled(*c),
                        };
                        let piece = self.walk(
                            child,
                            &obj[i].1,
                            old_val,
                            child_path,
                            errors,
                            run,
                        );
                        proof {
                            lemma_report_concat(tasks, trace, step, piece@);
                            assert(start + report(tasks, trace) + report(step, piece@) =~= start
                                + (report(tasks, trace) + report(step, piece@)));
                            assert(rule_part + property_part + item_part + (before + step)
                                =~= rule_part + property_part + item_part + before + step);
                            tasks = tasks + step;
                            trace = trace + piece@;
                        }
                    }
                    i += 1;
                }
            },
            _ => {
                proof {
                    assert(additional_tasks(view, value@.entries().len(), value@, old, path@)
                        =~= Seq::<Task>::empty());
                    assert(tasks =~= rule_part + property_part + item_part + additional_tasks(
                        view,
                        value@.entries().len(),
                        value@,
                        old,
                        path@,
                    ));
                }
            },
        }
        Ghost(trace)
    }
}


/// Whether `errors` is what validating comes to for some outcome of each task of `tasks`.
pub open spec fn reports(tasks: Seq<Task>, errors: Seq<ErrorView>) -> bool {
    exists|trace: Seq<Observation>| trace.len() == tasks.len() && errors == report(tasks, trace)
}

/// All that validating `object` against the compiled schema `node` does, in order.
pub open spec fn validation_tasks(
    node: CompiledView,
    object: JsonView,
    old_object: Option<JsonView>,
) -> Seq<Task> {
    walk_tasks(node, object, old_object, Seq::empty())
}

impl Validator {
    /// Walks a value under a raw schema node, compiling the rules of each node it comes to.
    fn walk_schema<F>(
        &self,
        schema: &JsonValue,
        value: &JsonValue,
        old_value: Option<&JsonValue>,
        path: String,
        errors: &mut Vec<ValidationError>,
        run: &F,
    ) -> (trace: Ghost<Seq<Observation>>) where
        F: Fn(&cel::Program, &cel::Context<'static>) -> Result<cel::Value, cel::ExecutionError>,

        requires
            can_run(run),
        ensures
            trace@.len() == walk_tasks(
                compiled_view(schema@),
                value@,
                crate::values::raw_view(old_value),
                path@,
            ).len(),
            errors_view(final(errors)@) == errors_view(old(errors)@) + report(
                walk_tasks(
                    compiled_view(schema@),
                    value@,
                    crate::values::raw_view(old_value),
                    path@,
                ),
                trace@,
            ),
    {
        self.walk(NodeRef::Raw(schema), value, old_value, path, errors, run)
    }

    /// Walks a value under a compiled schema node.
    fn walk_compiled<F>(
        &self,
        compiled: &CompiledSchema,
        value: &JsonValue,
        old_value: Option<&JsonValue>,
        path: String,
        errors: &mut Vec<ValidationError>,
        run: &F,
    ) -> (trace: Ghost<Seq<Observation>>) where
        F: Fn(&cel::Program, &cel::Context<'static>) -> Result<cel::Value, cel::ExecutionError>,

        requires
            can_run(run),
        ensures
            trace@.len() == walk_tasks(
                compiled@,
                value@,
                crate::values::raw_view(old_value),
                path@,
            ).len(),
            errors_view(final(errors)@) == errors_view(old(errors)@) + report(
                walk_tasks(compiled@, value@, crate::values::raw_view(old_value), path@),
                trace@,
            ),
    {
        self.walk(NodeRef::Compiled(compiled), value, old_value, path, errors, run)
    }

    /// Validates `object` against the rules of `schema`, compiling each rule as it comes
    /// to it. `old_object` is the prior version of the object, where there is one. `run`
    /// evaluates a program with a context, as `Program::execute` does; whatever the engine
    /// may do while it runs is for `run` to contain.
    ///
    /// The errors are those of the tasks of [`validation_tasks`] on the schema compiled,
    /// in order, for what the engine made of each.
    pub fn validate<F>(
        &self,
        schema: &JsonValue,
        object: &JsonValue,
        old_object: Option<&JsonValue>,
        run: F,
    ) -> (r: Vec<ValidationError>) where
        F: Fn(&cel::Program, &cel::Context<'static>) -> Result<cel::Value, cel::ExecutionError>,

        requires
            can_run(&run),
        ensures
            reports(
                validation_tasks(
                    compiled_view(schema@),
                    object@,
                    crate::values::raw_view(old_object),
                ),
                errors_view(r@),
            ),
    {
        let mut errors: Vec<ValidationError> = Vec::new();
        let trace = self.walk_schema(
            schema,
            object,
            old_object,
            String::new(),
            &mut errors,
            &run,
        );
        proof {
            assert(errors_view(Seq::empty()) + errors_view(errors@) =~= errors_view(errors@));
            assert(trace@.len() == validation_tasks(
                compiled_view(schema@),
                object@,
                crate::values::raw_view(old_object),
            ).len());
        }
        errors
    }

    /// Validates `object` against a schema compiled before by
    /// [`compile_schema`](crate::compilation::compile_schema). `run` evaluates a program
    /// with a context, as in [`Self::validate`].
    ///
    /// The errors are those of the tasks of [`validation_tasks`], in order, for what the
    /// engine made of each.
    pub fn validate_compiled<F>(
        &self,
        compiled: &CompiledSchema,
        object: &JsonValue,
        old_object: Option<&JsonValue>,
        run: F,
    ) -> (r: Vec<ValidationError>) where
        F: Fn(&cel::Program, &cel::Context<'static>) -> Result<cel::Value, cel::ExecutionError>,

        requires
            can_run(&run),
        ensures
            reports(
                validation_tasks(compiled@, object@, crate::values::raw_view(old_object)),
                errors_view(r@),
            ),
    {
        let mut errors: Vec<ValidationError> = Vec::new();
        let trace = self.walk_compiled(
            compiled,
            object,
            old_object,
            String::new(),
            &mut errors,
            &run,
        );
        proof {
            assert(errors_view(Seq::empty()) + errors_view(errors@) =~= errors_view(errors@));
            assert(trace@.len() == validation_tasks(
                compiled@,
                object@,
                crate::values::raw_view(old_object),
            ).len());
        }
        errors
    }
}

impl Default for Validator {
    fn default() -> Self {
        Validator::new()
    }
}

/// Validates without making a [`Validator`] first: see [`Validator::validate`].
pub fn validate<F>(
    schema: &JsonValue,
    object: &JsonValue,
    old_object: Option<&JsonValue>,
    run: F,
) -> (r: Vec<ValidationError>) where
    F: Fn(&cel::Program, &cel::Context<'static>) -> Result<cel::Value, cel::ExecutionError>,

    requires
        can_run(&run),
    ensures
        reports(
            validation_tasks(
                compiled_view(schema@),
                object@,
                crate::values::raw_view(old_object),
            ),
            errors_view(r@),
        ),
{
    Validator::new().validate(schema, object, old_object, run)
}

/// Validates against a compiled schema without making a [`Validator`] first: see
/// [`Validator::validate_compiled`].
pub fn validate_compiled<F>(
    compiled: &CompiledSchema,
    object: &JsonValue,
    old_object: Option<&JsonValue>,
    run: F,
) -> (r: Vec<ValidationError>) where
    F: Fn(&cel::Program, &cel::Context<'static>) -> Result<cel::Value, cel::ExecutionError>,

    requires
        can_run(&run),
    ensures
        reports(
            validation_tasks(compiled@, object@, crate::values::raw_view(old_object)),
            errors_view(r@),
        ),
{
    Validator::new().validate_compiled(compiled, object, old_object, run)
}


/// Whether `entry` is a transition rule that has not asked to be evaluated without a prior
/// value.
pub open spec fn unasked_transition(entry: RuleEntryView) -> bool {
    match entry {
        RuleEntryView::Compiled { rule, transition, dynamic_message } => transition
            && rule.optional_old_self != Some(true),
        _ => false,
    }
}

/// Whether none of `tasks` evaluates a transition rule that has not asked for it.
pub open spec fn none_unasked(tasks: Seq<Task>) -> bool {
    forall|i: int| 0 <= i < tasks.len() ==> !unasked_transition(#[trigger] tasks[i].entry)
}

proof fn lemma_none_unasked_concat(a: Seq<Task>, b: Seq<Task>)
    requires
        none_unasked(a),
        none_unasked(b),
    ensures
        none_unasked(a + b),
{
    assert forall|i: int| 0 <= i < (a + b).len() implies !unasked_transition(
        #[trigger] (a + b)[i].entry,
    ) by {
        if i < a.len() {
            assert((a + b)[i] == a[i]);
        } else {
            assert((a + b)[i] == b[i - a.len()]);
        }
    }
}

proof fn lemma_rules_skipped(entries: Seq<RuleEntryView>, value: CelView, path: Seq<char>)
    ensures
        none_unasked(rule_tasks(entries, value, None, path)),
    decreases entries.len(),
{
    if entries.len() > 0 {
        lemma_rules_skipped(entries.drop_last(), value, path);
        lemma_none_unasked_concat(
            rule_tasks(entries.drop_last(), value, None, path),
            entry_tasks(entries.last(), value, None, path),
        );
    }
}

proof fn lemma_properties_skipped(node: CompiledView, count: nat, value: JsonView, path: Seq<char>)
    ensures
        none_unasked(property_tasks(node, count, value, None, path)),
    decreases node, 0nat, count,
{
    if !(count == 0 || count > node.properties.len() || !(value is Object)) {
        let name = node.properties[count - 1].0;
        lemma_properties_skipped(node, (count - 1) as nat, value, path);
        let step = match value.get(name) {
            Some(child) => {
                lemma_transition_rules_skipped(
                    node.properties[count - 1].1,
                    child,
                    joined_path(path, name),
                );
                walk_tasks(node.properties[count - 1].1, child, None, joined_path(path, name))
            },
            None => Seq::empty(),
        };
        lemma_none_unasked_concat(
            property_tasks(node, (count - 1) as nat, value, None, path),
            step,
        );
    }
}

proof fn lemma_items_skipped(node: CompiledView, count: nat, value: JsonView, path: Seq<char>)
    ensures
        none_unasked(item_tasks(node, count, value, None, path)),
    decreases node, 0nat, count,
{
    if !(count == 0 || count > value.items().len() || node.items is None) {
        lemma_items_skipped(node, (count - 1) as nat, value, path);
        lemma_transition_rules_skipped(
            *node.items->Some_0,
            value.items()[count - 1],
            indexed_path(path, (count - 1) as nat),
        );
        lemma_none_unasked_concat(
            item_tasks(node, (count - 1) as nat, value, None, path),
            walk_tasks(
                *node.items->Some_0,
                value.items()[count - 1],
                None,
                indexed_path(path, (count - 1) as nat),
            ),
        );
    }
}

proof fn lemma_additional_skipped(node: CompiledView, count: nat, value: JsonView, path: Seq<char>)
    ensures
        none_unasked(additional_tasks(node, count, value, None, path)),
    decreases node, 0nat, count,
{
    if !(count == 0 || count > value.entries().len() || node.additional_properties is None) {
        let name = value.entries()[count - 1].0;
        lemma_additional_skipped(node, (count - 1) as nat, value, path);
        let step = if node.property(name) is Some {
            Seq::empty()
        } else {
            lemma_transition_rules_skipped(
                *node.additional_properties->Some_0,
                value.entries()[count - 1].1,
                joined_path(path, name),
            );
            walk_tasks(
                *node.additional_properties->Some_0,
                value.entries()[count - 1].1,
                None,
                joined_path(path, name),
            )
        };
        lemma_none_unasked_concat(
            additional_tasks(node, (count - 1) as nat, value, None, path),
            step,
        );
    }
}

/// Without a prior object, no transition rule is evaluated anywhere in the walk unless it
/// set `optionalOldSelf`: none of the tasks is for such a rule, so there is no attempt to
/// evaluate it and no error from it.
pub proof fn lemma_transition_rules_skipped(node: CompiledView, value: JsonView, path: Seq<char>)
    ensures
        none_unasked(walk_tasks(node, value, None, path)),
    decreases node, 1nat, 0nat,
{
    let rules = rule_tasks(
        node.validations,
        converted(value, compiled_context(node)),
        converted_old(None, node),
        path,
    );
    let properties = property_tasks(node, node.properties.len(), value, None, path);
    let items = item_tasks(node, value.items().len(), value, None, path);
    let additional = additional_tasks(node, value.entries().len(), value, None, path);
    lemma_rules_skipped(node.validations, converted(value, compiled_context(node)), path);
    lemma_properties_skipped(node, node.properties.len(), value, path);
    lemma_items_skipped(node, value.items().len(), value, path);
    lemma_additional_skipped(node, value.entries().len(), value, path);
    lemma_none_unasked_concat(rules, properties);
    lemma_none_unasked_concat(rules + properties, items);
    lemma_none_unasked_concat(rules + properties + items, additional);
}

/// A rule that set `optionalOldSelf` is evaluated where there is no prior value, with
/// `oldSelf` bound to null: among the tasks of its node there is one for it with that
/// binding.
pub proof fn lemma_optional_old_self_evaluated(
    entries: Seq<RuleEntryView>,
    k: int,
    value: CelView,
    path: Seq<char>,
)
    requires
        0 <= k < entries.len(),
        entries[k] matches RuleEntryView::Compiled { rule, .. } && rule.optional_old_self == Some(
            true,
        ),
    ensures
        exists|i: int|
            0 <= i < rule_tasks(entries, value, None, path).len() && #[trigger] rule_tasks(
                entries,
                value,
                None,
                path,
            )[i] == (Task { entry: entries[k], value, old: Some(CelView::Null), path }),
    decreases entries.len(),
{
    let before = rule_tasks(entries.drop_last(), value, None, path);
    let last = entry_tasks(entries.last(), value, None, path);
    let all = rule_tasks(entries, value, None, path);
    if k == entries.len() - 1 {
        assert(all[before.len() as int] == last[0]);
    } else {
        lemma_optional_old_self_evaluated(entries.drop_last(), k, value, path);
        let i = choose|i: int|
            0 <= i < before.len() && #[trigger] before[i] == (Task {
                entry: entries.drop_last()[k],
                value,
                old: Some(CelView::Null),
                path,
            });
        assert(all[i] == before[i]);
    }
}

/// Whether `part` stands in `tasks`, whole and in one piece, from the place `at` on.
pub open spec fn part_at(tasks: Seq<Task>, at: int, part: Seq<Task>) -> bool {
    0 <= at && at + part.len() <= tasks.len() && tasks.subrange(at, at + part.len()) == part
}

/// The tasks under the first elements of an array stay where they are when more elements
/// follow.
proof fn lemma_item_tasks_grow(
    node: CompiledView,
    fewer: nat,
    count: nat,
    value: JsonView,
    old: Option<JsonView>,
    path: Seq<char>,
)
    requires
        node.items is Some,
        fewer <= count <= value.items().len(),
    ensures
        part_at(
            item_tasks(node, count, value, old, path),
            0,
            item_tasks(node, fewer, value, old, path),
        ),
    decreases count,
{
    let all = item_tasks(node, count, value, old, path);
    let part = item_tasks(node, fewer, value, old, path);
    if fewer == count {
        assert(all.subrange(0, all.len() as int) =~= all);
    } else {
        lemma_item_tasks_grow(node, fewer, (count - 1) as nat, value, old, path);
        let before = item_tasks(node, (count - 1) as nat, value, old, path);
        assert(all.subrange(0, part.len() as int) =~= before.subrange(0, part.len() as int));
    }
}

/// The elements of an array are held against those of the prior array by position alone.
/// Where the node declares items, the tasks of the walk hold, in one piece, the tasks of
/// each element of the value: walked at the path with its index, against the element of
/// the prior value at that same index, or against nothing where the prior value has no
/// element there. Under an element without a prior one no transition rule is evaluated
/// unless it set `optionalOldSelf`.
pub proof fn lemma_items_paired_by_position(
    node: CompiledView,
    value: JsonView,
    old: Option<JsonView>,
    path: Seq<char>,
    index: int,
)
    requires
        node.items is Some,
        0 <= index < value.items().len(),
    ensures
        exists|at: int| #[trigger]
            part_at(
                walk_tasks(node, value, old, path),
                at,
                walk_tasks(
                    *node.items->Some_0,
                    value.items()[index],
                    old_item(old, index),
                    indexed_path(path, index as nat),
                ),
            ),
        old_item(old, index) == match old {
            Some(JsonView::Array(items)) if index < items.len() => Some(items[index]),
            _ => None,
        },
        old_item(old, index) is None ==> none_unasked(
            walk_tasks(
                *node.items->Some_0,
                value.items()[index],
                old_item(old, index),
                indexed_path(path, index as nat),
            ),
        ),
{
    lemma_transition_rules_skipped(
        *node.items->Some_0,
        value.items()[index],
        indexed_path(path, index as nat),
    );
    let rules = rule_tasks(
        node.validations,
        converted(value, compiled_context(node)),
        converted_old(old, node),
        path,
    );
    let properties = property_tasks(node, node.properties.len(), value, old, path);
    let items = item_tasks(node, value.items().len(), value, old, path);
    let additional = additional_tasks(node, value.entries().len(), value, old, path);
    let before = item_tasks(node, index as nat, value, old, path);
    let upto = item_tasks(node, (index + 1) as nat, value, old, path);
    let step = walk_tasks(
        *node.items->Some_0,
        value.items()[index],
        old_item(old, index),
        indexed_path(path, index as nat),
    );
    let all = walk_tasks(node, value, old, path);
    lemma_item_tasks_grow(node, (index + 1) as nat, value.items().len(), value, old, path);
    assert(upto == before + step);
    let at = (rules.len() + properties.len() + before.len()) as int;
    assert(all == rules + properties + items + additional);
    assert(items.subrange(0, upto.len() as int) == upto);
    assert(all.subrange(at, at + step.len()) =~= step) by {
        assert forall|i: int| 0 <= i < step.len() implies all[at + i] == step[i] by {
            assert(all[at + i] == items[before.len() + i]);
            assert(items[before.len() + i] == items.subrange(0, upto.len() as int)[before.len()
                + i]);
            assert(upto[before.len() + i] == step[i]);
        }
    }
    assert(part_at(all, at, step));
}

/// The message of a rule that failed. What a message expression that compiled gave wins
/// over the static message. A message expression that does not compile counts for nothing:
/// the static message is reported. Where there is neither, the message is a default that
/// ends with the rule's own text.
pub proof fn lemma_message_priority(rule: RuleView, dynamic: Option<Seq<char>>, path: Seq<char>)
    requires
        expression_parses(rule.rule),
    ensures
        entry_errors(
            crate::compilation::compiled_rule(rule),
            (Observation::Failed { dynamic }),
            path,
        ).len() == 1,
        ({
            let message = entry_errors(
                crate::compilation::compiled_rule(rule),
                (Observation::Failed { dynamic }),
                path,
            )[0].message;
            let compiles = rule.message_expression matches Some(m)
                && crate::engine::expression_parses(m);
            &&& compiles && dynamic is Some ==> message == dynamic->Some_0
            &&& !compiles && rule.message is Some ==> message == rule.message->Some_0
            &&& dynamic is None && rule.message is Some ==> message == rule.message->Some_0
            &&& (!compiles || dynamic is None) && rule.message is None ==> message
                == "failed rule: "@ + rule.rule
        }),
{
}

/// The two entry points agree: what [`validate`] can report on a schema is what
/// [`validate_compiled`] can report on that schema compiled, for the same object and the
/// same prior object. Both go through the same tasks in the same order, so where the
/// engine makes the same of each task the two lists of errors are equal, entry by entry.
pub proof fn lemma_entry_points_agree(
    schema: JsonValue,
    compiled: CompiledSchema,
    object: JsonView,
    old_object: Option<JsonView>,
    errors: Seq<ErrorView>,
)
    requires
        compiled@ == compiled_view(schema@),
    ensures
        validation_tasks(compiled_view(schema@), object, old_object) == validation_tasks(
            compiled@,
            object,
            old_object,
        ),
        forall|trace: Seq<Observation>| #[trigger]
            report(validation_tasks(compiled_view(schema@), object, old_object), trace) == report(
                validation_tasks(compiled@, object, old_object),
                trace,
            ),
        reports(validation_tasks(compiled_view(schema@), object, old_object), errors) <==> reports(
            validation_tasks(compiled@, object, old_object),
            errors,
        ),
{
}

} // verus!
