//! The inspector: targets whose fields hold values under a schema. Each target has a
//! revision; a client changes a field by naming the revision it last saw, and an
//! accepted change advances the revision exactly once. A refused change changes
//! nothing.
//!
//! Numbers are kept as the bits of IEEE 754 doubles. Whether a number meets a numeric
//! rule (a range, or a range with a step) is decided by the caller's `number_ok`
//! function: that check is floating-point arithmetic and is not done here.
use vstd::prelude::*;
use crate::hub_core::{ErrorCode, HubError};
use crate::strmap::StrMap;
use crate::text::{append_decimal, chars_of, decimal};

verus! {

/// A field value. A number is the bit pattern of an IEEE 754 double.
#[derive(Debug, Clone, PartialEq, Eq)]
pub enum InspectorValue {
    Text(String),
    Number(u64),
    Toggle(bool),
    Select(String),
}

/// A field value with its text taken as characters.
pub ghost enum InspectorValueView {
    Text(Seq<char>),
    Number(u64),
    Toggle(bool),
    Select(Seq<char>),
}

impl View for InspectorValue {
    type V = InspectorValueView;

    open spec fn view(&self) -> InspectorValueView {
        match self {
            InspectorValue::Text(s) => InspectorValueView::Text(s@),
            InspectorValue::Number(n) => InspectorValueView::Number(*n),
            InspectorValue::Toggle(b) => InspectorValueView::Toggle(*b),
            InspectorValue::Select(s) => InspectorValueView::Select(s@),
        }
    }
}

impl InspectorValue {
    /// A copy of this value.
    pub fn copy(&self) -> (r: Self)
        ensures
            r@ == self@,
    {
        match self {
            InspectorValue::Text(s) => InspectorValue::Text(s.clone()),
            InspectorValue::Number(n) => InspectorValue::Number(*n),
            InspectorValue::Toggle(b) => InspectorValue::Toggle(*b),
            InspectorValue::Select(s) => InspectorValue::Select(s.clone()),
        }
    }
}

/// The schema of a field: a text length range, a number range, a slider (a range with
/// a step), an on/off toggle, or a choice among options. Numbers are double bits.
#[derive(Debug, Clone, PartialEq, Eq)]
pub enum InspectorConstraint {
    Text { min_length: Option<usize>, max_length: Option<usize> },
    Number { min: Option<u64>, max: Option<u64> },
    Slider { min: u64, max: u64, step: u64 },
    Toggle,
    Select { options: Vec<String> },
}

/// A numeric rule, handed to the caller's number check: a range with optional ends, or
/// a range of whole steps from its minimum. All numbers are double bits.
#[derive(Debug, Clone, Copy, PartialEq, Eq)]
pub enum NumberRule {
    Range { min: Option<u64>, max: Option<u64> },
    Steps { min: u64, max: u64, step: u64 },
}

/// The numeric rule of a number or slider constraint.
pub open spec fn rule_of(c: InspectorConstraint) -> NumberRule {
    match c {
        InspectorConstraint::Number { min, max } => NumberRule::Range { min, max },
        InspectorConstraint::Slider { min, max, step } => NumberRule::Steps { min, max, step },
        _ => NumberRule::Range { min: None, max: None },
    }
}

/// A number under a number or slider constraint: the number check decides.
pub open spec fn numeric_check(c: InspectorConstraint, v: InspectorValueView) -> bool {
    (c is Number || c is Slider) && v is Number
}

/// Whether value `v` meets constraint `c`. Text must have a length (in characters)
/// within the bounds; a number must pass the number check, whose answer is
/// `number_ok`; a toggle always passes; a choice must be one of the options. A value
/// whose kind differs from the constraint's never passes.
pub open spec fn satisfies(c: InspectorConstraint, v: InspectorValueView, number_ok: bool) -> bool {
    match v {
        InspectorValueView::Text(s) => match c {
            InspectorConstraint::Text { min_length, max_length } => {
                &&& (match min_length {
                    Some(m) => s.len() >= m,
                    None => true,
                })
                &&& (match max_length {
                    Some(m) => s.len() <= m,
                    None => true,
                })
            },
            _ => false,
        },
        InspectorValueView::Number(_) => (c is Number || c is Slider) && number_ok,
        InspectorValueView::Toggle(_) => c is Toggle,
        InspectorValueView::Select(s) => match c {
            InspectorConstraint::Select { options } => exists|i: int|
                0 <= i < options@.len() && (#[trigger] options@[i])@ == s,
            _ => false,
        },
    }
}

/// The bits of a number value.
pub open spec fn bits_of(v: InspectorValueView) -> u64 {
    match v {
        InspectorValueView::Number(n) => n,
        _ => 0,
    }
}

/// `b` is a verdict that the number check `f` may give on value `v` under `c`.
pub open spec fn number_verdict<F: Fn(NumberRule, u64) -> bool>(
    f: F,
    c: InspectorConstraint,
    v: InspectorValueView,
    b: bool,
) -> bool {
    numeric_check(c, v) ==> call_ensures(f, (rule_of(c), bits_of(v)), b)
}

fn is_option(options: &Vec<String>, s: &str) -> (r: bool)
    ensures
        r == exists|i: int| 0 <= i < options@.len() && (#[trigger] options@[i])@ == s@,
{
    let target = s.to_owned();
    let n = options.len();
    for i in 0..n
        invariant
            n == options@.len(),
            target@ == s@,
            forall|j: int| 0 <= j < i ==> (#[trigger] options@[j])@ != s@,
    {
        if options[i] == target {
            return true;
        }
    }
    false
}

impl InspectorConstraint {
    /// Whether `value` meets this constraint; numbers go to `number_ok`.
    fn admits<F: Fn(NumberRule, u64) -> bool>(&self, value: &InspectorValue, number_ok: &F) -> (r: bool)
        requires
            forall|rule: NumberRule, bits: u64| call_requires(*number_ok, (rule, bits)),
        ensures
            number_verdict(*number_ok, *self, value@, r),
            r == satisfies(*self, value@, r),
    {
        match value {
            InspectorValue::Text(s) => match self {
                InspectorConstraint::Text { min_length, max_length } => {
                    let length = chars_of(s.as_str()).len();
                    let lower = match min_length {
                        Some(m) => length >= *m,
                        None => true,
                    };
                    let upper = match max_length {
                        Some(m) => length <= *m,
                        None => true,
                    };
                    lower && upper
                },
                _ => false,
            },
            InspectorValue::Number(bits) => match self {
                InspectorConstraint::Number { min, max } => number_ok(
                    NumberRule::Range { min: *min, max: *max },
                    *bits,
                ),
                InspectorConstraint::Slider { min, max, step } => number_ok(
                    NumberRule::Steps { min: *min, max: *max, step: *step },
                    *bits,
                ),
                _ => false,
            },
            InspectorValue::Toggle(_) => matches!(self, InspectorConstraint::Toggle),
            InspectorValue::Select(s) => match self {
                InspectorConstraint::Select { options } => is_option(options, s.as_str()),
                _ => false,
            },
        }
    }
}

/// The error for a value that does not meet its field's schema.
pub open spec fn schema_message() -> Seq<char> {
    "inspector value does not satisfy its schema"@
}

/// A field: its schema and its current value, which meets the schema.
#[derive(Debug, Clone, PartialEq, Eq)]
pub struct InspectorField {
    constraint: InspectorConstraint,
    value: InspectorValue,
}

/// A field's schema and value.
pub ghost struct FieldView {
    pub constraint: InspectorConstraint,
    pub value: InspectorValueView,
}

impl View for InspectorField {
    type V = FieldView;

    closed spec fn view(&self) -> FieldView {
        FieldView { constraint: self.constraint, value: self.value@ }
    }
}

impl InspectorField {
    /// A field holding `value` under `constraint`, when the value meets it (numbers by
    /// `number_ok`'s verdict); otherwise a `MALFORMED_MESSAGE` error.
    pub fn new<F: Fn(NumberRule, u64) -> bool>(
        constraint: InspectorConstraint,
        value: InspectorValue,
        number_ok: &F,
    ) -> (r: Result<Self, HubError>)
        requires
            forall|rule: NumberRule, bits: u64| call_requires(*number_ok, (rule, bits)),
        ensures
            exists|b: bool|
                {
                    &&& number_verdict(*number_ok, constraint, value@, b)
                    &&& match r {
                        Ok(f) => satisfies(constraint, value@, b) && f@ == (FieldView {
                            constraint,
                            value: value@,
                        }),
                        Err(e) => !satisfies(constraint, value@, b) && e.code == ErrorCode::MalformedMessage
                            && e.message@ == schema_message(),
                    }
                },
    {
        if constraint.admits(&value, number_ok) {
            Ok(InspectorField { constraint, value })
        } else {
            Err(HubError::new(ErrorCode::MalformedMessage, "inspector value does not satisfy its schema"))
        }
    }

    /// The current value.
    pub fn value(&self) -> (r: &InspectorValue)
        ensures
            r@ == self@.value,
    {
        &self.value
    }

    /// The schema.
    pub fn constraint(&self) -> (r: &InspectorConstraint)
        ensures
            *r == self@.constraint,
    {
        &self.constraint
    }
}

/// An inspected object: its id, its revision and its fields by path.
pub struct InspectorTarget {
    target_id: String,
    revision: u64,
    fields: StrMap<InspectorField>,
}

/// A target's id, revision and fields.
pub ghost struct TargetView {
    pub target_id: Seq<char>,
    pub revision: u64,
    pub fields: Map<Seq<char>, FieldView>,
}

impl View for InspectorTarget {
    type V = TargetView;

    closed spec fn view(&self) -> TargetView {
        TargetView {
            target_id: self.target_id@,
            revision: self.revision,
            fields: self.fields@.map_values(|f: InspectorField| f@),
        }
    }
}

impl InspectorTarget {
    /// The fields are kept in path order.
    pub closed spec fn wf(&self) -> bool {
        self.fields.wf()
    }

    /// A target with no field yet.
    pub fn new(target_id: &str, revision: u64) -> (r: Self)
        ensures
            r.wf(),
            r@ == (TargetView { target_id: target_id@, revision, fields: Map::empty() }),
    {
        let r = InspectorTarget { target_id: target_id.to_owned(), revision, fields: StrMap::new() };
        assert(r@.fields =~= Map::<Seq<char>, FieldView>::empty());
        r
    }

    /// The target's id.
    pub fn target_id(&self) -> (r: &str)
        ensures
            r@ == self@.target_id,
    {
        self.target_id.as_str()
    }

    /// The target's revision.
    pub fn revision(&self) -> (r: u64)
        ensures
            r == self@.revision,
    {
        self.revision
    }

    /// The field at `path`.
    pub fn field(&self, path: &str) -> (r: Option<&InspectorField>)
        requires
            self.wf(),
        ensures
            match r {
                Some(f) => self@.fields.contains_key(path@) && f@ == self@.fields[path@],
                None => !self@.fields.contains_key(path@),
            },
    {
        self.fields.get(path)
    }

    /// The fields by path, in path order.
    pub fn fields(&self) -> (r: &StrMap<InspectorField>)
        ensures
            r.wf() == self.wf(),
            r@.map_values(|f: InspectorField| f@) == self@.fields,
    {
        &self.fields
    }

    /// Puts `field` at `path`, in place of the field there; returns that field.
    pub fn insert_field(&mut self, path: &str, field: InspectorField) -> (r: Option<InspectorField>)
        requires
            old(self).wf(),
        ensures
            final(self).wf(),
            final(self)@ == (TargetView { fields: old(self)@.fields.insert(path@, field@), ..old(self)@ }),
            match r {
                Some(f) => old(self)@.fields.contains_key(path@) && f@ == old(self)@.fields[path@],
                None => !old(self)@.fields.contains_key(path@),
            },
    {
        let r = self.fields.insert(path.to_owned(), field);
        assert(self@.fields =~= old(self)@.fields.insert(path@, field@));
        r
    }
}

/// A field value confirmed at a revision of its target.
#[derive(Debug, Clone, PartialEq, Eq)]
pub struct ConfirmedInspectorValue {
    pub target_id: String,
    pub path: String,
    pub value: InspectorValue,
    pub revision: u64,
}

/// A confirmed value with its texts taken as characters.
pub ghost struct ConfirmedView {
    pub target_id: Seq<char>,
    pub path: Seq<char>,
    pub value: InspectorValueView,
    pub revision: u64,
}

impl View for ConfirmedInspectorValue {
    type V = ConfirmedView;

    open spec fn view(&self) -> ConfirmedView {
        ConfirmedView {
            target_id: self.target_id@,
            path: self.path@,
            value: self.value@,
            revision: self.revision,
        }
    }
}

/// A refused update: why, and, on a revision conflict, the field's current value so
/// that the client can catch up at once.
#[derive(Debug, Clone, PartialEq, Eq)]
pub struct InspectorUpdateError {
    pub error: HubError,
    pub latest: Option<ConfirmedInspectorValue>,
}

/// A refused update taken as mathematical values.
pub ghost struct UpdateErrorView {
    pub code: ErrorCode,
    pub message: Seq<char>,
    pub latest: Option<ConfirmedView>,
}

/// An update's outcome taken as mathematical values.
pub open spec fn update_view(r: Result<ConfirmedInspectorValue, InspectorUpdateError>) -> Result<
    ConfirmedView,
    UpdateErrorView,
> {
    match r {
        Ok(c) => Ok(c@),
        Err(e) => Err(
            UpdateErrorView {
                code: e.error.code,
                message: e.error.message@,
                latest: match e.latest {
                    Some(l) => Some(l@),
                    None => None,
                },
            },
        ),
    }
}

/// A refusal with `code` and `message` and no current value.
pub open spec fn refusal(code: ErrorCode, message: Seq<char>) -> UpdateErrorView {
    UpdateErrorView { code, message, latest: None }
}

/// Setting field `path` of target `id` to `v` when the client last saw revision
/// `expected` (`number_ok` being the number check's verdict on `v`). Refused, changing
/// nothing: an unknown target or path; a revision other than the current one (with the
/// current value); a value that does not meet the schema; a revision that cannot
/// advance. Otherwise the field takes the value and the revision advances by one.
pub open spec fn update_step(
    store: Map<Seq<char>, TargetView>,
    id: Seq<char>,
    path: Seq<char>,
    v: InspectorValueView,
    expected: u64,
    number_ok: bool,
) -> (Result<ConfirmedView, UpdateErrorView>, Map<Seq<char>, TargetView>) {
    if !store.contains_key(id) {
        (Err(refusal(ErrorCode::MalformedMessage, "unknown inspector target: "@ + id)), store)
    } else if !store[id].fields.contains_key(path) {
        (Err(refusal(ErrorCode::MalformedMessage, "unknown inspector path: "@ + path)), store)
    } else {
        let t = store[id];
        let f = t.fields[path];
        if expected != t.revision {
            (
                Err(
                    UpdateErrorView {
                        code: ErrorCode::RevisionConflict,
                        message: "expected revision "@ + decimal(expected as nat) + ", current revision is "@
                            + decimal(t.revision as nat),
                        latest: Some(ConfirmedView { target_id: id, path, value: f.value, revision: t.revision }),
                    },
                ),
                store,
            )
        } else if !satisfies(f.constraint, v, number_ok) {
            (Err(refusal(ErrorCode::MalformedMessage, schema_message())), store)
        } else if t.revision == u64::MAX {
            (Err(refusal(ErrorCode::InternalError, "revision overflow"@)), store)
        } else {
            let next = (t.revision + 1) as u64;
            (
                Ok(ConfirmedView { target_id: id, path, value: v, revision: next }),
                store.insert(
                    id,
                    TargetView { revision: next, fields: t.fields.insert(path, FieldView { value: v, ..f }), ..t },
                ),
            )
        }
    }
}

/// The update reaches the schema check: the target and path exist and the revision
/// is the current one.
pub open spec fn reaches_check(store: Map<Seq<char>, TargetView>, id: Seq<char>, path: Seq<char>, expected: u64) -> bool {
    &&& store.contains_key(id)
    &&& store[id].fields.contains_key(path)
    &&& expected == store[id].revision
}

/// The inspected targets by id.
pub struct InspectorStore {
    targets: StrMap<InspectorTarget>,
}

impl View for InspectorStore {
    type V = Map<Seq<char>, TargetView>;

    closed spec fn view(&self) -> Map<Seq<char>, TargetView> {
        self.targets@.map_values(|t: InspectorTarget| t@)
    }
}

impl Default for InspectorStore {
    fn default() -> (r: Self)
        ensures
            r.wf(),
            r@ == Map::<Seq<char>, TargetView>::empty(),
    {
        let r = InspectorStore { targets: StrMap::new() };
        assert(r@ =~= Map::<Seq<char>, TargetView>::empty());
        r
    }
}

impl InspectorStore {
    /// Targets are kept in id order, each under its own id, with its fields in order.
    pub closed spec fn wf(&self) -> bool {
        &&& self.targets.wf()
        &&& forall|k: Seq<char>|
            #[trigger] self.targets@.contains_key(k) ==> self.targets@[k].wf() && self.targets@[k]@.target_id == k
    }

    /// Puts `target` under its id, in place of the target there; returns that target.
    pub fn insert_target(&mut self, target: InspectorTarget) -> (r: Option<InspectorTarget>)
        requires
            old(self).wf(),
            target.wf(),
        ensures
            final(self).wf(),
            final(self)@ == old(self)@.insert(target@.target_id, target@),
            match r {
                Some(t) => old(self)@.contains_key(target@.target_id) && t@ == old(self)@[target@.target_id],
                None => !old(self)@.contains_key(target@.target_id),
            },
    {
        let ghost tv = target@;
        let id = target.target_id.clone();
        let r = self.targets.insert(id, target);
        assert(self@ =~= old(self)@.insert(tv.target_id, tv));
        r
    }

    /// The target with id `target_id`.
    pub fn target(&self, target_id: &str) -> (r: Option<&InspectorTarget>)
        requires
            self.wf(),
        ensures
            match r {
                Some(t) => self@.contains_key(target_id@) && t@ == self@[target_id@] && t.wf(),
                None => !self@.contains_key(target_id@),
            },
    {
        self.targets.get(target_id)
    }

    /// Sets field `path` of target `target_id` to `value` if the client's
    /// `expected_revision` is the current one (see `update_step`); numbers are checked
    /// by `number_ok`. An accepted update advances the revision exactly once; a refused
    /// one changes nothing.
    pub fn update<F: Fn(NumberRule, u64) -> bool>(
        &mut self,
        target_id: &str,
        path: &str,
        value: InspectorValue,
        expected_revision: u64,
        number_ok: &F,
    ) -> (r: Result<ConfirmedInspectorValue, InspectorUpdateError>)
        requires
            old(self).wf(),
            forall|rule: NumberRule, bits: u64| call_requires(*number_ok, (rule, bits)),
        ensures
            final(self).wf(),
            exists|b: bool|
                {
                    &&& reaches_check(old(self)@, target_id@, path@, expected_revision) ==> number_verdict(
                        *number_ok,
                        old(self)@[target_id@].fields[path@].constraint,
                        value@,
                        b,
                    )
                    &&& (update_view(r), final(self)@) == update_step(
                        old(self)@,
                        target_id@,
                        path@,
                        value@,
                        expected_revision,
                        b,
                    )
                },
            r is Ok && value@ is Number ==> number_accepted_by(
                *number_ok,
                old(self)@[target_id@].fields[path@].constraint,
                bits_of(value@),
            ),
    {
        let ghost before = self@;
        let ti = match self.targets.find(target_id) {
            Some(i) => i,
            None => {
                let mut message = "unknown inspector target: ".to_owned();
                message.append(target_id);
                let r = Err(InspectorUpdateError { error: HubError { code: ErrorCode::MalformedMessage, message }, latest: None });
                assert(update_view(r) == update_step(before, target_id@, path@, value@, expected_revision, true).0);
                return r;
            },
        };
        proof {
            self.targets.lemma_keys();
        }
        let fi = match self.targets.value_at(ti).fields.find(path) {
            Some(i) => i,
            None => {
                let mut message = "unknown inspector path: ".to_owned();
                message.append(path);
                let r = Err(InspectorUpdateError { error: HubError { code: ErrorCode::MalformedMessage, message }, latest: None });
                assert(update_view(r) == update_step(before, target_id@, path@, value@, expected_revision, true).0);
                return r;
            },
        };
        let revision = self.targets.value_at(ti).revision;
        proof {
            self.targets.entries()[ti as int].1.fields.lemma_keys();
        }
        if expected_revision != revision {
            let target = self.targets.value_at(ti);
            let field = target.fields.value_at(fi);
            let mut message = "expected revision ".to_owned();
            append_decimal(&mut message, expected_revision);
            message.append(", current revision is ");
            append_decimal(&mut message, revision);
            let latest = ConfirmedInspectorValue {
                target_id: target_id.to_owned(),
                path: path.to_owned(),
                value: field.value.copy(),
                revision,
            };
            let r = Err(InspectorUpdateError { error: HubError { code: ErrorCode::RevisionConflict, message }, latest: Some(latest) });
            assert(update_view(r) == update_step(before, target_id@, path@, value@, expected_revision, true).0);
            return r;
        }
        let ok = self.targets.value_at(ti).fields.value_at(fi).constraint.admits(&value, number_ok);
        if !ok {
            let r = Err(InspectorUpdateError {
                error: HubError::new(ErrorCode::MalformedMessage, "inspector value does not satisfy its schema"),
                latest: None,
            });
            assert(update_view(r) == update_step(before, target_id@, path@, value@, expected_revision, ok).0);
            return r;
        }
        if revision == u64::MAX {
            let r = Err(InspectorUpdateError { error: HubError::new(ErrorCode::InternalError, "revision overflow"), latest: None });
            assert(update_view(r) == update_step(before, target_id@, path@, value@, expected_revision, ok).0);
            return r;
        }
        proof {
            if value@ is Number {
                lemma_accepted_number_passed_the_constraint_bounds(
                    *number_ok,
                    before,
                    target_id@,
                    path@,
                    bits_of(value@),
                    expected_revision,
                    ok,
                );
            }
        }
        let confirmed = ConfirmedInspectorValue {
            target_id: target_id.to_owned(),
            path: path.to_owned(),
            value: value.copy(),
            revision: revision + 1,
        };
        let ghost old_targets = self.targets.entries();
        let ghost old_target = old_targets[ti as int].1;
        let target = self.targets.value_at_mut(ti);
        let ghost old_fields = target.fields.entries();
        target.revision = revision + 1;
        let field = target.fields.value_at_mut(fi);
        let ghost old_field = *field;
        field.value = value;
        proof {
            let new_target = self.targets.entries()[ti as int].1;
            let new_field = new_target.fields.entries()[fi as int].1;
            StrMap::<InspectorTarget>::lemma_replace_value(old_targets, ti as int, new_target);
            StrMap::<InspectorField>::lemma_replace_value(old_fields, fi as int, new_field);
            assert(new_target.fields@.map_values(|f: InspectorField| f@) =~= old_target@.fields.insert(path@, new_field@));
            assert(self@ =~= before.insert(target_id@, new_target@));
        }
        Ok(confirmed)
    }
}

/// A refused update changes nothing.
pub proof fn lemma_refused_update_changes_nothing(
    store: Map<Seq<char>, TargetView>,
    id: Seq<char>,
    path: Seq<char>,
    v: InspectorValueView,
    expected: u64,
    number_ok: bool,
)
    ensures
        update_step(store, id, path, v, expected, number_ok).0 is Err ==> update_step(
            store,
            id,
            path,
            v,
            expected,
            number_ok,
        ).1 == store,
{
}

/// An accepted update advances its target's revision by exactly one, sets exactly the
/// named field to the new value, and confirms the value at the new revision; every
/// other target and field stays as it was.
pub proof fn lemma_accepted_update_advances_revision_once(
    store: Map<Seq<char>, TargetView>,
    id: Seq<char>,
    path: Seq<char>,
    v: InspectorValueView,
    expected: u64,
    number_ok: bool,
)
    ensures
        update_step(store, id, path, v, expected, number_ok).0 is Ok ==> {
            let (r, after) = update_step(store, id, path, v, expected, number_ok);
            &&& store.contains_key(id)
            &&& after[id].revision == store[id].revision + 1
            &&& r->Ok_0.revision == after[id].revision
            &&& r->Ok_0.value == v
            &&& after[id].fields[path].value == v
            &&& after[id].fields[path].constraint == store[id].fields[path].constraint
            &&& after[id].target_id == store[id].target_id
            &&& forall|p: Seq<char>| p != path ==> #[trigger] after[id].fields.contains_key(p)
                == store[id].fields.contains_key(p) && (store[id].fields.contains_key(p)
                ==> after[id].fields[p] == store[id].fields[p])
            &&& forall|k: Seq<char>| k != id ==> #[trigger] after.contains_key(k) == store.contains_key(k)
                && (store.contains_key(k) ==> after[k] == store[k])
        },
{
}

/// An update that names an old revision is refused with `REVISION_CONFLICT`, and the
/// refusal carries the field's current value and revision.
pub proof fn lemma_conflict_reports_current_value(
    store: Map<Seq<char>, TargetView>,
    id: Seq<char>,
    path: Seq<char>,
    v: InspectorValueView,
    expected: u64,
    number_ok: bool,
)
    requires
        store.contains_key(id),
        store[id].fields.contains_key(path),
        expected != store[id].revision,
    ensures
        update_step(store, id, path, v, expected, number_ok).0 == Err::<ConfirmedView, UpdateErrorView>(
            UpdateErrorView {
                code: ErrorCode::RevisionConflict,
                message: "expected revision "@ + decimal(expected as nat) + ", current revision is "@
                    + decimal(store[id].revision as nat),
                latest: Some(
                    ConfirmedView {
                        target_id: id,
                        path,
                        value: store[id].fields[path].value,
                        revision: store[id].revision,
                    },
                ),
            },
        ),
{
}

/// What the number check was asked, and answered, for a number that an update accepted:
/// under `Number { min, max }` it was handed the range with both of the constraint's
/// own ends, under `Slider { min, max, step }` the steps with all three, and either way
/// it answered yes for the value's bits. A number is never accepted under any other
/// constraint.
pub open spec fn number_accepted_by<F: Fn(NumberRule, u64) -> bool>(f: F, c: InspectorConstraint, bits: u64) -> bool {
    match c {
        InspectorConstraint::Number { min, max } => call_ensures(f, (NumberRule::Range { min, max }, bits), true),
        InspectorConstraint::Slider { min, max, step } => call_ensures(
            f,
            (NumberRule::Steps { min, max, step }, bits),
            true,
        ),
        _ => false,
    }
}

/// A number is accepted by an update only where the number check, handed the field's
/// constraint with its own bounds (both ends of a number range; the minimum, maximum
/// and step of a slider), said yes to that number; so under `Number { max: Some(m), .. }`
/// an accepted number passed the range check against `m`.
pub proof fn lemma_accepted_number_passed_the_constraint_bounds<F: Fn(NumberRule, u64) -> bool>(
    f: F,
    store: Map<Seq<char>, TargetView>,
    id: Seq<char>,
    path: Seq<char>,
    bits: u64,
    expected: u64,
    b: bool,
)
    requires
        reaches_check(store, id, path, expected),
        number_verdict(f, store[id].fields[path].constraint, InspectorValueView::Number(bits), b),
        update_step(store, id, path, InspectorValueView::Number(bits), expected, b).0 is Ok,
    ensures
        number_accepted_by(f, store[id].fields[path].constraint, bits),
{
}

/// An update accepts a value only where it meets the field's constraint: a text under
/// a text constraint, with at least the minimum and at most the maximum number of
/// characters; a toggle under a toggle constraint; a choice that is one of the options.
pub proof fn lemma_accepted_value_meets_its_constraint(
    store: Map<Seq<char>, TargetView>,
    id: Seq<char>,
    path: Seq<char>,
    v: InspectorValueView,
    expected: u64,
    number_ok: bool,
)
    requires
        update_step(store, id, path, v, expected, number_ok).0 is Ok,
    ensures
        reaches_check(store, id, path, expected),
        v matches InspectorValueView::Text(s) ==> store[id].fields[path].constraint matches
            InspectorConstraint::Text { min_length, max_length } && (min_length matches Some(m) ==> m
            <= s.len()) && (max_length matches Some(m) ==> s.len() <= m),
        v is Toggle ==> store[id].fields[path].constraint is Toggle,
        v matches InspectorValueView::Select(s) ==> store[id].fields[path].constraint matches
            InspectorConstraint::Select { options } && exists|i: int|
            0 <= i < options@.len() && (#[trigger] options@[i])@ == s,
        v is Number ==> (store[id].fields[path].constraint is Number || store[id].fields[path].constraint is Slider)
            && number_ok,
{
}

} // verus!
