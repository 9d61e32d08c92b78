use keydeck::hub_core::ErrorCode;
use keydeck::inspector::{
    InspectorConstraint, InspectorField, InspectorStore, InspectorTarget, InspectorValue,
    NumberRule,
};

fn number_ok(rule: NumberRule, bits: u64) -> bool {
    let value = f64::from_bits(bits);
    match rule {
        NumberRule::Range { min, max } => {
            value.is_finite()
                && min.is_none_or(|m| value >= f64::from_bits(m))
                && max.is_none_or(|m| value <= f64::from_bits(m))
        }
        NumberRule::Steps { min, max, step } => {
            let (min, max, step) = (f64::from_bits(min), f64::from_bits(max), f64::from_bits(step));
            if !value.is_finite() || step <= 0.0 || value < min || value > max {
                false
            } else {
                let steps = (value - min) / step;
                (steps - steps.round()).abs() <= 1e-9
            }
        }
    }
}

fn num(x: f64) -> InspectorValue {
    InspectorValue::Number(x.to_bits())
}

fn inspector_with_hp() -> InspectorStore {
    let mut target = InspectorTarget::new("char_knight", 12);
    target.insert_field(
        "stats.hp",
        InspectorField::new(
            InspectorConstraint::Slider {
                min: 0.0f64.to_bits(),
                max: 100.0f64.to_bits(),
                step: 1.0f64.to_bits(),
            },
            num(35.0),
            &number_ok,
        )
        .unwrap(),
    );
    let mut store = InspectorStore::default();
    store.insert_target(target);
    store
}

#[test]
fn revision_conflict_returns_latest_value_and_does_not_mutate() {
    let mut store = inspector_with_hp();

    let conflict = store
        .update("char_knight", "stats.hp", num(40.0), 11, &number_ok)
        .unwrap_err();

    assert_eq!(conflict.error.code, ErrorCode::RevisionConflict);
    assert_eq!(conflict.error.code.as_str(), "REVISION_CONFLICT");
    let latest = conflict.latest.expect("conflicts include latest state");
    assert_eq!(latest.revision, 12);
    assert_eq!(latest.value, num(35.0));
    assert_eq!(store.target("char_knight").unwrap().revision(), 12);
}

#[test]
fn accepted_inspector_update_increments_revision_once() {
    let mut store = inspector_with_hp();

    let confirmed = store
        .update("char_knight", "stats.hp", num(40.0), 12, &number_ok)
        .unwrap();

    assert_eq!(confirmed.value, num(40.0));
    assert_eq!(confirmed.revision, 13);
    assert_eq!(store.target("char_knight").unwrap().revision(), 13);
}

#[test]
fn inspector_schema_rejects_out_of_range_value_without_revision_change() {
    let mut store = inspector_with_hp();

    let rejected = store
        .update("char_knight", "stats.hp", num(101.0), 12, &number_ok)
        .unwrap_err();

    assert_eq!(rejected.error.code, ErrorCode::MalformedMessage);
    assert_eq!(store.target("char_knight").unwrap().revision(), 12);
}

#[test]
fn revision_overflow_does_not_partially_mutate_value() {
    let mut target = InspectorTarget::new("char_knight", u64::MAX);
    target.insert_field(
        "stats.hp",
        InspectorField::new(
            InspectorConstraint::Number {
                min: Some(0.0f64.to_bits()),
                max: Some(100.0f64.to_bits()),
            },
            num(35.0),
            &number_ok,
        )
        .unwrap(),
    );
    let mut store = InspectorStore::default();
    store.insert_target(target);

    let rejected = store
        .update("char_knight", "stats.hp", num(40.0), u64::MAX, &number_ok)
        .unwrap_err();

    assert_eq!(rejected.error.code, ErrorCode::InternalError);
    let target = store.target("char_knight").unwrap();
    assert_eq!(target.revision(), u64::MAX);
    assert_eq!(target.field("stats.hp").unwrap().value(), &num(35.0));
}

#[test]
fn refusals_name_what_was_unknown_or_wrong() {
    let mut store = inspector_with_hp();
    let e = store.update("nobody", "stats.hp", num(1.0), 12, &number_ok).unwrap_err();
    assert_eq!(e.error.code, ErrorCode::MalformedMessage);
    assert_eq!(e.error.message, "unknown inspector target: nobody");
    assert!(e.latest.is_none());
    let e = store.update("char_knight", "stats.mp", num(1.0), 12, &number_ok).unwrap_err();
    assert_eq!(e.error.message, "unknown inspector path: stats.mp");
    let e = store.update("char_knight", "stats.hp", num(1.0), 7, &number_ok).unwrap_err();
    assert_eq!(e.error.message, "expected revision 7, current revision is 12");
    let e = store.update("char_knight", "stats.hp", num(2.5), 12, &number_ok).unwrap_err();
    assert_eq!(e.error.message, "inspector value does not satisfy its schema");
    let e = store
        .update("char_knight", "stats.hp", InspectorValue::Toggle(true), 12, &number_ok)
        .unwrap_err();
    assert_eq!(e.error.code, ErrorCode::MalformedMessage);
    assert_eq!(store.target("char_knight").unwrap().revision(), 12);
}

#[test]
fn text_toggle_and_choice_schemas_are_checked_here() {
    let text = InspectorConstraint::Text { min_length: Some(2), max_length: Some(3) };
    assert!(InspectorField::new(text.clone(), InspectorValue::Text("日本".into()), &number_ok).is_ok());
    assert!(InspectorField::new(text.clone(), InspectorValue::Text("a".into()), &number_ok).is_err());
    assert!(InspectorField::new(text, InspectorValue::Text("abcd".into()), &number_ok).is_err());
    assert!(InspectorField::new(InspectorConstraint::Toggle, InspectorValue::Toggle(false), &number_ok).is_ok());
    let choice = InspectorConstraint::Select { options: vec!["red".into(), "blue".into()] };
    assert!(InspectorField::new(choice.clone(), InspectorValue::Select("blue".into()), &number_ok).is_ok());
    let e = InspectorField::new(choice, InspectorValue::Select("green".into()), &number_ok).unwrap_err();
    assert_eq!(e.code, ErrorCode::MalformedMessage);
    assert_eq!(e.message, "inspector value does not satisfy its schema");
}

#[test]
fn inserting_a_target_replaces_the_one_with_the_same_id() {
    let mut store = InspectorStore::default();
    assert!(store.insert_target(InspectorTarget::new("t", 1)).is_none());
    let old = store.insert_target(InspectorTarget::new("t", 5)).unwrap();
    assert_eq!(old.revision(), 1);
    assert_eq!(store.target("t").unwrap().revision(), 5);
    assert_eq!(store.target("t").unwrap().target_id(), "t");
    assert!(store.target("u").is_none());
}
