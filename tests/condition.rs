use musiq::condition::{parse_conditions, parse_tag_assignment, AssignmentError};
use musiq::{parse_tag_condition, ConditionError, Op};

#[test]
fn two_character_operator_wins_over_its_prefix() {
    let c = parse_tag_condition("x>=5").unwrap();
    assert_eq!(c.tag_name, "x");
    assert_eq!(c.op, Op::Ge);
    assert_eq!(c.value, 5);
}

#[test]
fn each_operator_parses() {
    let cases = [
        ("a=1", Op::Eq),
        ("a>1", Op::Gt),
        ("a<1", Op::Lt),
        ("a>=1", Op::Ge),
        ("a<=1", Op::Le),
        ("a!=1", Op::Ne),
    ];
    for (text, op) in cases {
        let c = parse_tag_condition(text).unwrap();
        assert_eq!(c.tag_name, "a");
        assert_eq!(c.op, op);
        assert_eq!(c.value, 1);
        assert_eq!(c.op.as_str(), &text[1..text.len() - 1]);
    }
}

#[test]
fn name_and_value_are_trimmed() {
    let c = parse_tag_condition("  energy >=  7 ").unwrap();
    assert_eq!(c.tag_name, "energy");
    assert_eq!(c.op, Op::Ge);
    assert_eq!(c.value, 7);
}

#[test]
fn bounds_of_the_value() {
    assert_eq!(parse_tag_condition("mood=0").unwrap().value, 0);
    assert_eq!(parse_tag_condition("mood=9").unwrap().value, 9);
    assert_eq!(parse_tag_condition("mood=+3").unwrap().value, 3);
    assert_eq!(parse_tag_condition("mood=007").unwrap().value, 7);
}

#[test]
fn empty_tag_name_is_rejected() {
    assert_eq!(parse_tag_condition("=5").unwrap_err(), ConditionError::EmptyTagName);
    assert_eq!(parse_tag_condition("  >=5").unwrap_err(), ConditionError::EmptyTagName);
}

#[test]
fn value_above_nine_is_rejected() {
    assert_eq!(parse_tag_condition("x=10").unwrap_err(), ConditionError::ValueOutOfRange);
    assert_eq!(parse_tag_condition("x=300").unwrap_err(), ConditionError::ValueOutOfRange);
    assert_eq!(parse_tag_condition("x=-1").unwrap_err(), ConditionError::ValueOutOfRange);
    assert_eq!(parse_tag_condition("x= -12").unwrap_err(), ConditionError::ValueOutOfRange);
}

#[test]
fn negative_zero_is_zero() {
    assert_eq!(parse_tag_condition("x=-0").unwrap().value, 0);
}

#[test]
fn non_numeric_value_is_rejected() {
    assert_eq!(parse_tag_condition("x=abc").unwrap_err(), ConditionError::NonNumericValue);
    assert_eq!(parse_tag_condition("x=").unwrap_err(), ConditionError::NonNumericValue);
    assert_eq!(parse_tag_condition("x=-").unwrap_err(), ConditionError::NonNumericValue);
    assert_eq!(parse_tag_condition("x=+").unwrap_err(), ConditionError::NonNumericValue);
}

#[test]
fn missing_operator_is_rejected() {
    assert_eq!(parse_tag_condition("energy7").unwrap_err(), ConditionError::NoOperatorFound);
    assert_eq!(parse_tag_condition("").unwrap_err(), ConditionError::NoOperatorFound);
}

#[test]
fn first_operator_in_priority_order_splits() {
    // `<=` is looked for before `=`, although `=` comes first in the text.
    let c = parse_tag_condition("a=b<=3").unwrap();
    assert_eq!(c.tag_name, "a=b");
    assert_eq!(c.op, Op::Le);
    assert_eq!(c.value, 3);
    let c = parse_tag_condition("a<b=3").unwrap_err();
    assert_eq!(c, ConditionError::NonNumericValue);
}

#[test]
fn assignment_takes_only_equality() {
    let c = parse_tag_assignment("energy=4").unwrap();
    assert_eq!(c.tag_name, "energy");
    assert_eq!(c.value, 4);
    assert_eq!(parse_tag_assignment("energy>4").unwrap_err(), AssignmentError::NotEquality);
    assert_eq!(
        parse_tag_assignment("energy=12").unwrap_err(),
        AssignmentError::Parse(ConditionError::ValueOutOfRange)
    );
}

#[test]
fn condition_list_stops_at_first_error() {
    let texts = vec!["energy>=7".to_string(), "mood<5".to_string()];
    let cs = parse_conditions(&texts).unwrap();
    assert_eq!(cs.len(), 2);
    assert_eq!(cs[1].tag_name, "mood");
    assert_eq!(cs[1].op, Op::Lt);
    let bad = vec!["energy>=7".to_string(), "mood".to_string(), "x=10".to_string()];
    assert_eq!(parse_conditions(&bad).unwrap_err(), ConditionError::NoOperatorFound);
}
