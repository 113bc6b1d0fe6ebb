use musiq::query::decimal;
use musiq::{compile_query, parse_tag_condition, Condition, SqlParam};

fn conds(texts: &[&str]) -> Vec<Condition> {
    texts.iter().map(|t| parse_tag_condition(t).unwrap()).collect()
}

#[test]
fn no_conditions_compile_to_no_query() {
    assert!(compile_query(&Vec::new()).is_none());
}

#[test]
fn one_condition_query_text() {
    let plan = compile_query(&conds(&["energy>=7"])).unwrap();
    assert_eq!(
        plan.sql,
        "SELECT DISTINCT s.id, s.path FROM songs s JOIN song_tags st0 ON s.id = st0.song_id \
         JOIN tags t0 ON st0.tag_id = t0.id WHERE (t0.name = ? AND st0.value >= ?) ORDER BY s.path"
    );
    assert_eq!(plan.params.len(), 2);
    assert!(matches!(&plan.params[0], SqlParam::Text(t) if t == "energy"));
    assert!(matches!(plan.params[1], SqlParam::Integer(7)));
}

#[test]
fn each_condition_gets_its_own_join_pair() {
    let plan = compile_query(&conds(&["energy>=3", "energy<=7"])).unwrap();
    assert_eq!(
        plan.sql,
        "SELECT DISTINCT s.id, s.path FROM songs s \
         JOIN song_tags st0 ON s.id = st0.song_id JOIN tags t0 ON st0.tag_id = t0.id \
         JOIN song_tags st1 ON s.id = st1.song_id JOIN tags t1 ON st1.tag_id = t1.id \
         WHERE (t0.name = ? AND st0.value >= ?) AND (t1.name = ? AND st1.value <= ?) ORDER BY s.path"
    );
    assert_eq!(plan.params.len(), 4);
    assert!(matches!(&plan.params[2], SqlParam::Text(t) if t == "energy"));
    assert!(matches!(plan.params[3], SqlParam::Integer(7)));
}

#[test]
fn tag_names_are_never_in_the_query_text() {
    let plan = compile_query(&conds(&["x'; DROP TABLE songs; --=1"])).unwrap();
    assert!(!plan.sql.contains("DROP"));
    assert!(matches!(&plan.params[0], SqlParam::Text(t) if t == "x'; DROP TABLE songs; --"));
}

#[test]
fn decimal_text() {
    assert_eq!(decimal(0), "0");
    assert_eq!(decimal(7), "7");
    assert_eq!(decimal(10), "10");
    assert_eq!(decimal(1234), "1234");
}
