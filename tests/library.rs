use musiq::{compile_query, parse_tag_condition, Condition, Library, SqlParam, StoreError};
use musiq::sql;

fn conds(texts: &[&str]) -> Vec<Condition> {
    texts.iter().map(|t| parse_tag_condition(t).unwrap()).collect()
}

fn paths(lib: &Library, texts: &[&str]) -> Vec<String> {
    lib.query_songs(&conds(texts)).into_iter().map(|s| s.path).collect()
}

fn tagged(songs: &[(&str, &[(&str, u8)])]) -> Library {
    let mut lib = Library::new();
    for (path, values) in songs {
        lib.add_song(path).unwrap();
        for (name, value) in values.iter() {
            lib.add_tag(name).unwrap();
            lib.tag_song(path, name, *value).unwrap();
        }
    }
    lib
}

#[test]
fn adding_twice_keeps_one_row() {
    let mut lib = Library::new();
    lib.add_song("a.mp3").unwrap();
    lib.add_song("a.mp3").unwrap();
    assert_eq!(lib.song_count(), 1);
    lib.add_tag("energy").unwrap();
    lib.add_tag("energy").unwrap();
    assert_eq!(lib.tag_count(), 1);
    lib.add_song("b.mp3").unwrap();
    assert_eq!(lib.song_count(), 2);
}

#[test]
fn removing_a_song_removes_what_refers_to_it() {
    let mut lib = tagged(&[("a.mp3", &[("energy", 5), ("mood", 2)]), ("b.mp3", &[("energy", 1)])]);
    let play_a = lib.record_play("a.mp3").unwrap();
    let play_b = lib.record_play("b.mp3").unwrap();
    lib.record_feedback(play_a, "energy", true).unwrap();
    lib.record_feedback(play_b, "energy", false).unwrap();
    assert_eq!(lib.value_row_count(), 3);
    lib.remove_song("a.mp3");
    assert_eq!(lib.song_count(), 1);
    assert_eq!(lib.value_row_count(), 1);
    assert_eq!(lib.play_event_count(), 1);
    assert_eq!(lib.feedback_count(), 1);
    assert_eq!(lib.value_of("b.mp3", "energy"), Some(1));
    lib.remove_song("a.mp3");
    assert_eq!(lib.song_count(), 1);
}

#[test]
fn removing_a_tag_removes_its_values_and_feedback() {
    let mut lib = tagged(&[("a.mp3", &[("energy", 5), ("mood", 2)])]);
    let play = lib.record_play("a.mp3").unwrap();
    lib.record_feedback(play, "mood", true).unwrap();
    lib.remove_tag("mood");
    assert_eq!(lib.tag_count(), 1);
    assert_eq!(lib.value_row_count(), 1);
    assert_eq!(lib.feedback_count(), 0);
    assert_eq!(lib.value_of("a.mp3", "mood"), None);
    lib.remove_tag("mood");
    assert_eq!(lib.tag_count(), 1);
}

#[test]
fn values_must_lie_in_zero_to_nine() {
    let mut lib = tagged(&[("a.mp3", &[])]);
    lib.add_tag("t").unwrap();
    assert_eq!(lib.tag_song("a.mp3", "t", 10), Err(StoreError::ConstraintViolation));
    assert_eq!(lib.value_row_count(), 0);
    assert_eq!(lib.tag_song("a.mp3", "t", 9), Ok(()));
    assert_eq!(lib.tag_song("a.mp3", "t", 0), Ok(()));
    assert_eq!(lib.value_of("a.mp3", "t"), Some(0));
}

#[test]
fn tagging_needs_song_and_tag() {
    let mut lib = tagged(&[("a.mp3", &[])]);
    assert_eq!(lib.tag_song("a.mp3", "t", 3), Err(StoreError::NotFound));
    lib.add_tag("t").unwrap();
    assert_eq!(lib.tag_song("b.mp3", "t", 3), Err(StoreError::NotFound));
    assert_eq!(lib.record_play("b.mp3"), Err(StoreError::NotFound));
    assert_eq!(lib.record_feedback(99, "t", true), Err(StoreError::NotFound));
}

#[test]
fn tagging_twice_overwrites() {
    let mut lib = tagged(&[("p.mp3", &[("t", 4)])]);
    lib.tag_song("p.mp3", "t", 7).unwrap();
    assert_eq!(lib.value_row_count(), 1);
    assert_eq!(lib.value_of("p.mp3", "t"), Some(7));
}

#[test]
fn conditions_are_conjoined() {
    let lib = tagged(&[
        ("A", &[("energy", 8), ("mood", 3)]),
        ("B", &[("energy", 8), ("mood", 9)]),
        ("C", &[("energy", 2), ("mood", 3)]),
    ]);
    assert_eq!(paths(&lib, &["energy>=7", "mood<5"]), vec!["A".to_string()]);
}

#[test]
fn not_equal_needs_the_tag() {
    let mut lib = tagged(&[("a", &[]), ("b", &[("x", 2)])]);
    lib.add_tag("x").unwrap();
    assert_eq!(paths(&lib, &["x!=5"]), vec!["b".to_string()]);
}

#[test]
fn result_ids_are_distinct() {
    let lib = tagged(&[("a", &[("x", 1)]), ("b", &[("x", 1)])]);
    let songs = lib.query_songs(&conds(&["x=1"]));
    assert_eq!(songs.len(), 2);
    assert_ne!(songs[0].id, songs[1].id);
}

#[test]
fn empty_condition_list_selects_nothing() {
    let lib = tagged(&[("A", &[("energy", 8)])]);
    assert!(lib.query_songs(&Vec::new()).is_empty());
}

#[test]
fn same_tag_range() {
    let lib = tagged(&[("five", &[("energy", 5)]), ("eight", &[("energy", 8)])]);
    assert_eq!(paths(&lib, &["energy>=3", "energy<=7"]), vec!["five".to_string()]);
}

#[test]
fn results_are_ordered_by_path() {
    let lib = tagged(&[("c", &[("x", 1)]), ("a", &[("x", 2)]), ("b", &[("x", 3)]), ("ab", &[("x", 4)])]);
    assert_eq!(paths(&lib, &["x!=9"]), vec!["a", "ab", "b", "c"]);
    assert_eq!(paths(&lib, &["x>1", "x<4"]), vec!["a", "b"]);
    assert!(paths(&lib, &["y=1"]).is_empty());
}

fn run_sql(conn: &rusqlite::Connection, texts: &[&str]) -> Vec<String> {
    let plan = compile_query(&conds(texts)).unwrap();
    let params: Vec<rusqlite::types::Value> = plan
        .params
        .iter()
        .map(|p| match p {
            SqlParam::Text(t) => rusqlite::types::Value::Text(t.clone()),
            SqlParam::Integer(v) => rusqlite::types::Value::Integer(*v as i64),
        })
        .collect();
    let mut stmt = conn.prepare(&plan.sql).unwrap();
    let rows = stmt
        .query_map(rusqlite::params_from_iter(params), |row| row.get::<_, String>(1))
        .unwrap();
    rows.map(|r| r.unwrap()).collect()
}

#[test]
fn compiled_query_runs_against_the_schema() {
    let conn = rusqlite::Connection::open_in_memory().unwrap();
    conn.execute_batch(sql::SCHEMA).unwrap();
    for (path, energy, mood) in [("A", 8, 3), ("B", 8, 9), ("C", 2, 3), ("D", 5, 3)] {
        conn.execute(sql::INSERT_SONG, [path]).unwrap();
        for (name, value) in [("energy", energy), ("mood", mood)] {
            conn.execute(sql::INSERT_TAG, [name]).unwrap();
            let song: i64 = conn.query_row(sql::FIND_SONG, [path], |r| r.get(0)).unwrap();
            let tag: i64 = conn.query_row(sql::FIND_TAG, [name], |r| r.get(0)).unwrap();
            conn.execute(sql::UPSERT_VALUE, (song, tag, value)).unwrap();
        }
    }
    assert_eq!(run_sql(&conn, &["energy>=7", "mood<5"]), vec!["A".to_string()]);
    assert_eq!(run_sql(&conn, &["energy>=3", "energy<=7"]), vec!["D".to_string()]);
    let song: i64 = conn.query_row(sql::FIND_SONG, ["A"], |r| r.get(0)).unwrap();
    let tag: i64 = conn.query_row(sql::FIND_TAG, ["mood"], |r| r.get(0)).unwrap();
    assert!(conn.execute(sql::UPSERT_VALUE, (song, tag, 10)).is_err());
}
