//! The statements that keep the store on disk.
use vstd::prelude::*;

verus! {

/// Creates the six tables if they are missing, all at once.
pub const SCHEMA: &'static str = "BEGIN;
CREATE TABLE IF NOT EXISTS songs (
    id INTEGER PRIMARY KEY,
    path TEXT NOT NULL UNIQUE
);
CREATE TABLE IF NOT EXISTS tags (
    id INTEGER PRIMARY KEY,
    name TEXT NOT NULL UNIQUE
);
CREATE TABLE IF NOT EXISTS song_tags (
    song_id INTEGER,
    tag_id INTEGER,
    value INTEGER CHECK(value BETWEEN 0 AND 9),
    PRIMARY KEY (song_id, tag_id),
    FOREIGN KEY(song_id) REFERENCES songs(id),
    FOREIGN KEY(tag_id) REFERENCES tags(id)
);
CREATE TABLE IF NOT EXISTS contexts (
    id INTEGER PRIMARY KEY,
    timestamp DATETIME DEFAULT CURRENT_TIMESTAMP,
    query TEXT NOT NULL
);
CREATE TABLE IF NOT EXISTS play_events (
    id INTEGER PRIMARY KEY,
    song_id INTEGER,
    context_id INTEGER,
    started_at DATETIME,
    ended_at DATETIME,
    skipped BOOLEAN DEFAULT 0,
    FOREIGN KEY(song_id) REFERENCES songs(id),
    FOREIGN KEY(context_id) REFERENCES contexts(id)
);
CREATE TABLE IF NOT EXISTS feedback (
    id INTEGER PRIMARY KEY,
    play_event_id INTEGER,
    tag_id INTEGER,
    feedback INTEGER CHECK(feedback IN (-1, 1)),
    FOREIGN KEY(play_event_id) REFERENCES play_events(id),
    FOREIGN KEY(tag_id) REFERENCES tags(id)
);
COMMIT;";

pub const INSERT_SONG: &'static str = "INSERT OR IGNORE INTO songs (path) VALUES (?1)";

pub const INSERT_TAG: &'static str = "INSERT OR IGNORE INTO tags (name) VALUES (?1)";

pub const FIND_SONG: &'static str = "SELECT id FROM songs WHERE path = ?1";

pub const FIND_TAG: &'static str = "SELECT id FROM tags WHERE name = ?1";

pub const UPSERT_VALUE: &'static str = "INSERT INTO song_tags (song_id, tag_id, value) VALUES (?1, ?2, ?3) ON CONFLICT(song_id, tag_id) DO UPDATE SET value = excluded.value";

/// Removing a song, in dependency order; each takes the song's id.
pub const DELETE_SONG_FEEDBACK: &'static str = "DELETE FROM feedback WHERE play_event_id IN (SELECT id FROM play_events WHERE song_id = ?1)";

pub const DELETE_SONG_PLAY_EVENTS: &'static str = "DELETE FROM play_events WHERE song_id = ?1";

pub const DELETE_SONG_VALUES: &'static str = "DELETE FROM song_tags WHERE song_id = ?1";

pub const DELETE_SONG: &'static str = "DELETE FROM songs WHERE id = ?1";

/// Removing a tag, in dependency order; each takes the tag's id.
pub const DELETE_TAG_FEEDBACK: &'static str = "DELETE FROM feedback WHERE tag_id = ?1";

pub const DELETE_TAG_VALUES: &'static str = "DELETE FROM song_tags WHERE tag_id = ?1";

pub const DELETE_TAG: &'static str = "DELETE FROM tags WHERE id = ?1";

/// The statements that remove a song, in dependency order.
pub const REMOVE_SONG_STATEMENTS: [&'static str; 4] = [
    DELETE_SONG_FEEDBACK,
    DELETE_SONG_PLAY_EVENTS,
    DELETE_SONG_VALUES,
    DELETE_SONG,
];

/// The statements that remove a tag, in dependency order.
pub const REMOVE_TAG_STATEMENTS: [&'static str; 3] = [DELETE_TAG_FEEDBACK, DELETE_TAG_VALUES, DELETE_TAG];

} // verus!
