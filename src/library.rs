//! The tag-attributed song store, held in memory: songs, tags, their values,
//! and the cascades that keep references intact.
//!
//! This is a second implementation of the rules that the statements in
//! `crate::sql` ask of the database (unique rows, upserts, cascades, joins),
//! written out so that those rules can be stated and proved here. The command
//! line runs the statements against the database file and does not use this
//! store; what is proved below holds of this store, not of the database.
use vstd::prelude::*;
use crate::condition::{Condition, Op};

verus! {

/// A stored song.
#[derive(Clone, Debug)]
pub struct Song {
    pub id: i64,
    pub path: String,
}

/// A stored tag.
#[derive(Clone, Debug)]
pub struct Tag {
    pub id: i64,
    pub name: String,
}

/// The value that a song has for a tag, from 0 to 9.
#[derive(Clone, Copy, Debug, PartialEq, Eq, Structural)]
pub struct SongTag {
    pub song_id: i64,
    pub tag_id: i64,
    pub value: u8,
}

/// One playback of a song.
#[derive(Clone, Copy, Debug, PartialEq, Eq, Structural)]
pub struct PlayEvent {
    pub id: i64,
    pub song_id: i64,
}

/// Signed feedback on a tag for one playback.
#[derive(Clone, Copy, Debug, PartialEq, Eq, Structural)]
pub struct Feedback {
    pub id: i64,
    pub play_event_id: i64,
    pub tag_id: i64,
    pub positive: bool,
}

/// Why a store operation failed.
#[derive(Clone, Copy, Debug, PartialEq, Eq, Structural)]
pub enum StoreError {
    StorageUnavailable,
    NotFound,
    ConstraintViolation,
}

/// The store as plain values: rows of `(id, text)` for songs and tags.
pub struct LibraryView {
    pub songs: Seq<(i64, Seq<char>)>,
    pub tags: Seq<(i64, Seq<char>)>,
    pub song_tags: Seq<SongTag>,
    pub play_events: Seq<PlayEvent>,
    pub feedback: Seq<Feedback>,
    pub next_id: i64,
}

/// The store of songs, tags and the values that songs have for tags.
pub struct Library {
    songs: Vec<Song>,
    tags: Vec<Tag>,
    song_tags: Vec<SongTag>,
    play_events: Vec<PlayEvent>,
    feedback: Vec<Feedback>,
    next_id: i64,
}

pub open spec fn song_row(s: Song) -> (i64, Seq<char>) {
    (s.id, s.path@)
}

pub open spec fn tag_row(t: Tag) -> (i64, Seq<char>) {
    (t.id, t.name@)
}

impl View for Library {
    type V = LibraryView;

    closed spec fn view(&self) -> LibraryView {
        LibraryView {
            songs: self.songs@.map_values(|s: Song| song_row(s)),
            tags: self.tags@.map_values(|t: Tag| tag_row(t)),
            song_tags: self.song_tags@,
            play_events: self.play_events@,
            feedback: self.feedback@,
            next_id: self.next_id,
        }
    }
}

/// The first index at or after `i` of a row whose text is `key`.
pub open spec fn find_row(rows: Seq<(i64, Seq<char>)>, key: Seq<char>, i: int) -> Option<int>
    decreases rows.len() - i,
{
    if i < 0 || i >= rows.len() {
        None
    } else if rows[i].1 == key {
        Some(i)
    } else {
        find_row(rows, key, i + 1)
    }
}

/// The first index at or after `i` of the value row for a song and a tag.
pub open spec fn find_pair(rows: Seq<SongTag>, song_id: i64, tag_id: i64, i: int) -> Option<int>
    decreases rows.len() - i,
{
    if i < 0 || i >= rows.len() {
        None
    } else if rows[i].song_id == song_id && rows[i].tag_id == tag_id {
        Some(i)
    } else {
        find_pair(rows, song_id, tag_id, i + 1)
    }
}

/// Rows of distinct ids and distinct texts, all ids below `next`.
pub open spec fn rows_ok(rows: Seq<(i64, Seq<char>)>, next: i64) -> bool {
    &&& forall|i: int| 0 <= i < rows.len() ==> #[trigger] rows[i].0 < next
    &&& forall|i: int, j: int|
        0 <= i < rows.len() && 0 <= j < rows.len() && #[trigger] rows[i].0 == #[trigger] rows[j].0
            ==> i == j
    &&& forall|i: int, j: int|
        0 <= i < rows.len() && 0 <= j < rows.len() && #[trigger] rows[i].1 == #[trigger] rows[j].1
            ==> i == j
}

/// At most one value row per song and tag, each value from 0 to 9.
pub open spec fn pairs_ok(rows: Seq<SongTag>) -> bool {
    &&& forall|i: int| 0 <= i < rows.len() ==> #[trigger] rows[i].value <= 9
    &&& forall|i: int, j: int|
        0 <= i < rows.len() && 0 <= j < rows.len() && #[trigger] rows[i].song_id
            == #[trigger] rows[j].song_id && rows[i].tag_id == rows[j].tag_id ==> i == j
}

impl LibraryView {
    pub open spec fn wf(self) -> bool {
        &&& 1 <= self.next_id
        &&& rows_ok(self.songs, self.next_id)
        &&& rows_ok(self.tags, self.next_id)
        &&& pairs_ok(self.song_tags)
    }

    /// The store with `rows` standing for its songs and a new next id.
    pub open spec fn with_songs(self, rows: Seq<(i64, Seq<char>)>, next: i64) -> LibraryView {
        LibraryView { songs: rows, next_id: next, ..self }
    }

    pub open spec fn with_tags(self, rows: Seq<(i64, Seq<char>)>, next: i64) -> LibraryView {
        LibraryView { tags: rows, next_id: next, ..self }
    }

    /// Adding a song: nothing changes where its path is stored already.
    pub open spec fn add_song(self, path: Seq<char>) -> (Result<(), StoreError>, LibraryView) {
        if find_row(self.songs, path, 0) is Some {
            (Ok(()), self)
        } else if self.next_id == i64::MAX {
            (Err(StoreError::StorageUnavailable), self)
        } else {
            (Ok(()), self.with_songs(self.songs.push((self.next_id, path)), (self.next_id + 1) as i64))
        }
    }

    /// Adding a tag: nothing changes where its name is stored already.
    pub open spec fn add_tag(self, name: Seq<char>) -> (Result<(), StoreError>, LibraryView) {
        if find_row(self.tags, name, 0) is Some {
            (Ok(()), self)
        } else if self.next_id == i64::MAX {
            (Err(StoreError::StorageUnavailable), self)
        } else {
            (Ok(()), self.with_tags(self.tags.push((self.next_id, name)), (self.next_id + 1) as i64))
        }
    }

    /// Setting a song's value for a tag: both must exist and the value lie in
    /// 0..=9; an existing value row is overwritten, else one is added.
    pub open spec fn tag_song(self, path: Seq<char>, name: Seq<char>, value: u8) -> (
        Result<(), StoreError>,
        LibraryView,
    ) {
        match (find_row(self.songs, path, 0), find_row(self.tags, name, 0)) {
            (Some(i), Some(j)) => if value > 9 {
                (Err(StoreError::ConstraintViolation), self)
            } else {
                let row = SongTag { song_id: self.songs[i].0, tag_id: self.tags[j].0, value };
                match find_pair(self.song_tags, row.song_id, row.tag_id, 0) {
                    Some(k) => (Ok(()), LibraryView { song_tags: self.song_tags.update(k, row), ..self }),
                    None => (Ok(()), LibraryView { song_tags: self.song_tags.push(row), ..self }),
                }
            },
            _ => (Err(StoreError::NotFound), self),
        }
    }

    /// Removing a song with everything that refers to it: the feedback on its
    /// playbacks, its playbacks, its values, then the song itself.
    pub open spec fn remove_song(self, path: Seq<char>) -> LibraryView {
        match find_row(self.songs, path, 0) {
            None => self,
            Some(i) => {
                let id = self.songs[i].0;
                LibraryView {
                    songs: self.songs.remove(i),
                    song_tags: self.song_tags.filter(other_song(id)),
                    play_events: self.play_events.filter(event_of_other_song(id)),
                    feedback: self.feedback.filter(feedback_of_other_song(self.play_events, id)),
                    ..self
                }
            },
        }
    }

    /// Removing a tag with its feedback and its values.
    pub open spec fn remove_tag(self, name: Seq<char>) -> LibraryView {
        match find_row(self.tags, name, 0) {
            None => self,
            Some(j) => {
                let id = self.tags[j].0;
                LibraryView {
                    tags: self.tags.remove(j),
                    song_tags: self.song_tags.filter(other_tag(id)),
                    feedback: self.feedback.filter(feedback_on_other_tag(id)),
                    ..self
                }
            },
        }
    }
}

/// Whether `event` is a playback of the song `song_id`.
pub open spec fn played_song(events: Seq<PlayEvent>, event: i64, song_id: i64) -> bool {
    exists|k: int| 0 <= k < events.len() && #[trigger] events[k].id == event && events[k].song_id == song_id
}

proof fn lemma_find_row(rows: Seq<(i64, Seq<char>)>, key: Seq<char>, i: int)
    requires
        0 <= i,
    ensures
        match find_row(rows, key, i) {
            Some(k) => i <= k < rows.len() && rows[k].1 == key,
            None => forall|k: int| i <= k < rows.len() ==> rows[k].1 != key,
        },
    decreases rows.len() - i,
{
    if i < rows.len() && rows[i].1 != key {
        lemma_find_row(rows, key, i + 1);
    }
}

proof fn lemma_find_pair(rows: Seq<SongTag>, song_id: i64, tag_id: i64, i: int)
    requires
        0 <= i,
    ensures
        match find_pair(rows, song_id, tag_id, i) {
            Some(k) => i <= k < rows.len() && rows[k].song_id == song_id && rows[k].tag_id == tag_id,
            None => forall|k: int|
                i <= k < rows.len() ==> !(rows[k].song_id == song_id && rows[k].tag_id == tag_id),
        },
    decreases rows.len() - i,
{
    if i < rows.len() && !(rows[i].song_id == song_id && rows[i].tag_id == tag_id) {
        lemma_find_pair(rows, song_id, tag_id, i + 1);
    }
}

/// Filtering keeps at most one value row per song and tag.
proof fn lemma_filter_pairs_ok(rows: Seq<SongTag>, keep: spec_fn(SongTag) -> bool)
    requires
        pairs_ok(rows),
    ensures
        pairs_ok(rows.filter(keep)),
    decreases rows.len(),
{
    reveal(Seq::filter);
    if rows.len() > 0 {
        let front = rows.drop_last();
        assert(pairs_ok(front)) by {
            assert forall|i: int, j: int|
                0 <= i < front.len() && 0 <= j < front.len() && #[trigger] front[i].song_id
                    == #[trigger] front[j].song_id && front[i].tag_id == front[j].tag_id implies i
                == j by {
                assert(rows[i] == front[i] && rows[j] == front[j]);
            }
        }
        lemma_filter_pairs_ok(front, keep);
        let f = front.filter(keep);
        front.filter_lemma(keep);
        if keep(rows.last()) {
            let g = f.push(rows.last());
            assert forall|i: int, j: int|
                0 <= i < g.len() && 0 <= j < g.len() && #[trigger] g[i].song_id
                    == #[trigger] g[j].song_id && g[i].tag_id == g[j].tag_id implies i == j by {
                if i < f.len() && j == f.len() {
                    assert(f.contains(f[i]));
                    front.lemma_filter_contains_rev(keep, f[i]);
                    let k = choose|k: int| 0 <= k < front.len() && front[k] == f[i];
                    assert(rows[k] == front[k]);
                    assert(rows[rows.len() - 1] == rows.last());
                } else if j < f.len() && i == f.len() {
                    assert(f.contains(f[j]));
                    front.lemma_filter_contains_rev(keep, f[j]);
                    let k = choose|k: int| 0 <= k < front.len() && front[k] == f[j];
                    assert(rows[k] == front[k]);
                    assert(rows[rows.len() - 1] == rows.last());
                }
            }
        }
    }
}

pub open spec fn other_song(id: i64) -> spec_fn(SongTag) -> bool {
    |r: SongTag| r.song_id != id
}

pub open spec fn other_tag(id: i64) -> spec_fn(SongTag) -> bool {
    |r: SongTag| r.tag_id != id
}

pub open spec fn event_of_other_song(id: i64) -> spec_fn(PlayEvent) -> bool {
    |e: PlayEvent| e.song_id != id
}

pub open spec fn feedback_of_other_song(events: Seq<PlayEvent>, id: i64) -> spec_fn(Feedback) -> bool {
    |f: Feedback| !played_song(events, f.play_event_id, id)
}

pub open spec fn feedback_on_other_tag(id: i64) -> spec_fn(Feedback) -> bool {
    |f: Feedback| f.tag_id != id
}

fn song_tags_without(rows: &Vec<SongTag>, id: i64, by_song: bool) -> (r: Vec<SongTag>)
    ensures
        r@ == rows@.filter(if by_song { other_song(id) } else { other_tag(id) }),
{
    let ghost keep = if by_song { other_song(id) } else { other_tag(id) };
    let mut out: Vec<SongTag> = Vec::new();
    let mut i: usize = 0;
    while i < rows.len()
        invariant
            i <= rows@.len(),
            keep == (if by_song { other_song(id) } else { other_tag(id) }),
            out@ == rows@.subrange(0, i as int).filter(keep),
        decreases rows@.len() - i,
    {
        let row = rows[i];
        proof {
            reveal(Seq::filter);
            assert(rows@.subrange(0, i + 1).drop_last() =~= rows@.subrange(0, i as int));
        }
        let other = if by_song { row.song_id != id } else { row.tag_id != id };
        if other {
            out.push(row);
        }
        i = i + 1;
    }
    assert(rows@.subrange(0, rows@.len() as int) =~= rows@);
    out
}

fn events_without_song(rows: &Vec<PlayEvent>, id: i64) -> (r: Vec<PlayEvent>)
    ensures
        r@ == rows@.filter(event_of_other_song(id)),
{
    let mut out: Vec<PlayEvent> = Vec::new();
    let mut i: usize = 0;
    while i < rows.len()
        invariant
            i <= rows@.len(),
            out@ == rows@.subrange(0, i as int).filter(event_of_other_song(id)),
        decreases rows@.len() - i,
    {
        let row = rows[i];
        proof {
            reveal(Seq::filter);
            assert(rows@.subrange(0, i + 1).drop_last() =~= rows@.subrange(0, i as int));
        }
        if row.song_id != id {
            out.push(row);
        }
        i = i + 1;
    }
    assert(rows@.subrange(0, rows@.len() as int) =~= rows@);
    out
}

/// Whether `event` is a playback of the song `song_id`.
fn is_play_of(events: &Vec<PlayEvent>, event: i64, song_id: i64) -> (r: bool)
    ensures
        r == played_song(events@, event, song_id),
{
    let mut k: usize = 0;
    while k < events.len()
        invariant
            k <= events@.len(),
            forall|m: int| 0 <= m < k ==> !(#[trigger] events@[m].id == event && events@[m].song_id == song_id),
        decreases events@.len() - k,
    {
        if events[k].id == event && events[k].song_id == song_id {
            return true;
        }
        k = k + 1;
    }
    false
}

fn feedback_without(rows: &Vec<Feedback>, events: &Vec<PlayEvent>, id: i64, by_song: bool) -> (r: Vec<Feedback>)
    ensures
        r@ == rows@.filter(
            if by_song { feedback_of_other_song(events@, id) } else { feedback_on_other_tag(id) },
        ),
{
    let ghost keep = if by_song { feedback_of_other_song(events@, id) } else { feedback_on_other_tag(id) };
    let mut out: Vec<Feedback> = Vec::new();
    let mut i: usize = 0;
    while i < rows.len()
        invariant
            i <= rows@.len(),
            keep == (if by_song { feedback_of_other_song(events@, id) } else { feedback_on_other_tag(id) }),
            out@ == rows@.subrange(0, i as int).filter(keep),
        decreases rows@.len() - i,
    {
        let row = rows[i];
        proof {
            reveal(Seq::filter);
            assert(rows@.subrange(0, i + 1).drop_last() =~= rows@.subrange(0, i as int));
        }
        let other = if by_song {
            !is_play_of(events, row.play_event_id, id)
        } else {
            row.tag_id != id
        };
        if other {
            out.push(row);
        }
        i = i + 1;
    }
    assert(rows@.subrange(0, rows@.len() as int) =~= rows@);
    out
}

proof fn lemma_remove_rows_ok(rows: Seq<(i64, Seq<char>)>, next: i64, i: int)
    requires
        rows_ok(rows, next),
        0 <= i < rows.len(),
    ensures
        rows_ok(rows.remove(i), next),
{
    let r = rows.remove(i);
    assert forall|a: int| 0 <= a < r.len() implies #[trigger] r[a].0 < next by {
        if a < i {
            assert(r[a] == rows[a]);
        } else {
            assert(r[a] == rows[a + 1]);
        }
    }
    assert forall|a: int, b: int|
        0 <= a < r.len() && 0 <= b < r.len() && #[trigger] r[a].1 == #[trigger] r[b].1 implies a
        == b by {
        let a1 = if a < i { a } else { a + 1 };
        let b1 = if b < i { b } else { b + 1 };
        assert(r[a] == rows[a1]);
        assert(r[b] == rows[b1]);
    }
    assert forall|a: int, b: int|
        0 <= a < r.len() && 0 <= b < r.len() && #[trigger] r[a].0 == #[trigger] r[b].0 implies a
        == b by {
        let a1 = if a < i { a } else { a + 1 };
        let b1 = if b < i { b } else { b + 1 };
        assert(r[a] == rows[a1]);
        assert(r[b] == rows[b1]);
    }
}

proof fn lemma_update_pairs_ok(rows: Seq<SongTag>, k: int, row: SongTag)
    requires
        pairs_ok(rows),
        0 <= k < rows.len(),
        rows[k].song_id == row.song_id && rows[k].tag_id == row.tag_id,
        row.value <= 9,
    ensures
        pairs_ok(rows.update(k, row)),
{
    let u = rows.update(k, row);
    assert forall|a: int, b: int|
        0 <= a < u.len() && 0 <= b < u.len() && #[trigger] u[a].song_id == #[trigger] u[b].song_id
            && u[a].tag_id == u[b].tag_id implies a == b by {
        if a != k {
            assert(rows[a] == u[a]);
        }
        if b != k {
            assert(rows[b] == u[b]);
        }
    }
    assert forall|a: int| 0 <= a < u.len() implies #[trigger] u[a].value <= 9 by {
        if a != k {
            assert(rows[a] == u[a]);
        }
    }
}

/// `rows` (of songs or of tags) hold exactly one row whose text is `key`.
pub open spec fn one_row_with(rows: Seq<(i64, Seq<char>)>, key: Seq<char>) -> bool {
    exists|i: int|
        0 <= i < rows.len() && rows[i].1 == key && forall|j: int|
            0 <= j < rows.len() && #[trigger] rows[j].1 == key ==> j == i
}

/// Adding keeps the store well formed.
pub proof fn lemma_add_keeps_wf(m: LibraryView, key: Seq<char>)
    requires
        m.wf(),
    ensures
        m.add_song(key).1.wf(),
        m.add_tag(key).1.wf(),
{
    lemma_find_row(m.songs, key, 0);
    lemma_find_row(m.tags, key, 0);
}

/// Setting a value keeps the store well formed.
pub proof fn lemma_tag_keeps_wf(m: LibraryView, path: Seq<char>, name: Seq<char>, value: u8)
    requires
        m.wf(),
    ensures
        m.tag_song(path, name, value).1.wf(),
{
    lemma_find_row(m.songs, path, 0);
    lemma_find_row(m.tags, name, 0);
    if let (Some(i), Some(j)) = (find_row(m.songs, path, 0), find_row(m.tags, name, 0)) {
        if value <= 9 {
            let row = SongTag { song_id: m.songs[i].0, tag_id: m.tags[j].0, value };
            lemma_find_pair(m.song_tags, row.song_id, row.tag_id, 0);
            if let Some(k) = find_pair(m.song_tags, row.song_id, row.tag_id, 0) {
                lemma_update_pairs_ok(m.song_tags, k, row);
            }
        }
    }
}

/// Adding the same song twice leaves exactly one song with that path, and the
/// second call changes nothing; the same holds of tags.
pub proof fn lemma_add_twice_leaves_one(m: LibraryView, key: Seq<char>)
    requires
        m.wf(),
    ensures
        m.add_song(key).0 is Ok ==> {
            let once = m.add_song(key).1;
            &&& once.add_song(key) == (Ok::<(), StoreError>(()), once)
            &&& one_row_with(once.songs, key)
        },
        m.add_tag(key).0 is Ok ==> {
            let once = m.add_tag(key).1;
            &&& once.add_tag(key) == (Ok::<(), StoreError>(()), once)
            &&& one_row_with(once.tags, key)
        },
{
    lemma_add_keeps_wf(m, key);
    lemma_find_row(m.songs, key, 0);
    lemma_find_row(m.tags, key, 0);
    let s = m.add_song(key).1;
    let t = m.add_tag(key).1;
    if m.add_song(key).0 is Ok {
        if find_row(m.songs, key, 0) is None {
            assert(s.songs[s.songs.len() - 1].1 == key);
        }
        lemma_find_row(s.songs, key, 0);
        let i = find_row(s.songs, key, 0)->Some_0;
        assert forall|j: int| 0 <= j < s.songs.len() && #[trigger] s.songs[j].1 == key implies j == i by {
            assert(s.songs[i].1 == s.songs[j].1);
        }
        assert(one_row_with(s.songs, key));
    }
    if m.add_tag(key).0 is Ok {
        if find_row(m.tags, key, 0) is None {
            assert(t.tags[t.tags.len() - 1].1 == key);
        }
        lemma_find_row(t.tags, key, 0);
        let i = find_row(t.tags, key, 0)->Some_0;
        assert forall|j: int| 0 <= j < t.tags.len() && #[trigger] t.tags[j].1 == key implies j == i by {
            assert(t.tags[i].1 == t.tags[j].1);
        }
        assert(one_row_with(t.tags, key));
    }
}

/// After a song is removed, no value row, playback or feedback on one of its
/// playbacks refers to its former id.
pub proof fn lemma_remove_song_cascades(m: LibraryView, path: Seq<char>)
    requires
        find_row(m.songs, path, 0) is Some,
    ensures
        ({
            let id = m.songs[find_row(m.songs, path, 0)->Some_0].0;
            let after = m.remove_song(path);
            &&& forall|k: int| 0 <= k < after.song_tags.len() ==> #[trigger] after.song_tags[k].song_id != id
            &&& forall|k: int| 0 <= k < after.play_events.len() ==> #[trigger] after.play_events[k].song_id != id
            &&& forall|k: int|
                0 <= k < after.feedback.len() ==> !played_song(m.play_events, #[trigger] after.feedback[k].play_event_id, id)
        }),
{
    let id = m.songs[find_row(m.songs, path, 0)->Some_0].0;
    m.song_tags.filter_lemma(other_song(id));
    m.play_events.filter_lemma(event_of_other_song(id));
    m.feedback.filter_lemma(feedback_of_other_song(m.play_events, id));
}

/// Setting a song's value for a tag twice leaves one value row for the pair,
/// holding the second value.
pub proof fn lemma_tag_twice_overwrites(m: LibraryView, path: Seq<char>, name: Seq<char>, first: u8, second: u8)
    requires
        m.wf(),
        m.tag_song(path, name, first).0 is Ok,
        second <= 9,
    ensures
        ({
            let once = m.tag_song(path, name, first).1;
            let twice = once.tag_song(path, name, second);
            let song_id = m.songs[find_row(m.songs, path, 0)->Some_0].0;
            let tag_id = m.tags[find_row(m.tags, name, 0)->Some_0].0;
            &&& twice.0 is Ok
            &&& exists|k: int|
                0 <= k < twice.1.song_tags.len() && twice.1.song_tags[k] == (SongTag {
                    song_id,
                    tag_id,
                    value: second,
                }) && forall|l: int|
                    0 <= l < twice.1.song_tags.len() && #[trigger] twice.1.song_tags[l].song_id == song_id
                        && twice.1.song_tags[l].tag_id == tag_id ==> l == k
        }),
{
    lemma_tag_keeps_wf(m, path, name, first);
    let once = m.tag_song(path, name, first).1;
    lemma_tag_keeps_wf(once, path, name, second);
    let twice = once.tag_song(path, name, second).1;
    lemma_find_row(m.songs, path, 0);
    lemma_find_row(m.tags, name, 0);
    let song_id = m.songs[find_row(m.songs, path, 0)->Some_0].0;
    let tag_id = m.tags[find_row(m.tags, name, 0)->Some_0].0;
    let row1 = SongTag { song_id, tag_id, value: first };
    assert(once.songs == m.songs && once.tags == m.tags);
    lemma_find_pair(m.song_tags, song_id, tag_id, 0);
    match find_pair(m.song_tags, song_id, tag_id, 0) {
        Some(k0) => {
            assert(once.song_tags[k0] == row1);
        },
        None => {
            assert(once.song_tags[once.song_tags.len() - 1] == row1);
        },
    }
    lemma_find_pair(once.song_tags, song_id, tag_id, 0);
    let k = find_pair(once.song_tags, song_id, tag_id, 0)->Some_0;
    let row2 = SongTag { song_id, tag_id, value: second };
    assert(twice.song_tags == once.song_tags.update(k, row2));
    assert(twice.song_tags[k] == row2);
    assert forall|l: int|
        0 <= l < twice.song_tags.len() && #[trigger] twice.song_tags[l].song_id == song_id
            && twice.song_tags[l].tag_id == tag_id implies l == k by {
        assert(twice.song_tags[k].song_id == twice.song_tags[l].song_id);
    }
}

/// Strict lexicographic order of texts by character code, the order of paths in results.
pub open spec fn text_less(a: Seq<char>, b: Seq<char>) -> bool
    decreases a.len(),
{
    if a.len() == 0 {
        b.len() > 0
    } else if b.len() == 0 {
        false
    } else if a[0] != b[0] {
        (a[0] as int) < (b[0] as int)
    } else {
        text_less(a.drop_first(), b.drop_first())
    }
}

proof fn lemma_text_total(a: Seq<char>, b: Seq<char>)
    requires
        a != b,
    ensures
        text_less(a, b) || text_less(b, a),
    decreases a.len(),
{
    if a.len() == 0 && b.len() == 0 {
        assert(a =~= b);
    }
    if a.len() > 0 && b.len() > 0 && a[0] == b[0] {
        if a.drop_first() == b.drop_first() {
            assert(a =~= seq![a[0]] + a.drop_first());
            assert(b =~= seq![b[0]] + b.drop_first());
        }
        lemma_text_total(a.drop_first(), b.drop_first());
    }
}

proof fn lemma_text_trans(a: Seq<char>, b: Seq<char>, c: Seq<char>)
    requires
        text_less(a, b),
        text_less(b, c),
    ensures
        text_less(a, c),
    decreases a.len(),
{
    if a.len() > 0 && b.len() > 0 && c.len() > 0 && a[0] == b[0] && b[0] == c[0] {
        lemma_text_trans(a.drop_first(), b.drop_first(), c.drop_first());
    }
}

/// Whether a stored value `v` compares by `op` with a condition's value `w`.
pub open spec fn compares(v: u8, op: Op, w: u8) -> bool {
    match op {
        Op::Eq => v == w,
        Op::Gt => v > w,
        Op::Lt => v < w,
        Op::Ge => v >= w,
        Op::Le => v <= w,
        Op::Ne => v != w,
    }
}

/// Whether the tag with id `tag_id` is named `name`.
pub open spec fn tag_named(tags: Seq<(i64, Seq<char>)>, tag_id: i64, name: Seq<char>) -> bool {
    exists|j: int| 0 <= j < tags.len() && #[trigger] tags[j].0 == tag_id && tags[j].1 == name
}

/// Whether the song `song_id` has a value for the condition's tag that meets it.
pub open spec fn satisfies(m: LibraryView, song_id: i64, c: Condition) -> bool {
    exists|k: int|
        0 <= k < m.song_tags.len() && #[trigger] m.song_tags[k].song_id == song_id && compares(
            m.song_tags[k].value,
            c.op,
            c.value,
        ) && tag_named(m.tags, m.song_tags[k].tag_id, c.tag_name@)
}

/// Whether the song `song_id` meets every one of a non-empty list of conditions.
pub open spec fn selected(m: LibraryView, song_id: i64, cs: Seq<Condition>) -> bool {
    cs.len() > 0 && forall|i: int| 0 <= i < cs.len() ==> satisfies(m, song_id, #[trigger] cs[i])
}

fn text_less_exec(a: &String, b: &String) -> (r: bool)
    ensures
        r == text_less(a@, b@),
{
    let sa = a.as_str();
    let sb = b.as_str();
    let la = sa.unicode_len();
    let lb = sb.unicode_len();
    let mut i: usize = 0;
    assert(a@.subrange(0, la as int) =~= a@);
    assert(b@.subrange(0, lb as int) =~= b@);
    while i < la && i < lb
        invariant
            sa@ == a@,
            sb@ == b@,
            la == a@.len(),
            lb == b@.len(),
            i <= la && i <= lb,
            text_less(a@, b@) == text_less(a@.subrange(i as int, la as int), b@.subrange(i as int, lb as int)),
        decreases la - i,
    {
        let x = sa.get_char(i);
        let y = sb.get_char(i);
        assert(a@.subrange(i as int, la as int).drop_first() =~= a@.subrange(i + 1, la as int));
        assert(b@.subrange(i as int, lb as int).drop_first() =~= b@.subrange(i + 1, lb as int));
        if x != y {
            return (x as u32) < (y as u32);
        }
        i = i + 1;
    }
    i == la && i < lb
}

fn compares_exec(v: u8, op: Op, w: u8) -> (r: bool)
    ensures
        r == compares(v, op, w),
{
    match op {
        Op::Eq => v == w,
        Op::Gt => v > w,
        Op::Lt => v < w,
        Op::Ge => v >= w,
        Op::Le => v <= w,
        Op::Ne => v != w,
    }
}

/// The value that the song at `path` has for the tag `name`, if both and the value are stored.
pub open spec fn value_spec(m: LibraryView, path: Seq<char>, name: Seq<char>) -> Option<u8> {
    match (find_row(m.songs, path, 0), find_row(m.tags, name, 0)) {
        (Some(i), Some(j)) => match find_pair(m.song_tags, m.songs[i].0, m.tags[j].0, 0) {
            Some(k) => Some(m.song_tags[k].value),
            None => None,
        },
        _ => None,
    }
}

impl LibraryView {
    /// Recording a playback of a stored song under a fresh id.
    pub open spec fn record_play(self, path: Seq<char>) -> (Result<i64, StoreError>, LibraryView) {
        match find_row(self.songs, path, 0) {
            None => (Err(StoreError::NotFound), self),
            Some(i) => if self.next_id == i64::MAX {
                (Err(StoreError::StorageUnavailable), self)
            } else {
                (
                    Ok(self.next_id),
                    LibraryView {
                        play_events: self.play_events.push(PlayEvent { id: self.next_id, song_id: self.songs[i].0 }),
                        next_id: (self.next_id + 1) as i64,
                        ..self
                    },
                )
            },
        }
    }

    /// Recording feedback on a stored tag for a recorded playback.
    pub open spec fn record_feedback(self, play_event_id: i64, name: Seq<char>, positive: bool) -> (
        Result<(), StoreError>,
        LibraryView,
    ) {
        let known = exists|k: int| 0 <= k < self.play_events.len() && #[trigger] self.play_events[k].id == play_event_id;
        match find_row(self.tags, name, 0) {
            Some(j) => if !known {
                (Err(StoreError::NotFound), self)
            } else if self.next_id == i64::MAX {
                (Err(StoreError::StorageUnavailable), self)
            } else {
                (
                    Ok(()),
                    LibraryView {
                        feedback: self.feedback.push(
                            Feedback { id: self.next_id, play_event_id, tag_id: self.tags[j].0, positive },
                        ),
                        next_id: (self.next_id + 1) as i64,
                        ..self
                    },
                )
            },
            None => (Err(StoreError::NotFound), self),
        }
    }
}

impl Library {
    /// An empty store.
    pub fn new() -> (r: Library)
        ensures
            r@.songs.len() == 0,
            r@.tags.len() == 0,
            r@.song_tags.len() == 0,
            r@.play_events.len() == 0,
            r@.feedback.len() == 0,
            r@.next_id == 1,
            r@.wf(),
    {
        Library {
            songs: Vec::new(),
            tags: Vec::new(),
            song_tags: Vec::new(),
            play_events: Vec::new(),
            feedback: Vec::new(),
            next_id: 1,
        }
    }

    fn find_song(&self, path: &String) -> (r: Option<usize>)
        ensures
            match r {
                Some(i) => find_row(self@.songs, path@, 0) == Some(i as int),
                None => find_row(self@.songs, path@, 0) is None,
            },
    {
        let mut i: usize = 0;
        while i < self.songs.len()
            invariant
                i <= self.songs@.len(),
                self@.songs.len() == self.songs@.len(),
                find_row(self@.songs, path@, 0) == find_row(self@.songs, path@, i as int),
            decreases self.songs@.len() - i,
        {
            if self.songs[i].path == *path {
                return Some(i);
            }
            i = i + 1;
        }
        None
    }

    fn find_tag(&self, name: &String) -> (r: Option<usize>)
        ensures
            match r {
                Some(i) => find_row(self@.tags, name@, 0) == Some(i as int),
                None => find_row(self@.tags, name@, 0) is None,
            },
    {
        let mut i: usize = 0;
        while i < self.tags.len()
            invariant
                i <= self.tags@.len(),
                self@.tags.len() == self.tags@.len(),
                find_row(self@.tags, name@, 0) == find_row(self@.tags, name@, i as int),
            decreases self.tags@.len() - i,
        {
            if self.tags[i].name == *name {
                return Some(i);
            }
            i = i + 1;
        }
        None
    }

    fn find_value_row(&self, song_id: i64, tag_id: i64) -> (r: Option<usize>)
        ensures
            match r {
                Some(i) => find_pair(self@.song_tags, song_id, tag_id, 0) == Some(i as int),
                None => find_pair(self@.song_tags, song_id, tag_id, 0) is None,
            },
    {
        let mut i: usize = 0;
        while i < self.song_tags.len()
            invariant
                i <= self.song_tags@.len(),
                self@.song_tags == self.song_tags@,
                find_pair(self@.song_tags, song_id, tag_id, 0) == find_pair(
                    self@.song_tags,
                    song_id,
                    tag_id,
                    i as int,
                ),
            decreases self.song_tags@.len() - i,
        {
            if self.song_tags[i].song_id == song_id && self.song_tags[i].tag_id == tag_id {
                return Some(i);
            }
            i = i + 1;
        }
        None
    }

    /// Add a song by its path; adding a path that is stored already changes nothing.
    pub fn add_song(&mut self, path: &str) -> (r: Result<(), StoreError>)
        requires
            old(self)@.wf(),
        ensures
            (r, final(self)@) == old(self)@.add_song(path@),
            final(self)@.wf(),
    {
        let p = String::from_str(path);
        proof {
            lemma_find_row(self@.songs, p@, 0);
        }
        proof {
            lemma_add_keeps_wf(self@, path@);
        }
        if self.find_song(&p).is_some() {
            return Ok(());
        }
        if self.next_id == i64::MAX {
            return Err(StoreError::StorageUnavailable);
        }
        let ghost before = self@;
        self.songs.push(Song { id: self.next_id, path: p });
        self.next_id = self.next_id + 1;
        assert(self@.songs =~= before.songs.push((before.next_id, path@)));
        Ok(())
    }

    /// Add a tag by its name; adding a name that is stored already changes nothing.
    pub fn add_tag(&mut self, name: &str) -> (r: Result<(), StoreError>)
        requires
            old(self)@.wf(),
        ensures
            (r, final(self)@) == old(self)@.add_tag(name@),
            final(self)@.wf(),
    {
        let n = String::from_str(name);
        proof {
            lemma_find_row(self@.tags, n@, 0);
        }
        proof {
            lemma_add_keeps_wf(self@, name@);
        }
        if self.find_tag(&n).is_some() {
            return Ok(());
        }
        if self.next_id == i64::MAX {
            return Err(StoreError::StorageUnavailable);
        }
        let ghost before = self@;
        self.tags.push(Tag { id: self.next_id, name: n });
        self.next_id = self.next_id + 1;
        assert(self@.tags =~= before.tags.push((before.next_id, name@)));
        Ok(())
    }
    /// Set a song's value for a tag: both must be stored, and the value must
    /// lie in 0..=9. An existing value is overwritten, never duplicated.
    pub fn tag_song(&mut self, song_path: &str, tag_name: &str, value: u8) -> (r: Result<
        (),
        StoreError,
    >)
        requires
            old(self)@.wf(),
        ensures
            (r, final(self)@) == old(self)@.tag_song(song_path@, tag_name@, value),
            final(self)@.wf(),
    {
        let p = String::from_str(song_path);
        let n = String::from_str(tag_name);
        proof {
            lemma_find_row(self@.songs, p@, 0);
            lemma_find_row(self@.tags, n@, 0);
        }
        let i = match self.find_song(&p) {
            Some(i) => i,
            None => {
                return Err(StoreError::NotFound);
            },
        };
        let j = match self.find_tag(&n) {
            Some(j) => j,
            None => {
                return Err(StoreError::NotFound);
            },
        };
        if value > 9 {
            return Err(StoreError::ConstraintViolation);
        }
        let row = SongTag { song_id: self.songs[i].id, tag_id: self.tags[j].id, value };
        assert(row.song_id == self@.songs[i as int].0 && row.tag_id == self@.tags[j as int].0);
        proof {
            lemma_find_pair(self@.song_tags, row.song_id, row.tag_id, 0);
        }
        let ghost before = self.song_tags@;
        match self.find_value_row(row.song_id, row.tag_id) {
            Some(k) => {
                self.song_tags.set(k, row);
                proof {
                    lemma_update_pairs_ok(before, k as int, row);
                }
            },
            None => {
                self.song_tags.push(row);
            },
        }
        Ok(())
    }

    /// Remove a song with the feedback on its playbacks, its playbacks and its
    /// values; removing a path that is not stored changes nothing.
    pub fn remove_song(&mut self, path: &str)
        requires
            old(self)@.wf(),
        ensures
            final(self)@ == old(self)@.remove_song(path@),
            final(self)@.wf(),
    {
        let p = String::from_str(path);
        proof {
            lemma_find_row(self@.songs, p@, 0);
        }
        let i = match self.find_song(&p) {
            Some(i) => i,
            None => {
                return;
            },
        };
        let ghost before = self@;
        let id = self.songs[i].id;
        let feedback = feedback_without(&self.feedback, &self.play_events, id, true);
        let play_events = events_without_song(&self.play_events, id);
        let song_tags = song_tags_without(&self.song_tags, id, true);
        self.feedback = feedback;
        self.play_events = play_events;
        self.song_tags = song_tags;
        self.songs.remove(i);
        proof {
            assert(self@.songs =~= before.songs.remove(i as int));
            lemma_remove_rows_ok(before.songs, before.next_id, i as int);
            lemma_filter_pairs_ok(before.song_tags, other_song(id));
        }
    }

    /// Remove a tag with its feedback and its values; removing a name that is
    /// not stored changes nothing.
    pub fn remove_tag(&mut self, name: &str)
        requires
            old(self)@.wf(),
        ensures
            final(self)@ == old(self)@.remove_tag(name@),
            final(self)@.wf(),
    {
        let n = String::from_str(name);
        proof {
            lemma_find_row(self@.tags, n@, 0);
        }
        let j = match self.find_tag(&n) {
            Some(j) => j,
            None => {
                return;
            },
        };
        let ghost before = self@;
        let id = self.tags[j].id;
        let feedback = feedback_without(&self.feedback, &self.play_events, id, false);
        let song_tags = song_tags_without(&self.song_tags, id, false);
        self.feedback = feedback;
        self.song_tags = song_tags;
        self.tags.remove(j);
        proof {
            assert(self@.tags =~= before.tags.remove(j as int));
            lemma_remove_rows_ok(before.tags, before.next_id, j as int);
            lemma_filter_pairs_ok(before.song_tags, other_tag(id));
        }
    }
    fn tag_is_named(&self, tag_id: i64, name: &String) -> (r: bool)
        ensures
            r == tag_named(self@.tags, tag_id, name@),
    {
        let mut j: usize = 0;
        while j < self.tags.len()
            invariant
                j <= self.tags@.len(),
                self@.tags.len() == self.tags@.len(),
                forall|q: int| 0 <= q < j ==> !(#[trigger] self@.tags[q].0 == tag_id && self@.tags[q].1 == name@),
            decreases self.tags@.len() - j,
        {
            if self.tags[j].id == tag_id && self.tags[j].name == *name {
                assert(self@.tags[j as int].0 == tag_id);
                return true;
            }
            j = j + 1;
        }
        false
    }

    fn song_satisfies(&self, song_id: i64, c: &Condition) -> (r: bool)
        ensures
            r == satisfies(self@, song_id, *c),
    {
        let mut k: usize = 0;
        while k < self.song_tags.len()
            invariant
                k <= self.song_tags@.len(),
                self@.song_tags == self.song_tags@,
                forall|q: int|
                    0 <= q < k ==> !(#[trigger] self@.song_tags[q].song_id == song_id && compares(
                        self@.song_tags[q].value,
                        c.op,
                        c.value,
                    ) && tag_named(self@.tags, self@.song_tags[q].tag_id, c.tag_name@)),
            decreases self.song_tags@.len() - k,
        {
            let st = self.song_tags[k];
            if st.song_id == song_id && compares_exec(st.value, c.op, c.value) && self.tag_is_named(
                st.tag_id,
                &c.tag_name,
            ) {
                assert(self@.song_tags[k as int].song_id == song_id);
                return true;
            }
            k = k + 1;
        }
        false
    }

    fn song_selected(&self, song_id: i64, conditions: &Vec<Condition>) -> (r: bool)
        ensures
            r == selected(self@, song_id, conditions@),
    {
        if conditions.len() == 0 {
            return false;
        }
        let mut i: usize = 0;
        while i < conditions.len()
            invariant
                i <= conditions@.len(),
                forall|q: int| 0 <= q < i ==> satisfies(self@, song_id, #[trigger] conditions@[q]),
            decreases conditions@.len() - i,
        {
            if !self.song_satisfies(song_id, &conditions[i]) {
                return false;
            }
            i = i + 1;
        }
        true
    }

    /// The songs that meet every condition, each once, ordered by path. No
    /// conditions select no song.
    pub fn query_songs(&self, conditions: &Vec<Condition>) -> (r: Vec<Song>)
        requires
            self@.wf(),
        ensures
            forall|a: int|
                0 <= a < r@.len() ==> self@.songs.contains(song_row(#[trigger] r@[a])) && selected(
                    self@,
                    r@[a].id,
                    conditions@,
                ),
            forall|k: int|
                0 <= k < self@.songs.len() && selected(self@, #[trigger] self@.songs[k].0, conditions@)
                    ==> exists|a: int| 0 <= a < r@.len() && song_row(#[trigger] r@[a]) == self@.songs[k],
            forall|a: int, b: int| 0 <= a < b < r@.len() ==> text_less(#[trigger] r@[a].path@, #[trigger] r@[b].path@),
            forall|a: int, b: int| 0 <= a < b < r@.len() ==> #[trigger] r@[a].id != #[trigger] r@[b].id,
            conditions@.len() == 0 ==> r@.len() == 0,
    {
        let ghost m = self@;
        let mut out: Vec<Song> = Vec::new();
        let ghost mut src: Seq<int> = Seq::empty();
        let mut i: usize = 0;
        while i < self.songs.len()
            invariant
                m == self@,
                m.wf(),
                i <= self.songs@.len(),
                m.songs.len() == self.songs@.len(),
                src.len() == out@.len(),
                forall|a: int|
                    0 <= a < out@.len() ==> 0 <= #[trigger] src[a] < i && song_row(out@[a]) == m.songs[src[a]]
                        && selected(m, out@[a].id, conditions@),
                forall|k: int|
                    0 <= k < i && selected(m, #[trigger] m.songs[k].0, conditions@) ==> exists|a: int|
                        0 <= a < out@.len() && src[a] == k,
                forall|a: int, b: int| 0 <= a < b < out@.len() ==> text_less(#[trigger] out@[a].path@, #[trigger] out@[b].path@),
                forall|a: int, b: int| 0 <= a < b < out@.len() ==> #[trigger] out@[a].id != #[trigger] out@[b].id,
            decreases self.songs@.len() - i,
        {
            let id = self.songs[i].id;
            if self.song_selected(id, conditions) {
                let song = Song { id, path: self.songs[i].path.clone() };
                assert(song_row(song) == m.songs[i as int]);
                let mut pos: usize = 0;
                while pos < out.len() && text_less_exec(&out[pos].path, &song.path)
                    invariant
                        pos <= out@.len(),
                        forall|q: int| 0 <= q < pos ==> text_less(#[trigger] out@[q].path@, song.path@),
                    decreases out@.len() - pos,
                {
                    pos = pos + 1;
                }
                let ghost old_out = out@;
                let ghost old_src = src;
                proof {
                    assert forall|q: int| 0 <= q < old_out.len() implies #[trigger] old_out[q].path@ != song.path@ by {
                        assert(m.songs[old_src[q]].1 == m.songs[i as int].1 ==> old_src[q] == i);
                    }
                    if pos < old_out.len() {
                        lemma_text_total(old_out[pos as int].path@, song.path@);
                        assert forall|q: int| pos < q < old_out.len() implies text_less(song.path@, #[trigger] old_out[q].path@) by {
                            lemma_text_trans(song.path@, old_out[pos as int].path@, old_out[q].path@);
                        }
                    }
                }
                out.insert(pos, song);
                proof {
                    src = old_src.insert(pos as int, i as int);
                    assert forall|a: int, b: int| 0 <= a < b < out@.len() implies text_less(#[trigger] out@[a].path@, #[trigger] out@[b].path@) by {
                        if b < pos {
                            assert(out@[a] == old_out[a] && out@[b] == old_out[b]);
                        } else if b == pos {
                            assert(out@[a] == old_out[a]);
                        } else if a < pos {
                            assert(out@[a] == old_out[a] && out@[b] == old_out[b - 1]);
                            lemma_text_trans(old_out[a].path@, song.path@, old_out[b - 1].path@);
                        } else if a == pos {
                            assert(out@[b] == old_out[b - 1]);
                        } else {
                            assert(out@[a] == old_out[a - 1] && out@[b] == old_out[b - 1]);
                        }
                    }
                    assert forall|a: int, b: int| 0 <= a < b < out@.len() implies #[trigger] out@[a].id != #[trigger] out@[b].id by {
                        let a1 = if a < pos { a } else { a - 1 };
                        let b1 = if b < pos { b } else { b - 1 };
                        assert(out@[pos as int].id == m.songs[i as int].0);
                        if a != pos && b != pos {
                            assert(out@[a] == old_out[a1] && out@[b] == old_out[b1]);
                            assert(a1 < b1);
                            assert(old_out[a1].id != old_out[b1].id);
                        } else if a == pos {
                            assert(out@[b] == old_out[b1]);
                            assert(m.songs[old_src[b1]].0 == old_out[b1].id);
                            assert(old_src[b1] < i);
                            if m.songs[old_src[b1]].0 == m.songs[i as int].0 {
                                assert(old_src[b1] == i);
                            }
                        } else {
                            assert(out@[a] == old_out[a1]);
                            assert(m.songs[old_src[a1]].0 == old_out[a1].id);
                            assert(old_src[a1] < i);
                            if m.songs[old_src[a1]].0 == m.songs[i as int].0 {
                                assert(old_src[a1] == i);
                            }
                        }
                    }
                    assert forall|k: int|
                        0 <= k <= i && selected(m, #[trigger] m.songs[k].0, conditions@) implies exists|a: int|
                            0 <= a < out@.len() && src[a] == k by {
                        if k == i {
                            assert(src[pos as int] == k);
                        } else {
                            let a = choose|a: int| 0 <= a < old_out.len() && old_src[a] == k;
                            if a < pos {
                                assert(src[a] == k);
                            } else {
                                assert(src[a + 1] == k);
                            }
                        }
                    }
                    assert forall|a: int| 0 <= a < out@.len() implies 0 <= #[trigger] src[a] < i + 1
                        && song_row(out@[a]) == m.songs[src[a]] && selected(m, out@[a].id, conditions@) by {
                        if a < pos {
                            assert(out@[a] == old_out[a] && src[a] == old_src[a]);
                        } else if a > pos {
                            assert(out@[a] == old_out[a - 1] && src[a] == old_src[a - 1]);
                        }
                    }
                }
            }
            i = i + 1;
        }
        proof {
            assert forall|a: int| 0 <= a < out@.len() implies m.songs.contains(song_row(#[trigger] out@[a]))
                && selected(m, out@[a].id, conditions@) by {
                assert(m.songs[src[a]] == song_row(out@[a]));
            }
            assert forall|k: int|
                0 <= k < m.songs.len() && selected(m, #[trigger] m.songs[k].0, conditions@) implies exists|a: int|
                    0 <= a < out@.len() && song_row(#[trigger] out@[a]) == m.songs[k] by {
                let a = choose|a: int| 0 <= a < out@.len() && src[a] == k;
                assert(song_row(out@[a]) == m.songs[k]);
            }
            if conditions@.len() == 0 && out@.len() > 0 {
                assert(selected(m, out@[0].id, conditions@));
            }
        }
        out
    }
    pub fn song_count(&self) -> (r: usize)
        ensures
            r == self@.songs.len(),
    {
        self.songs.len()
    }

    pub fn tag_count(&self) -> (r: usize)
        ensures
            r == self@.tags.len(),
    {
        self.tags.len()
    }

    pub fn value_row_count(&self) -> (r: usize)
        ensures
            r == self@.song_tags.len(),
    {
        self.song_tags.len()
    }

    pub fn play_event_count(&self) -> (r: usize)
        ensures
            r == self@.play_events.len(),
    {
        self.play_events.len()
    }

    pub fn feedback_count(&self) -> (r: usize)
        ensures
            r == self@.feedback.len(),
    {
        self.feedback.len()
    }

    /// The value that the song at `path` has for the tag `name`.
    pub fn value_of(&self, path: &str, name: &str) -> (r: Option<u8>)
        ensures
            r == value_spec(self@, path@, name@),
    {
        let p = String::from_str(path);
        let n = String::from_str(name);
        proof {
            lemma_find_row(self@.songs, p@, 0);
            lemma_find_row(self@.tags, n@, 0);
        }
        match (self.find_song(&p), self.find_tag(&n)) {
            (Some(i), Some(j)) => {
                proof {
                    lemma_find_pair(self@.song_tags, self@.songs[i as int].0, self@.tags[j as int].0, 0);
                }
                match self.find_value_row(self.songs[i].id, self.tags[j].id) {
                    Some(k) => Some(self.song_tags[k].value),
                    None => None,
                }
            },
            _ => None,
        }
    }

    /// Record a playback of a stored song; returns its id.
    pub fn record_play(&mut self, song_path: &str) -> (r: Result<i64, StoreError>)
        requires
            old(self)@.wf(),
        ensures
            (r, final(self)@) == old(self)@.record_play(song_path@),
            final(self)@.wf(),
    {
        let p = String::from_str(song_path);
        proof {
            lemma_find_row(self@.songs, p@, 0);
        }
        let i = match self.find_song(&p) {
            Some(i) => i,
            None => {
                return Err(StoreError::NotFound);
            },
        };
        if self.next_id == i64::MAX {
            return Err(StoreError::StorageUnavailable);
        }
        let id = self.next_id;
        self.play_events.push(PlayEvent { id, song_id: self.songs[i].id });
        self.next_id = self.next_id + 1;
        Ok(id)
    }

    fn has_play_event(&self, play_event_id: i64) -> (r: bool)
        ensures
            r == exists|k: int| 0 <= k < self@.play_events.len() && #[trigger] self@.play_events[k].id == play_event_id,
    {
        let mut k: usize = 0;
        while k < self.play_events.len()
            invariant
                k <= self.play_events@.len(),
                self@.play_events == self.play_events@,
                forall|q: int| 0 <= q < k ==> #[trigger] self@.play_events[q].id != play_event_id,
            decreases self.play_events@.len() - k,
        {
            if self.play_events[k].id == play_event_id {
                assert(self@.play_events[k as int].id == play_event_id);
                return true;
            }
            k = k + 1;
        }
        false
    }

    /// Record feedback on a stored tag for a recorded playback.
    pub fn record_feedback(&mut self, play_event_id: i64, tag_name: &str, positive: bool) -> (r: Result<
        (),
        StoreError,
    >)
        requires
            old(self)@.wf(),
        ensures
            (r, final(self)@) == old(self)@.record_feedback(play_event_id, tag_name@, positive),
            final(self)@.wf(),
    {
        let n = String::from_str(tag_name);
        proof {
            lemma_find_row(self@.tags, n@, 0);
        }
        let j = match self.find_tag(&n) {
            Some(j) => j,
            None => {
                return Err(StoreError::NotFound);
            },
        };
        if !self.has_play_event(play_event_id) {
            return Err(StoreError::NotFound);
        }
        if self.next_id == i64::MAX {
            return Err(StoreError::StorageUnavailable);
        }
        self.feedback.push(Feedback { id: self.next_id, play_event_id, tag_id: self.tags[j].id, positive });
        self.next_id = self.next_id + 1;
        Ok(())
    }
}

} // verus!
