//! All conversations of a program, by key.

use std::collections::hash_map::RandomState;

use dashmap::DashMap;
use vstd::prelude::*;
use vstd::string::*;

use crate::message::{Message, MessageView};
use crate::path::{join_path, join_paths};
use crate::session::{
    cleared, copy_message, new_session, opt_message, opt_save, restored, save_of, snapshot_of,
    AgentSession, ArchivePlan, ArchiveView, SaveRequest, SessionRole, SessionSnapshot, SessionView,
    SnapshotView,
};
use crate::text::chars_of;
use crate::tool::{opt_view, Environment, EnvironmentView};

verus! {

// ---------------------------------------------------------------------
// The map from keys to places
// ---------------------------------------------------------------------

/// `dashmap::DashMap`, a hash map.
#[verifier::external_type_specification]
#[verifier::external_body]
#[verifier::reject_recursive_types(K)]
#[verifier::reject_recursive_types(V)]
#[verifier::reject_recursive_types(S)]
pub struct ExDashMap<K, V, S>(DashMap<K, V, S>);

/// What a map holds.
pub uninterp spec fn slots(m: DashMap<String, usize, RandomState>) -> Map<Seq<char>, usize>;

/// `DashMap::new`: the map holds nothing.
#[verifier::external_body]
fn new_slots() -> (r: DashMap<String, usize, RandomState>)
    ensures
        slots(r).dom() == Set::<Seq<char>>::empty(),
{
    DashMap::new()
}

/// `DashMap::get`, with the number copied out: what the map holds under the
/// key, if anything.
#[verifier::external_body]
fn slot_at(m: &DashMap<String, usize, RandomState>, key: &str) -> (r: Option<usize>)
    ensures
        r == if slots(*m).dom().contains(key@) {
            Some(slots(*m)[key@])
        } else {
            None
        },
{
    m.get(key).map(|e| *e.value())
}

/// `DashMap::insert`: the map then holds the number under the key, in place
/// of what it held there, and all else as before.
#[verifier::external_body]
fn insert_slot(m: &mut DashMap<String, usize, RandomState>, key: String, slot: usize)
    ensures
        slots(*final(m)) == slots(*old(m)).insert(key@, slot),
{
    m.insert(key, slot);
}

/// `DashMap::len`: how many keys the map holds something under.
#[verifier::external_body]
fn count_slots(m: &DashMap<String, usize, RandomState>) -> (r: usize)
    ensures
        r == slots(*m).dom().len(),
{
    m.len()
}

/// The place that each key leads to. The map is private: it can be changed
/// through a shared reference.
pub struct Places {
    map: DashMap<String, usize, RandomState>,
}

impl View for Places {
    type V = Map<Seq<char>, usize>;

    closed spec fn view(&self) -> Map<Seq<char>, usize> {
        slots(self.map)
    }
}

impl Places {
    fn new() -> (r: Self)
        ensures
            r@.dom() == Set::<Seq<char>>::empty(),
    {
        Places { map: new_slots() }
    }

    /// The place of a key, if it has one.
    pub fn get(&self, key: &str) -> (r: Option<usize>)
        ensures
            r == if self@.dom().contains(key@) {
                Some(self@[key@])
            } else {
                None
            },
    {
        slot_at(&self.map, key)
    }

    fn insert(&mut self, key: &str, place: usize)
        ensures
            final(self)@ == old(self)@.insert(key@, place),
    {
        insert_slot(&mut self.map, key.to_owned(), place);
    }

    fn len(&self) -> (r: usize)
        ensures
            r == self@.dom().len(),
    {
        count_slots(&self.map)
    }
}

// ---------------------------------------------------------------------
// Times
// ---------------------------------------------------------------------

/// The stamp of a time in milliseconds since 1970, as year, month, day, a
/// `T`, hour, minute, second, milliseconds and a `Z`, in UTC. There is none
/// where the time is out of range.
pub uninterp spec fn utc_stamp(millis: i64) -> Option<Seq<char>>;

/// `chrono::DateTime::from_timestamp_millis` and `format` with
/// `%Y%m%dT%H%M%S%3fZ`. What the stamp is follows from the time alone.
#[verifier::external_body]
fn format_stamp(millis: i64) -> (r: Option<String>)
    ensures
        opt_view(r) == utc_stamp(millis),
{
    chrono::DateTime::from_timestamp_millis(millis)
        .map(|t| t.format("%Y%m%dT%H%M%S%3fZ").to_string())
}

/// The stamp that archived files bear.
pub fn archive_timestamp(now: i64) -> (r: Option<String>)
    ensures
        opt_view(r) == utc_stamp(now),
{
    format_stamp(now)
}

// ---------------------------------------------------------------------
// Names and directories
// ---------------------------------------------------------------------

/// A key as part of a file name: colons and dashes become underscores.
pub open spec fn session_id_of(key: Seq<char>) -> Seq<char> {
    Seq::new(
        key.len(),
        |i: int|
            if key[i] == ':' || key[i] == '-' {
                '_'
            } else {
                key[i]
            },
    )
}

pub fn format_session_id(key: &str) -> (r: String)
    ensures
        r@ == session_id_of(key@),
{
    let cs = chars_of(key);
    let mut out = String::new();
    let mut i: usize = 0;
    while i < cs.len()
        invariant
            cs@ == key@,
            i <= cs@.len(),
            out@ == session_id_of(key@).take(i as int),
        decreases cs.len() - i,
    {
        let ghost before = out@;
        if cs[i] == ':' || cs[i] == '-' {
            out.push('_');
        } else {
            out.push(cs[i]);
        }
        i += 1;
        assert(out@ =~= session_id_of(key@).take(i as int));
    }
    assert(session_id_of(key@).take(i as int) =~= session_id_of(key@));
    out
}

/// Where conversations are kept.
pub open spec fn sessions_dir(env: EnvironmentView) -> Seq<char> {
    match env.hermes_home {
        Some(home) => join_path(home, "sessions"@),
        None => match env.home {
            Some(home) => join_path(join_path(home, ".perry_hermes"@), "sessions"@),
            None => join_path(".perry_hermes"@, "sessions"@),
        },
    }
}

pub fn default_sessions_dir(env: &Environment) -> (r: String)
    ensures
        r@ == sessions_dir(env@),
{
    match &env.hermes_home {
        Some(home) => join_paths(home.as_str(), "sessions"),
        None => match &env.home {
            Some(home) => join_paths(
                join_paths(home.as_str(), ".perry_hermes").as_str(),
                "sessions",
            ),
            None => join_paths(".perry_hermes", "sessions"),
        },
    }
}

/// The key of a conversation that an agent starts from another one.
pub open spec fn sub_key(parent_key: Seq<char>, sub_id: Seq<char>, stamp: Seq<char>) -> Seq<char> {
    parent_key + "__sub_"@ + sub_id + "__"@ + stamp
}

pub fn sub_session_key(parent_key: &str, sub_id: &str, stamp: &str) -> (r: String)
    ensures
        r@ == sub_key(parent_key@, sub_id@, stamp@),
{
    let mut out = parent_key.to_owned();
    out.append("__sub_");
    out.append(sub_id);
    out.append("__");
    out.append(stamp);
    out
}

// ---------------------------------------------------------------------
// The registry
// ---------------------------------------------------------------------

/// A conversation, when it was made and when it was last used. Times are in
/// milliseconds since 1970.
pub struct SessionEntry {
    pub session: AgentSession,
    pub created_at: i64,
    pub last_active: i64,
}

#[verifier::ext_equal]
pub ghost struct EntryView {
    pub session: SessionView,
    pub created_at: i64,
    pub last_active: i64,
}

impl View for SessionEntry {
    type V = EntryView;

    open spec fn view(&self) -> EntryView {
        EntryView {
            session: self.session@,
            created_at: self.created_at,
            last_active: self.last_active,
        }
    }
}

impl SessionEntry {
    pub fn new(session: AgentSession, now: i64) -> (r: Self)
        ensures
            r@ == (EntryView { session: session@, created_at: now, last_active: now }),
    {
        SessionEntry { session, created_at: now, last_active: now }
    }
}

/// What was found in the file of a conversation.
pub enum StoredSession {
    Absent,
    Loaded(SessionSnapshot),
    /// A file that cannot be read. It is moved aside.
    Corrupt,
}

pub ghost enum StoredView {
    Absent,
    Loaded(SnapshotView),
    Corrupt,
}

impl View for StoredSession {
    type V = StoredView;

    open spec fn view(&self) -> StoredView {
        match self {
            StoredSession::Absent => StoredView::Absent,
            StoredSession::Loaded(s) => StoredView::Loaded(s@),
            StoredSession::Corrupt => StoredView::Corrupt,
        }
    }
}

/// Conversations by key. A key leads to a place in a list.
pub struct SessionRegistry {
    pub sessions: Places,
    pub entries: Vec<SessionEntry>,
    pub sessions_dir: String,
    pub working_dir: String,
    pub system_message: Option<Message>,
}

#[verifier::ext_equal]
pub ghost struct RegistryView {
    pub sessions: Map<Seq<char>, EntryView>,
    pub sessions_dir: Seq<char>,
    pub working_dir: Seq<char>,
    pub system_message: Option<MessageView>,
}

/// What the keys lead to.
pub open spec fn entries_of(places: Map<Seq<char>, usize>, entries: Seq<SessionEntry>) -> Map<
    Seq<char>,
    EntryView,
> {
    places.map_values(|i: usize| entries[i as int]@)
}

impl View for SessionRegistry {
    type V = RegistryView;

    open spec fn view(&self) -> RegistryView {
        RegistryView {
            sessions: entries_of(self.sessions@, self.entries@),
            sessions_dir: self.sessions_dir@,
            working_dir: self.working_dir@,
            system_message: opt_message(self.system_message),
        }
    }
}

impl RegistryView {
    /// The file of a conversation.
    pub open spec fn store_path(self, key: Seq<char>) -> Seq<char> {
        join_path(self.sessions_dir, session_id_of(key) + ".json"@)
    }

    /// Where the old files of a conversation go.
    pub open spec fn archive_dir(self, key: Seq<char>) -> Seq<char> {
        join_path(join_path(self.sessions_dir, ".archive"@), session_id_of(key))
    }

    /// A conversation that was not in use: what its file holds, or a new
    /// one.
    pub open spec fn opened(self, key: Seq<char>, stored: StoredView, now: i64) -> EntryView {
        let path = self.store_path(key);
        let session = match stored {
            StoredView::Loaded(snapshot) => restored(
                path,
                snapshot,
                Some(self.working_dir),
                self.system_message,
            ),
            _ => SessionView {
                store: Some(path),
                ..new_session(session_id_of(key), self.working_dir, self.system_message)
            },
        };
        EntryView { session, created_at: now, last_active: now }
    }

    /// The entry of a key that is asked for at a time.
    pub open spec fn reached(self, key: Seq<char>, stored: StoredView, now: i64) -> EntryView {
        if self.sessions.dom().contains(key) {
            EntryView { last_active: now, ..self.sessions[key] }
        } else {
            self.opened(key, stored, now)
        }
    }

    /// The registry with an entry under a key.
    pub open spec fn with_entry(self, key: Seq<char>, entry: EntryView) -> RegistryView {
        RegistryView { sessions: self.sessions.insert(key, entry), ..self }
    }
}

/// How the conversation of a key is archived.
pub open spec fn archive_of(reg: RegistryView, key: Seq<char>, stamp: Seq<char>) -> ArchiveView {
    let s = reg.sessions[key].session;
    let dir = reg.archive_dir(key);
    match s.store {
        None => ArchiveView::NoStore { target: join_path(dir, s.session_id + "_no-store.json"@) },
        Some(from) => ArchiveView::Move {
            dir,
            from,
            target: join_path(dir, stamp + ".json"@),
            snapshot: snapshot_of(s),
        },
    }
}

/// Where an archived conversation is found.
pub open spec fn archive_target(plan: ArchiveView) -> Seq<char> {
    match plan {
        ArchiveView::NoStore { target } => target,
        ArchiveView::Move { target, .. } => target,
    }
}

impl SessionRegistry {
    /// Every place in the list belongs to one key.
    pub open spec fn wf(&self) -> bool {
        let m = self.sessions@;
        &&& m.dom().finite()
        &&& m.dom().len() == self.entries@.len()
        &&& forall|k: Seq<char>| #[trigger]
            m.dom().contains(k) ==> (m[k] as int) < self.entries@.len()
        &&& forall|k: Seq<char>, l: Seq<char>|
            #![trigger m.dom().contains(k), m.dom().contains(l)]
            m.dom().contains(k) && m.dom().contains(l) && k != l ==> m[k] != m[l]
    }

    /// A registry without conversations. Their files are in a directory,
    /// and all of them get the same system message.
    pub fn new(sessions_dir: &str, working_dir: &str, system_message: Option<Message>) -> (r: Self)
        ensures
            r.wf(),
            r@ == (RegistryView {
                sessions: Map::empty(),
                sessions_dir: sessions_dir@,
                working_dir: working_dir@,
                system_message: opt_message(system_message),
            }),
    {
        let r = SessionRegistry {
            sessions: Places::new(),
            entries: Vec::new(),
            sessions_dir: sessions_dir.to_owned(),
            working_dir: working_dir.to_owned(),
            system_message,
        };
        assert(r@.sessions =~= Map::<Seq<char>, EntryView>::empty());
        r
    }

    /// The file of a conversation.
    pub fn store_path(&self, key: &str) -> (r: String)
        ensures
            r@ == self@.store_path(key@),
    {
        let mut name = format_session_id(key);
        name.append(".json");
        join_paths(self.sessions_dir.as_str(), name.as_str())
    }

    fn archive_dir(&self, key: &str) -> (r: String)
        ensures
            r@ == self@.archive_dir(key@),
    {
        join_paths(
            join_paths(self.sessions_dir.as_str(), ".archive").as_str(),
            format_session_id(key).as_str(),
        )
    }

    /// The file to read before `get_or_create`; none if the conversation is
    /// in use.
    pub fn pending_load(&self, key: &str) -> (r: Option<String>)
        ensures
            opt_view(r) == if self@.sessions.dom().contains(key@) {
                None
            } else {
                Some(self@.store_path(key@))
            },
    {
        assert(self@.sessions.dom() =~= self.sessions@.dom());
        match self.sessions.get(key) {
            Some(_) => None,
            None => Some(self.store_path(key)),
        }
    }

    /// The directory and the path that a file which cannot be read is moved
    /// to.
    pub fn corrupt_target(&self, key: &str, stamp: &str) -> (r: (String, String))
        ensures
            r.0@ == self@.archive_dir(key@),
            r.1@ == join_path(self@.archive_dir(key@), stamp@ + ".corrupt.json"@),
    {
        let dir = self.archive_dir(key);
        let mut name = stamp.to_owned();
        name.append(".corrupt.json");
        let target = join_paths(dir.as_str(), name.as_str());
        (dir, target)
    }

    /// The place of a conversation: the one in use, or else the one that
    /// its file holds, or a new one.
    pub fn get_or_create(&mut self, key: &str, stored: StoredSession, now: i64) -> (r: usize)
        requires
            old(self).wf(),
        ensures
            final(self).wf(),
            final(self)@ == old(self)@.with_entry(key@, old(self)@.reached(key@, stored@, now)),
            final(self).sessions@.dom().contains(key@),
            final(self).sessions@[key@] == r,
            r < final(self).entries@.len(),
            final(self).entries@[r as int]@ == final(self)@.sessions[key@],
            forall|k: Seq<char>| #[trigger]
                old(self).sessions@.dom().contains(k) ==> final(self).sessions@[k]
                    == old(self).sessions@[k],
    {
        let ghost before = self@;
        let ghost m = self.sessions@;
        let ghost list = self.entries@;
        assert(before.sessions.dom() =~= m.dom());
        match self.sessions.get(key) {
            Some(slot) => {
                assert(before.sessions[key@] == list[slot as int]@);
                self.entries[slot].last_active = now;
                let ghost entry = before.reached(key@, stored@, now);
                assert(self.entries@[slot as int]@ == entry);
                assert(self@.sessions =~= before.sessions.insert(key@, entry)) by {
                    assert forall|k: Seq<char>| m.dom().contains(k) implies self@.sessions[k]
                        == before.sessions.insert(key@, entry)[k] by {
                        if k != key@ {
                            assert(m[k] != m[key@]);
                        }
                    }
                }
                slot
            },
            None => {
                let path = self.store_path(key);
                let system_message = copy_message(&self.system_message);
                let session = match stored {
                    StoredSession::Loaded(snapshot) =>
                        AgentSession::load_json_file_with_system_message(
                        path.as_str(),
                        snapshot,
                        Some(self.working_dir.clone()),
                        system_message,
                    ),
                    _ => AgentSession::new(
                        format_session_id(key).as_str(),
                        self.working_dir.as_str(),
                        system_message,
                    ).with_json_file_store(path.as_str()),
                };
                let entry = SessionEntry::new(session, now);
                let ghost e = entry@;
                assert(e == before.reached(key@, stored@, now));
                let slot: usize = self.entries.len();
                self.entries.push(entry);
                self.sessions.insert(key, slot);
                assert(self.entries@[slot as int]@ == e);
                assert(self@.sessions =~= before.sessions.insert(key@, e)) by {
                    assert forall|k: Seq<char>| m.dom().contains(k) implies self@.sessions[k]
                        == before.sessions.insert(key@, e)[k] by {
                        assert(self.entries@[m[k] as int] == list[m[k] as int]);
                    }
                }
                slot
            },
        }
    }

    /// How to archive the conversation of a key, if it is in use.
    pub fn archive_plan(&self, key: &str, stamp: &str) -> (r: Option<ArchivePlan>)
        requires
            self.wf(),
        ensures
            match r {
                None => !self@.sessions.dom().contains(key@),
                Some(plan) => self@.sessions.dom().contains(key@) && plan@ == archive_of(
                    self@,
                    key@,
                    stamp@,
                ),
            },
    {
        assert(self@.sessions.dom() =~= self.sessions@.dom());
        let slot = match self.sessions.get(key) {
            Some(slot) => slot,
            None => {
                return None;
            },
        };
        assert(self@.sessions[key@] == self.entries@[slot as int]@);
        let dir = self.archive_dir(key);
        match self.entries[slot].session.archive_to(dir.as_str(), stamp) {
            ArchivePlan::NoStore { target } => Some(ArchivePlan::NoStore { target }),
            ArchivePlan::Move { dir, from, target: _, snapshot } => {
                let mut name = stamp.to_owned();
                name.append(".json");
                let target = join_paths(dir.as_str(), name.as_str());
                Some(ArchivePlan::Move { dir, from, target, snapshot })
            },
        }
    }

    fn clear_at(&mut self, key: &str, slot: usize)
        requires
            old(self).wf(),
            old(self).sessions@.dom().contains(key@),
            old(self).sessions@[key@] == slot,
        ensures
            final(self).wf(),
            final(self).sessions@ == old(self).sessions@,
            final(self)@ == old(self)@.with_entry(
                key@,
                EntryView {
                    session: cleared(old(self)@.sessions[key@].session),
                    ..old(self)@.sessions[key@]
                },
            ),
    {
        let ghost before = self@;
        let ghost m = self.sessions@;
        assert(before.sessions.dom() =~= m.dom());
        assert(before.sessions[key@] == self.entries@[slot as int]@);
        self.entries[slot].session.clear_in_memory_only();
        let ghost e = EntryView {
            session: cleared(before.sessions[key@].session),
            ..before.sessions[key@]
        };
        assert(self.entries@[slot as int]@ == e);
        assert(self@.sessions =~= before.sessions.insert(key@, e)) by {
            assert forall|k: Seq<char>| m.dom().contains(k) implies self@.sessions[k]
                == before.sessions.insert(key@, e)[k] by {
                if k != key@ {
                    assert(m[k] != m[key@]);
                }
            }
        }
    }

    /// What follows when the plan for archiving a conversation was carried
    /// out or failed: the path that it went to, and nothing said any more.
    pub fn archive_active(&mut self, key: &str, stamp: &str, done: bool) -> (r: Option<String>)
        requires
            old(self).wf(),
        ensures
            final(self).wf(),
            ({
                let live = old(self)@.sessions.dom().contains(key@);
                let entry = old(self)@.sessions[key@];
                &&& opt_view(r) == if live && done {
                    Some(archive_target(archive_of(old(self)@, key@, stamp@)))
                } else {
                    None
                }
                &&& final(self)@ == if live && done && entry.session.store is Some {
                    old(self)@.with_entry(
                        key@,
                        EntryView { session: cleared(entry.session), ..entry },
                    )
                } else {
                    old(self)@
                }
            }),
    {
        assert(self@.sessions.dom() =~= self.sessions@.dom());
        let plan = match self.archive_plan(key, stamp) {
            Some(plan) => plan,
            None => {
                return None;
            },
        };
        if !done {
            return None;
        }
        match plan {
            ArchivePlan::NoStore { target } => Some(target),
            ArchivePlan::Move { dir: _, from: _, target, snapshot: _ } => {
                if let Some(slot) = self.sessions.get(key) {
                    self.clear_at(key, slot);
                }
                Some(target)
            },
        }
    }

    /// Forgets what was said in a conversation, whether or not it could be
    /// archived: whether it is in use, and what to write.
    pub fn reset(&mut self, key: &str, now: i64) -> (r: (bool, Option<SaveRequest>))
        requires
            old(self).wf(),
        ensures
            final(self).wf(),
            r.0 == old(self)@.sessions.dom().contains(key@),
            ({
                let entry = old(self)@.sessions[key@];
                let session = cleared(entry.session);
                &&& r.0 ==> opt_save(r.1) == save_of(session)
                &&& !r.0 ==> r.1 is None
                &&& final(self)@ == if r.0 {
                    old(self)@.with_entry(key@, EntryView { session, last_active: now, ..entry })
                } else {
                    old(self)@
                }
            }),
    {
        let ghost before = self@;
        assert(before.sessions.dom() =~= self.sessions@.dom());
        let slot = match self.sessions.get(key) {
            Some(slot) => slot,
            None => {
                return (false, None);
            },
        };
        self.clear_at(key, slot);
        let ghost middle = self@;
        let ghost m = self.sessions@;
        assert(middle.sessions.dom() =~= m.dom());
        assert(middle.sessions[key@] == self.entries@[slot as int]@);
        self.entries[slot].last_active = now;
        let ghost e = EntryView { last_active: now, ..middle.sessions[key@] };
        assert(self.entries@[slot as int]@ == e);
        assert(self@.sessions =~= before.sessions.insert(key@, e)) by {
            assert forall|k: Seq<char>| m.dom().contains(k) implies self@.sessions[k]
                == before.sessions.insert(key@, e)[k] by {
                if k != key@ {
                    assert(m[k] != m[key@]);
                    assert(middle.sessions[k] == before.sessions[k]);
                }
            }
        }
        (true, self.entries[slot].session.persist())
    }

    /// The place of a conversation that an agent starts from another one.
    /// Its key is that of `sub_session_key`; what its file holds, if there
    /// is one, is kept, and it is marked as the sub-agent's.
    pub fn create_sub_session(
        &mut self,
        parent_key: &str,
        sub_id: &str,
        stamp: &str,
        stored: StoredSession,
        now: i64,
    ) -> (r: usize)
        requires
            old(self).wf(),
        ensures
            final(self).wf(),
            ({
                let key = sub_key(parent_key@, sub_id@, stamp@);
                let session = SessionView {
                    parent_session_id: Some(parent_key@),
                    role: SessionRole::SubAgent,
                    ..old(self)@.reached(key, stored@, now).session
                };
                let entry = EntryView { session, created_at: now, last_active: now };
                &&& final(self)@ == old(self)@.with_entry(key, entry)
                &&& final(self).sessions@.dom().contains(key)
                &&& final(self).sessions@[key] == r
                &&& r < final(self).entries@.len()
                &&& final(self).entries@[r as int]@ == entry
            }),
    {
        let ghost before = self@;
        let child_key = sub_session_key(parent_key, sub_id, stamp);
        let ghost key = child_key@;
        let slot = self.get_or_create(child_key.as_str(), stored, now);
        let ghost middle = self@;
        let ghost m = self.sessions@;
        assert(middle.sessions.dom() =~= m.dom());
        let patched = self.entries[slot].session.copy().with_subagent_identity(parent_key);
        let entry = SessionEntry::new(patched, now);
        let ghost e = entry@;
        self.entries.set(slot, entry);
        assert(self.entries@[slot as int]@ == e);
        assert(self@.sessions =~= before.sessions.insert(key, e)) by {
            assert forall|k: Seq<char>| m.dom().contains(k) implies self@.sessions[k]
                == before.sessions.insert(key, e)[k] by {
                if k != key {
                    assert(m[k] != m[key]);
                    assert(middle.sessions[k] == before.sessions[k]);
                }
            }
        }
        slot
    }

    /// The conversation of a key, if it is in use.
    pub fn get_session(&self, key: &str) -> (r: Option<&AgentSession>)
        requires
            self.wf(),
        ensures
            match r {
                Some(s) => self@.sessions.dom().contains(key@) && s@
                    == self@.sessions[key@].session,
                None => !self@.sessions.dom().contains(key@),
            },
    {
        assert(self@.sessions.dom() =~= self.sessions@.dom());
        match self.sessions.get(key) {
            Some(slot) => {
                assert(self@.sessions[key@] == self.entries@[slot as int]@);
                Some(&self.entries[slot].session)
            },
            None => None,
        }
    }

    /// How many conversations are in use.
    pub fn len(&self) -> (r: usize)
        ensures
            r == self@.sessions.dom().len(),
    {
        assert(self@.sessions.dom() =~= self.sessions@.dom());
        self.sessions.len()
    }

    pub fn is_empty(&self) -> (r: bool)
        ensures
            r == (self@.sessions.dom().len() == 0),
    {
        self.len() == 0
    }
}

// ---------------------------------------------------------------------
// Laws
// ---------------------------------------------------------------------

/// Asking for a key again gives the same conversation, whatever its file
/// holds by then: only the time of use changes.
pub proof fn law_same_key_same_session(
    reg: RegistryView,
    key: Seq<char>,
    first: StoredView,
    second: StoredView,
    now: i64,
    later: i64,
)
    ensures
        ({
            let entry = reg.reached(key, first, now);
            let again = reg.with_entry(key, entry).reached(key, second, later);
            &&& again.session == entry.session
            &&& again.created_at == entry.created_at
            &&& again.last_active == later
        }),
{
}

/// What happens under one key leaves every other key alone.
pub proof fn law_keys_are_independent(
    reg: RegistryView,
    key: Seq<char>,
    other: Seq<char>,
    entry: EntryView,
)
    requires
        key != other,
    ensures
        ({
            let next = reg.with_entry(key, entry);
            &&& next.sessions.dom().contains(other) == reg.sessions.dom().contains(other)
            &&& reg.sessions.dom().contains(other) ==> next.sessions[other] == reg.sessions[other]
            &&& next.sessions.dom().contains(key)
        }),
{
}

/// A file that cannot be read blocks nobody: the conversation begins anew,
/// as if there were no file.
pub proof fn law_corrupt_file_starts_afresh(reg: RegistryView, key: Seq<char>, now: i64)
    ensures
        reg.opened(key, StoredView::Corrupt, now) == reg.opened(key, StoredView::Absent, now),
        reg.opened(key, StoredView::Corrupt, now).session.messages.len() == 0,
{
}

/// A conversation is kept where it is looked for: what is written under a
/// key is what the key gives when the registry is made anew, with the
/// working directory and the system message of the registry.
pub proof fn law_session_is_found_again(reg: RegistryView, key: Seq<char>, s: SessionView, now: i64)
    requires
        !reg.sessions.dom().contains(key),
        s.store == Some(reg.store_path(key)),
        s.working_dir == reg.working_dir,
        reg.system_message is None || s.system_message == reg.system_message,
    ensures
        save_of(s) is Some,
        save_of(s)->0.path == reg.store_path(key),
        reg.reached(key, StoredView::Loaded(save_of(s)->0.snapshot), now).session == s,
{
    assert(reg.reached(key, StoredView::Loaded(save_of(s)->0.snapshot), now).session =~= s);
}

/// The id of a session holds no colon and no dash, is as long as the key,
/// and is its own id.
pub proof fn law_session_ids_hold_no_separators(key: Seq<char>)
    ensures
        !session_id_of(key).contains(':'),
        !session_id_of(key).contains('-'),
        session_id_of(key).len() == key.len(),
        session_id_of(session_id_of(key)) == session_id_of(key),
{
    assert(session_id_of(session_id_of(key)) =~= session_id_of(key));
}

/// A conversation that was not in use is what its file holds, with the
/// directory and the system message of the registry; without a file it is a
/// new one. Either way it is kept in the file of its key.
pub proof fn law_session_is_opened_from_its_file(
    reg: RegistryView,
    key: Seq<char>,
    snapshot: SnapshotView,
    now: i64,
)
    ensures
        ({
            let loaded = reg.opened(key, StoredView::Loaded(snapshot), now);
            let fresh = reg.opened(key, StoredView::Absent, now);
            &&& loaded.session.messages == snapshot.messages
            &&& loaded.session.session_id == snapshot.session_id
            &&& loaded.session.context_usage_baseline_tokens
                == snapshot.context_usage_baseline_tokens
            &&& loaded.session.role == snapshot.role
            &&& loaded.session.working_dir == reg.working_dir
            &&& reg.system_message is Some ==> loaded.session.system_message == reg.system_message
            &&& loaded.session.store == Some(reg.store_path(key))
            &&& fresh.session.messages.len() == 0
            &&& fresh.session.session_id == session_id_of(key)
            &&& fresh.session.working_dir == reg.working_dir
            &&& fresh.session.system_message == reg.system_message
            &&& fresh.session.store == Some(reg.store_path(key))
            &&& loaded.created_at == now && loaded.last_active == now
            &&& fresh.created_at == now && fresh.last_active == now
        }),
        reg.store_path(key) == join_path(reg.sessions_dir, session_id_of(key) + ".json"@),
{
}

/// A conversation in use is found as it is, whatever its file holds: only
/// the time of its use changes.
pub proof fn law_session_in_use_is_found(
    reg: RegistryView,
    key: Seq<char>,
    stored: StoredView,
    now: i64,
)
    requires
        reg.sessions.dom().contains(key),
    ensures
        reg.reached(key, stored, now).session == reg.sessions[key].session,
        reg.reached(key, stored, now).created_at == reg.sessions[key].created_at,
        reg.reached(key, stored, now).last_active == now,
{
}

/// An archived conversation goes, with all that was said, from its file to
/// one that bears the time, in a directory of its own below the archive.
pub proof fn law_archive_keeps_everything(reg: RegistryView, key: Seq<char>, stamp: Seq<char>)
    ensures
        ({
            let s = reg.sessions[key].session;
            let dir = join_path(join_path(reg.sessions_dir, ".archive"@), session_id_of(key));
            let plan = archive_of(reg, key, stamp);
            &&& s.store is None <==> plan is NoStore
            &&& plan matches ArchiveView::Move { dir: d, from, target, snapshot } ==> {
                &&& d == dir
                &&& s.store == Some(from)
                &&& target == join_path(dir, stamp + ".json"@)
                &&& snapshot == snapshot_of(s)
                &&& archive_target(plan) == target
            }
            &&& plan matches ArchiveView::NoStore { target } ==> archive_target(plan) == target
        }),
{
}

/// In an id every character of the key stays but colons and dashes, which
/// become underscores.
pub proof fn law_session_ids_keep_other_characters(key: Seq<char>, i: int)
    requires
        0 <= i < key.len(),
    ensures
        key[i] != ':' && key[i] != '-' ==> session_id_of(key)[i] == key[i],
        key[i] == ':' || key[i] == '-' ==> session_id_of(key)[i] == '_',
{
}

/// The key of a sub-agent's conversation starts with that of its parent and
/// holds the agent's own id; two agents of one parent have two keys.
pub proof fn law_sub_keys_differ(
    parent_key: Seq<char>,
    sub_id: Seq<char>,
    other: Seq<char>,
    stamp: Seq<char>,
)
    requires
        sub_id != other,
    ensures
        sub_key(parent_key, sub_id, stamp) != sub_key(parent_key, other, stamp),
        parent_key.is_prefix_of(sub_key(parent_key, sub_id, stamp)),
        sub_key(parent_key, sub_id, stamp) != parent_key,
{
    let a = sub_key(parent_key, sub_id, stamp);
    let b = sub_key(parent_key, other, stamp);
    assert(parent_key =~= a.take(parent_key.len() as int));
    reveal_strlit("__sub_");
    reveal_strlit("__");
    let head = (parent_key + "__sub_"@).len() as int;
    assert(a.subrange(head, head + sub_id.len()) =~= sub_id);
    assert(b.subrange(head, head + other.len()) =~= other);
    if a == b {
        assert(sub_id.len() == other.len());
    }
}

/// Conversations are kept in the agent's own directory: the one that was
/// given, or else the one below the home directory.
pub proof fn law_sessions_have_a_home(env: EnvironmentView, dir: Seq<char>)
    ensures
        env.hermes_home == Some(dir) ==> sessions_dir(env) == join_path(dir, "sessions"@),
        env.hermes_home is None && env.home == Some(dir) ==> sessions_dir(env) == join_path(
            join_path(dir, ".perry_hermes"@),
            "sessions"@,
        ),
{
}

} // verus!
