//! A conversation, and what is kept of it in a file.

use vstd::prelude::*;
use vstd::string::*;

use crate::loop_engine::events::copy_text;
use crate::loop_engine::run::{compacted_tokens, estimate_compacted, remembered};
use crate::message::{copy_messages, message_views, push_message, Message, MessageView};
use crate::path::{join_path, join_paths, parent, parent_text};
use crate::tool::opt_view;

verus! {

/// Whose conversation it is: a user's, or that of an agent which another
/// one started.
#[derive(Clone, Copy, Debug, PartialEq, Eq, Structural)]
pub enum SessionRole {
    Root,
    SubAgent,
}

impl Default for SessionRole {
    fn default() -> (r: Self)
        ensures
            r == SessionRole::Root,
    {
        SessionRole::Root
    }
}

/// What is written to a file of a conversation.
pub struct SessionSnapshot {
    pub session_id: String,
    pub working_dir: String,
    pub system_message: Option<Message>,
    pub messages: Vec<Message>,
    /// The first prompt tokens that a provider reported.
    pub context_usage_baseline_tokens: Option<u64>,
    pub parent_session_id: Option<String>,
    pub role: SessionRole,
}

#[verifier::ext_equal]
pub ghost struct SnapshotView {
    pub session_id: Seq<char>,
    pub working_dir: Seq<char>,
    pub system_message: Option<MessageView>,
    pub messages: Seq<MessageView>,
    pub context_usage_baseline_tokens: Option<u64>,
    pub parent_session_id: Option<Seq<char>>,
    pub role: SessionRole,
}

/// The view of a message that may be missing.
pub open spec fn opt_message(m: Option<Message>) -> Option<MessageView> {
    match m {
        Some(x) => Some(x@),
        None => None,
    }
}

pub fn copy_message(m: &Option<Message>) -> (r: Option<Message>)
    ensures
        opt_message(r) == opt_message(*m),
{
    match m {
        Some(x) => Some(x.copy()),
        None => None,
    }
}

fn copy_all(messages: &Vec<Message>) -> (r: Vec<Message>)
    ensures
        message_views(r@) == message_views(messages@),
{
    let r = copy_messages(messages, 0, messages.len());
    assert(message_views(messages@).subrange(0, messages@.len() as int) =~= message_views(
        messages@,
    ));
    r
}

impl View for SessionSnapshot {
    type V = SnapshotView;

    open spec fn view(&self) -> SnapshotView {
        SnapshotView {
            session_id: self.session_id@,
            working_dir: self.working_dir@,
            system_message: opt_message(self.system_message),
            messages: message_views(self.messages@),
            context_usage_baseline_tokens: self.context_usage_baseline_tokens,
            parent_session_id: opt_view(self.parent_session_id),
            role: self.role,
        }
    }
}

/// The file that a conversation is kept in.
pub struct JsonFileSessionStore {
    pub path: String,
}

impl JsonFileSessionStore {
    pub fn new(path: String) -> (r: Self)
        ensures
            r.path == path,
    {
        JsonFileSessionStore { path }
    }
}

/// What to write where: the directory is made first, if there is one.
pub struct SaveRequest {
    pub dir: Option<String>,
    pub path: String,
    pub snapshot: SessionSnapshot,
}

#[verifier::ext_equal]
pub ghost struct SaveView {
    pub dir: Option<Seq<char>>,
    pub path: Seq<char>,
    pub snapshot: SnapshotView,
}

impl View for SaveRequest {
    type V = SaveView;

    open spec fn view(&self) -> SaveView {
        SaveView { dir: opt_view(self.dir), path: self.path@, snapshot: self.snapshot@ }
    }
}

/// The view of a request that may be missing.
pub open spec fn opt_save(r: Option<SaveRequest>) -> Option<SaveView> {
    match r {
        Some(x) => Some(x@),
        None => None,
    }
}

/// A conversation.
///
/// The system message has a field of its own, so that whatever replaces
/// the log cannot lose, move or double it. The log holds the messages of
/// the user, the assistant and the tools.
pub struct AgentSession {
    pub session_id: String,
    pub working_dir: String,
    pub system_message: Option<Message>,
    pub parent_session_id: Option<String>,
    pub role: SessionRole,
    pub messages: Vec<Message>,
    /// The first prompt tokens above none that a provider reported.
    pub context_usage_baseline_tokens: Option<u64>,
    pub store: Option<JsonFileSessionStore>,
}

#[verifier::ext_equal]
pub ghost struct SessionView {
    pub session_id: Seq<char>,
    pub working_dir: Seq<char>,
    pub system_message: Option<MessageView>,
    pub parent_session_id: Option<Seq<char>>,
    pub role: SessionRole,
    pub messages: Seq<MessageView>,
    pub context_usage_baseline_tokens: Option<u64>,
    /// The path of the file, if there is one.
    pub store: Option<Seq<char>>,
}

impl View for AgentSession {
    type V = SessionView;

    open spec fn view(&self) -> SessionView {
        SessionView {
            session_id: self.session_id@,
            working_dir: self.working_dir@,
            system_message: opt_message(self.system_message),
            parent_session_id: opt_view(self.parent_session_id),
            role: self.role,
            messages: message_views(self.messages@),
            context_usage_baseline_tokens: self.context_usage_baseline_tokens,
            store: match self.store {
                Some(s) => Some(s.path@),
                None => None,
            },
        }
    }
}

/// A conversation in which nothing was said yet.
pub open spec fn new_session(
    session_id: Seq<char>,
    working_dir: Seq<char>,
    system_message: Option<MessageView>,
) -> SessionView {
    SessionView {
        session_id,
        working_dir,
        system_message,
        parent_session_id: None,
        role: SessionRole::Root,
        messages: Seq::empty(),
        context_usage_baseline_tokens: None,
        store: None,
    }
}

/// What a provider is sent: the system message, if there is one, and the
/// log.
pub open spec fn outbound(s: SessionView) -> Seq<MessageView> {
    match s.system_message {
        Some(m) => seq![m] + s.messages,
        None => s.messages,
    }
}

/// What is kept of a conversation in its file.
pub open spec fn snapshot_of(s: SessionView) -> SnapshotView {
    SnapshotView {
        session_id: s.session_id,
        working_dir: s.working_dir,
        system_message: s.system_message,
        messages: s.messages,
        context_usage_baseline_tokens: s.context_usage_baseline_tokens,
        parent_session_id: s.parent_session_id,
        role: s.role,
    }
}

/// The first of two values that is there.
pub open spec fn either<T>(a: Option<T>, b: Option<T>) -> Option<T> {
    match a {
        Some(x) => Some(x),
        None => b,
    }
}

/// The conversation that a file holds. The working directory and the system
/// message of the caller go before those of the file.
pub open spec fn restored(
    path: Seq<char>,
    snapshot: SnapshotView,
    working_dir: Option<Seq<char>>,
    system_message: Option<MessageView>,
) -> SessionView {
    SessionView {
        session_id: snapshot.session_id,
        working_dir: match working_dir {
            Some(d) => d,
            None => snapshot.working_dir,
        },
        system_message: either(system_message, snapshot.system_message),
        parent_session_id: snapshot.parent_session_id,
        role: snapshot.role,
        messages: snapshot.messages,
        context_usage_baseline_tokens: snapshot.context_usage_baseline_tokens,
        store: Some(path),
    }
}

/// What is written after a change: nothing, if there is no file.
pub open spec fn save_of(s: SessionView) -> Option<SaveView> {
    match s.store {
        Some(path) => Some(SaveView { dir: parent(path), path, snapshot: snapshot_of(s) }),
        None => None,
    }
}

/// The conversation with nothing said and no tokens counted.
pub open spec fn cleared(s: SessionView) -> SessionView {
    SessionView { messages: Seq::empty(), context_usage_baseline_tokens: None, ..s }
}

/// Where a file goes when it is archived in a directory.
pub open spec fn archive_path(dir: Seq<char>, session_id: Seq<char>, stamp: Seq<char>) -> Seq<char> {
    join_path(dir, session_id + "_"@ + stamp + ".json"@)
}

/// How to archive a conversation.
pub enum ArchivePlan {
    /// There is no file: nothing is moved. The path is where it would be.
    NoStore { target: String },
    /// The file goes from one path to another; if it is not there, the
    /// snapshot is written to the second. The directory is made first.
    Move { dir: String, from: String, target: String, snapshot: SessionSnapshot },
}

#[verifier::ext_equal]
pub ghost enum ArchiveView {
    NoStore { target: Seq<char> },
    Move { dir: Seq<char>, from: Seq<char>, target: Seq<char>, snapshot: SnapshotView },
}

impl View for ArchivePlan {
    type V = ArchiveView;

    open spec fn view(&self) -> ArchiveView {
        match self {
            ArchivePlan::NoStore { target } => ArchiveView::NoStore { target: target@ },
            ArchivePlan::Move { dir, from, target, snapshot } => ArchiveView::Move {
                dir: dir@,
                from: from@,
                target: target@,
                snapshot: snapshot@,
            },
        }
    }
}

impl AgentSession {
    /// A conversation in which nothing was said yet. The system message
    /// stays as it is for good.
    pub fn new(session_id: &str, working_dir: &str, system_message: Option<Message>) -> (r: Self)
        ensures
            r@ == new_session(session_id@, working_dir@, opt_message(system_message)),
    {
        let messages: Vec<Message> = Vec::new();
        assert(message_views(messages@) =~= Seq::<MessageView>::empty());
        AgentSession {
            session_id: session_id.to_owned(),
            working_dir: working_dir.to_owned(),
            system_message,
            parent_session_id: None,
            role: SessionRole::Root,
            messages,
            context_usage_baseline_tokens: None,
            store: None,
        }
    }

    /// The conversation, kept in a file.
    pub fn with_json_file_store(self, path: &str) -> (r: Self)
        ensures
            r@ == (SessionView { store: Some(path@), ..self@ }),
    {
        let mut s = self;
        s.store = Some(JsonFileSessionStore::new(path.to_owned()));
        s
    }

    /// The conversation, marked as that of an agent which another one
    /// started.
    pub fn with_subagent_identity(self, parent_session_id: &str) -> (r: Self)
        ensures
            r@ == (SessionView {
                parent_session_id: Some(parent_session_id@),
                role: SessionRole::SubAgent,
                ..self@
            }),
    {
        let mut s = self;
        s.parent_session_id = Some(parent_session_id.to_owned());
        s.role = SessionRole::SubAgent;
        s
    }

    /// The conversation that a file holds.
    pub fn load_json_file_with_system_message(
        path: &str,
        snapshot: SessionSnapshot,
        working_dir: Option<String>,
        system_message: Option<Message>,
    ) -> (r: Self)
        ensures
            r@ == restored(path@, snapshot@, opt_view(working_dir), opt_message(system_message)),
    {
        let working_dir = match working_dir {
            Some(d) => d,
            None => snapshot.working_dir,
        };
        let system_message = match system_message {
            Some(m) => Some(m),
            None => snapshot.system_message,
        };
        AgentSession {
            session_id: snapshot.session_id,
            working_dir,
            system_message,
            parent_session_id: snapshot.parent_session_id,
            role: snapshot.role,
            messages: snapshot.messages,
            context_usage_baseline_tokens: snapshot.context_usage_baseline_tokens,
            store: Some(JsonFileSessionStore::new(path.to_owned())),
        }
    }

    /// The same conversation once more.
    pub fn copy(&self) -> (r: Self)
        ensures
            r@ == self@,
    {
        AgentSession {
            session_id: self.session_id.clone(),
            working_dir: self.working_dir.clone(),
            system_message: copy_message(&self.system_message),
            parent_session_id: copy_text(&self.parent_session_id),
            role: self.role,
            messages: copy_all(&self.messages),
            context_usage_baseline_tokens: self.context_usage_baseline_tokens,
            store: match &self.store {
                Some(s) => Some(JsonFileSessionStore::new(s.path.clone())),
                None => None,
            },
        }
    }

    /// The log, without the system message.
    pub fn messages(&self) -> (r: Vec<Message>)
        ensures
            message_views(r@) == self@.messages,
    {
        copy_all(&self.messages)
    }

    /// What a provider is sent: the system message, if there is one, and
    /// the log.
    pub fn outbound_messages(&self) -> (r: Vec<Message>)
        ensures
            message_views(r@) == outbound(self@),
    {
        let mut out = copy_all(&self.messages);
        if let Some(m) = &self.system_message {
            let ghost log = message_views(out@);
            let first = m.copy();
            let ghost f = first@;
            out.insert(0, first);
            assert(message_views(out@) =~= seq![f] + log);
        }
        out
    }

    /// Appends a message to the log.
    pub fn append_message(&mut self, message: Message) -> (r: Option<SaveRequest>)
        ensures
            final(self)@ == (SessionView {
                messages: old(self)@.messages.push(message@),
                ..old(self)@
            }),
            opt_save(r) == save_of(final(self)@),
    {
        push_message(&mut self.messages, message);
        self.persist()
    }

    /// Puts another log in place of the one there is.
    pub fn replace_messages(&mut self, messages: Vec<Message>) -> (r: Option<SaveRequest>)
        ensures
            final(self)@ == (SessionView { messages: message_views(messages@), ..old(self)@ }),
            opt_save(r) == save_of(final(self)@),
    {
        self.messages = messages;
        self.persist()
    }

    /// Forgets the log and the tokens, but writes nothing: the file has
    /// been moved away and must not come back.
    pub fn clear_in_memory_only(&mut self)
        ensures
            final(self)@ == cleared(old(self)@),
    {
        self.messages = Vec::new();
        assert(message_views(self.messages@) =~= Seq::<MessageView>::empty());
        self.reset_token_facts();
    }

    /// Forgets the log and the tokens. The system message stays.
    pub fn reset(&mut self) -> (r: Option<SaveRequest>)
        ensures
            final(self)@ == cleared(old(self)@),
            opt_save(r) == save_of(final(self)@),
    {
        self.clear_in_memory_only();
        self.persist()
    }

    /// Keeps the first prompt tokens above none that a provider reports.
    pub fn remember_context_usage_baseline(&mut self, tokens: u64) -> (r: Option<SaveRequest>)
        ensures
            final(self)@ == (SessionView {
                context_usage_baseline_tokens: remembered(
                    old(self)@.context_usage_baseline_tokens,
                    tokens,
                ),
                ..old(self)@
            }),
            opt_save(r) == if tokens == 0 {
                None
            } else {
                save_of(final(self)@)
            },
    {
        if tokens == 0 {
            return None;
        }
        if self.context_usage_baseline_tokens.is_none() {
            self.context_usage_baseline_tokens = Some(tokens);
        }
        self.persist()
    }

    /// The best guess at the prompt tokens after a compaction.
    pub fn compacted_context_tokens(&self, summary_output_tokens: u64) -> (r: Option<u64>)
        ensures
            r == compacted_tokens(self@.context_usage_baseline_tokens, summary_output_tokens),
    {
        estimate_compacted(self.context_usage_baseline_tokens, summary_output_tokens)
    }

    /// Forgets the tokens.
    pub fn reset_token_facts(&mut self)
        ensures
            final(self)@ == (SessionView { context_usage_baseline_tokens: None, ..old(self)@ }),
    {
        self.context_usage_baseline_tokens = None;
    }

    /// What to write, if the conversation is kept in a file.
    pub fn persist(&self) -> (r: Option<SaveRequest>)
        ensures
            opt_save(r) == save_of(self@),
    {
        match &self.store {
            Some(s) => Some(
                SaveRequest {
                    dir: parent_text(s.path.as_str()),
                    path: s.path.clone(),
                    snapshot: self.snapshot(),
                },
            ),
            None => None,
        }
    }

    /// How to archive the conversation in a directory, at a time. When that
    /// is done, `clear_in_memory_only` follows, unless there is no file.
    pub fn archive_to(&self, dir: &str, stamp: &str) -> (r: ArchivePlan)
        ensures
            r@ == match self@.store {
                None => ArchiveView::NoStore {
                    target: join_path(dir@, self@.session_id + "_no-store.json"@),
                },
                Some(from) => ArchiveView::Move {
                    dir: dir@,
                    from,
                    target: archive_path(dir@, self@.session_id, stamp@),
                    snapshot: snapshot_of(self@),
                },
            },
    {
        let mut name = self.session_id.clone();
        match &self.store {
            None => {
                name.append("_no-store.json");
                ArchivePlan::NoStore { target: join_paths(dir, name.as_str()) }
            },
            Some(s) => {
                name.append("_");
                name.append(stamp);
                name.append(".json");
                ArchivePlan::Move {
                    dir: dir.to_owned(),
                    from: s.path.clone(),
                    target: join_paths(dir, name.as_str()),
                    snapshot: self.snapshot(),
                }
            },
        }
    }

    /// What is kept of the conversation in its file.
    pub fn snapshot(&self) -> (r: SessionSnapshot)
        ensures
            r@ == snapshot_of(self@),
    {
        SessionSnapshot {
            session_id: self.session_id.clone(),
            working_dir: self.working_dir.clone(),
            system_message: copy_message(&self.system_message),
            messages: copy_all(&self.messages),
            context_usage_baseline_tokens: self.context_usage_baseline_tokens,
            parent_session_id: copy_text(&self.parent_session_id),
            role: self.role,
        }
    }
}

// ---------------------------------------------------------------------
// Laws
// ---------------------------------------------------------------------

/// A conversation that is read back from its own file is the one that was
/// written.
pub proof fn law_file_gives_session_back(s: SessionView)
    requires
        s.store is Some,
    ensures
        restored(s.store->0, snapshot_of(s), None, None) == s,
{
    assert(restored(s.store->0, snapshot_of(s), None, None) =~= s);
}

/// A conversation that is read back in another directory keeps its log, its
/// tokens and its identity; it takes the system message of the caller, or
/// else its own.
pub proof fn law_reading_back_keeps_the_log(
    s: SessionView,
    path: Seq<char>,
    working_dir: Seq<char>,
    system_message: Option<MessageView>,
)
    ensures
        ({
            let r = restored(path, snapshot_of(s), Some(working_dir), system_message);
            &&& r.messages == s.messages
            &&& r.context_usage_baseline_tokens == s.context_usage_baseline_tokens
            &&& r.session_id == s.session_id
            &&& r.parent_session_id == s.parent_session_id
            &&& r.role == s.role
            &&& r.working_dir == working_dir
            &&& r.system_message == either(system_message, s.system_message)
        }),
{
}

/// The system message, if there is one, stays at the head of what is sent,
/// whatever log takes the place of the one there was, and a reset leaves it
/// alone.
pub proof fn law_system_message_stays(s: SessionView, log: Seq<MessageView>)
    requires
        s.system_message is Some,
    ensures
        outbound(SessionView { messages: log, ..s })[0] == s.system_message->0,
        outbound(SessionView { messages: log, ..s }).skip(1) == log,
        outbound(cleared(s)) == seq![s.system_message->0],
{
    assert(outbound(SessionView { messages: log, ..s }).skip(1) =~= log);
    assert(outbound(cleared(s)) =~= seq![s.system_message->0]);
}

/// Only the first tokens above none are kept.
pub proof fn law_first_tokens_stay(baseline: Option<u64>, first: u64, second: u64)
    requires
        first > 0,
    ensures
        remembered(remembered(baseline, first), second) == remembered(baseline, first),
        remembered(baseline, 0) == baseline,
{
}

/// A new conversation holds nothing yet and is an agent's own; what is sent
/// is its system message alone.
pub proof fn law_new_session_is_empty(
    id: Seq<char>,
    dir: Seq<char>,
    system_message: Option<MessageView>,
)
    ensures
        ({
            let s = new_session(id, dir, system_message);
            &&& s.session_id == id
            &&& s.working_dir == dir
            &&& s.system_message == system_message
            &&& s.messages.len() == 0
            &&& s.parent_session_id is None
            &&& s.role == SessionRole::Root
            &&& s.context_usage_baseline_tokens is None
            &&& s.store is None
            &&& system_message is None ==> outbound(s).len() == 0
            &&& system_message matches Some(m) ==> outbound(s) == seq![m]
        }),
{
    if let Some(m) = system_message {
        assert(outbound(new_session(id, dir, system_message)) =~= seq![m]);
    }
}

/// What is sent is the whole log, in order, behind the system message if
/// there is one.
pub proof fn law_whole_log_is_sent(s: SessionView, i: int)
    ensures
        s.system_message is None ==> outbound(s) == s.messages,
        s.system_message is Some ==> outbound(s).len() == s.messages.len() + 1,
        s.system_message is Some && 0 <= i < s.messages.len() ==> outbound(s)[i + 1]
            == s.messages[i],
{
}

/// A conversation is written just if it has a file, to that file, with all
/// that was said and all that is known of it; the directory of the file is
/// made first.
pub proof fn law_everything_is_written(s: SessionView)
    ensures
        s.store is None <==> save_of(s) is None,
        save_of(s) matches Some(w) ==> {
            &&& s.store == Some(w.path)
            &&& w.dir == parent(w.path)
            &&& w.snapshot.messages == s.messages
            &&& w.snapshot.session_id == s.session_id
            &&& w.snapshot.working_dir == s.working_dir
            &&& w.snapshot.system_message == s.system_message
            &&& w.snapshot.context_usage_baseline_tokens == s.context_usage_baseline_tokens
            &&& w.snapshot.parent_session_id == s.parent_session_id
            &&& w.snapshot.role == s.role
        },
{
}

/// Clearing forgets what was said and the tokens, and nothing else.
pub proof fn law_clearing_keeps_the_identity(s: SessionView)
    ensures
        cleared(s).messages.len() == 0,
        cleared(s).context_usage_baseline_tokens is None,
        cleared(s).session_id == s.session_id,
        cleared(s).working_dir == s.working_dir,
        cleared(s).system_message == s.system_message,
        cleared(s).parent_session_id == s.parent_session_id,
        cleared(s).role == s.role,
        cleared(s).store == s.store,
{
}

/// Archives of one conversation at two times, or of two at one time, have
/// paths of their own.
pub proof fn law_archives_do_not_collide(
    dir: Seq<char>,
    id: Seq<char>,
    stamp: Seq<char>,
    other: Seq<char>,
)
    requires
        stamp != other,
        id.len() > 0,
        id[0] != '/',
    ensures
        archive_path(dir, id, stamp) != archive_path(dir, id, other),
        dir.is_prefix_of(archive_path(dir, id, stamp)),
{
    let a = id + "_"@ + stamp + ".json"@;
    let b = id + "_"@ + other + ".json"@;
    crate::path::law_joined_path(dir, a);
    crate::path::law_joined_path(dir, b);
    let head = (id + "_"@).len() as int;
    assert(a.subrange(head, head + stamp.len()) =~= stamp);
    if archive_path(dir, id, stamp) == archive_path(dir, id, other) {
        let skip = archive_path(dir, id, stamp).len() - a.len();
        assert(archive_path(dir, id, stamp).skip(skip) =~= a);
        assert(archive_path(dir, id, other).skip(skip) =~= b) by {
            assert(archive_path(dir, id, other).len() - b.len() == skip);
        }
        assert(stamp.len() == other.len());
        assert(b.subrange(head, head + other.len()) =~= other);
    }
}

/// The first prompt tokens above none are the ones that are kept.
pub proof fn law_first_report_is_kept(tokens: u64, first: u64)
    ensures
        tokens > 0 ==> remembered(None, tokens) == Some(tokens),
        remembered(None, 0) is None,
        remembered(Some(first), tokens) == Some(first),
{
}

} // verus!
