//! The shared conversational state threaded through a pipeline run: message
//! history, tracked files, environment, and a metadata bag used for
//! cross-step signalling.

use vstd::prelude::*;
use vstd::string::*;
use crate::strmap::{StrMap, map_from_kv, kv_unique, lemma_map_from_kv_contains,
    lemma_map_from_kv_index, lemma_map_from_kv_update, lemma_map_from_kv_remove};
use crate::strutil::{str_eq, contains_str, contains_sub, count_words, word_count, sat_add_spec,
    sat_add, dec_str, usize_to_string};
use crate::clock::now_millis;
use crate::providers::{Message, MsgView, Response};

verus! {

/// The mathematical content of a [`StepRecord`].
pub struct RecordView {
    pub content: Seq<char>,
    pub metadata: Map<Seq<char>, Seq<char>>,
    pub timestamp: u64,
}

/// One entry of the accumulated step-result log.
#[derive(Debug)]
pub struct StepRecord {
    pub content: String,
    pub metadata: StrMap,
    pub timestamp: u64,
}

impl View for StepRecord {
    type V = RecordView;

    open spec fn view(&self) -> RecordView {
        RecordView { content: self.content@, metadata: self.metadata@, timestamp: self.timestamp }
    }
}

impl DeepView for StepRecord {
    type V = RecordView;

    open spec fn deep_view(&self) -> RecordView {
        self.view()
    }
}

impl Clone for StepRecord {
    fn clone(&self) -> (r: Self)
        ensures
            r@ == self@,
    {
        StepRecord {
            content: self.content.clone(),
            metadata: self.metadata.clone(),
            timestamp: self.timestamp,
        }
    }
}

/// The mathematical content of a [`MetaValue`].
pub enum MetaVal {
    Null,
    Text(Seq<char>),
    Records(Seq<RecordView>),
}

/// A context metadata value: absent-by-intent, plain text, or the accumulated
/// step-result log.
#[derive(Debug)]
pub enum MetaValue {
    Null,
    Text(String),
    Records(Vec<StepRecord>),
}

impl View for MetaValue {
    type V = MetaVal;

    open spec fn view(&self) -> MetaVal {
        match self {
            MetaValue::Null => MetaVal::Null,
            MetaValue::Text(s) => MetaVal::Text(s@),
            MetaValue::Records(v) => MetaVal::Records(v.deep_view()),
        }
    }
}

impl DeepView for MetaValue {
    type V = MetaVal;

    open spec fn deep_view(&self) -> MetaVal {
        self.view()
    }
}

impl Clone for MetaValue {
    fn clone(&self) -> (r: Self)
        ensures
            r@ == self@,
    {
        match self {
            MetaValue::Null => MetaValue::Null,
            MetaValue::Text(s) => MetaValue::Text(s.clone()),
            MetaValue::Records(v) => {
                let n = v.len();
                let mut out: Vec<StepRecord> = Vec::new();
                let mut i: usize = 0;
                while i < n
                    invariant
                        i <= n,
                        n == v.len(),
                        out@.len() == i,
                        forall|j: int| 0 <= j < i ==> (#[trigger] out@[j])@ == v@[j]@,
                    decreases n - i,
                {
                    out.push(v[i].clone());
                    i = i + 1;
                }
                proof {
                    assert(out.deep_view() =~= v.deep_view());
                }
                MetaValue::Records(out)
            },
        }
    }
}

/// A string-to-[`MetaValue`] map stored as an association list with unique keys.
#[derive(Debug)]
pub struct MetaMap {
    entries: Vec<(String, MetaValue)>,
}

impl View for MetaMap {
    type V = Map<Seq<char>, MetaVal>;

    open spec fn view(&self) -> Map<Seq<char>, MetaVal> {
        map_from_kv(self.kv())
    }
}

impl MetaMap {
    /// The entries in insertion order, as views.
    pub closed spec fn kv(&self) -> Seq<(Seq<char>, MetaVal)> {
        self.entries@.map(|i: int, e: (String, MetaValue)| (e.0@, e.1@))
    }

    /// Keys are unique in the entry list; every reachable value satisfies this.
    #[verifier::type_invariant]
    pub open spec fn wf(&self) -> bool {
        kv_unique(self.kv())
    }

    pub fn new() -> (r: Self)
        ensures
            r@ == Map::<Seq<char>, MetaVal>::empty(),
            r.kv() == Seq::<(Seq<char>, MetaVal)>::empty(),
    {
        let r = MetaMap { entries: Vec::new() };
        proof {
            assert(r.kv() =~= Seq::<(Seq<char>, MetaVal)>::empty());
        }
        r
    }

    pub fn len(&self) -> (r: usize)
        ensures
            r == self.kv().len(),
    {
        self.entries.len()
    }

    fn position(&self, key: &str) -> (r: Option<usize>)
        ensures
            match r {
                Some(i) => i < self.kv().len() && self.kv()[i as int].0 == key@,
                None => forall|i: int|
                    0 <= i < self.kv().len() ==> (#[trigger] self.kv()[i]).0 != key@,
            },
    {
        let n = self.entries.len();
        let mut i: usize = 0;
        while i < n
            invariant
                i <= n,
                n == self.kv().len(),
                n == self.entries.len(),
                forall|j: int| 0 <= j < i ==> (#[trigger] self.kv()[j]).0 != key@,
            decreases n - i,
        {
            if str_eq(self.entries[i].0.as_str(), key) {
                return Some(i);
            }
            i = i + 1;
        }
        None
    }

    pub fn contains_key(&self, key: &str) -> (r: bool)
        ensures
            r == self@.contains_key(key@),
    {
        proof {
            lemma_map_from_kv_contains(self.kv(), key@);
        }
        match self.position(key) {
            Some(_) => true,
            None => false,
        }
    }

    pub fn get(&self, key: &str) -> (r: Option<&MetaValue>)
        ensures
            match r {
                Some(v) => self@.contains_key(key@) && v@ == self@[key@],
                None => !self@.contains_key(key@),
            },
    {
        proof {
            use_type_invariant(self);
            lemma_map_from_kv_contains(self.kv(), key@);
        }
        match self.position(key) {
            Some(i) => {
                proof {
                    lemma_map_from_kv_index(self.kv(), i as int);
                }
                Some(&self.entries[i].1)
            },
            None => None,
        }
    }

    /// Bind `key` to `value`, replacing any previous binding.
    pub fn insert(&mut self, key: String, value: MetaValue)
        ensures
            final(self)@ == old(self)@.insert(key@, value@),
    {
        proof {
            use_type_invariant(&*self);
            lemma_map_from_kv_contains(self.kv(), key@);
        }
        let ghost old_kv = self.kv();
        let ghost value_view = value@;
        let pos = self.position(key.as_str());
        let mut entries: Vec<(String, MetaValue)> = Vec::new();
        core::mem::swap(&mut self.entries, &mut entries);
        proof {
            assert(self.kv() =~= Seq::<(Seq<char>, MetaVal)>::empty());
        }
        match pos {
            Some(i) => {
                proof {
                    lemma_map_from_kv_update(old_kv, i as int, value_view);
                }
                entries.set(i, (key, value));
                proof {
                    let new_kv = entries@.map(|j: int, e: (String, MetaValue)| (e.0@, e.1@));
                    assert(new_kv =~= old_kv.update(i as int, (old_kv[i as int].0, value_view)));
                }
            },
            None => {
                entries.push((key, value));
                proof {
                    let new_kv = entries@.map(|j: int, e: (String, MetaValue)| (e.0@, e.1@));
                    assert(new_kv =~= old_kv.push((key@, value_view)));
                    assert(new_kv.drop_last() =~= old_kv);
                }
            },
        }
        self.entries = entries;
    }

    /// Remove the binding for `key`, if any.
    pub fn remove(&mut self, key: &str)
        ensures
            final(self)@ == old(self)@.remove(key@),
    {
        proof {
            use_type_invariant(&*self);
            lemma_map_from_kv_contains(self.kv(), key@);
        }
        let ghost old_kv = self.kv();
        let pos = self.position(key);
        match pos {
            Some(i) => {
                let mut entries: Vec<(String, MetaValue)> = Vec::new();
                core::mem::swap(&mut self.entries, &mut entries);
                proof {
                    assert(self.kv() =~= Seq::<(Seq<char>, MetaVal)>::empty());
                    lemma_map_from_kv_remove(old_kv, i as int);
                }
                entries.remove(i);
                proof {
                    let new_kv = entries@.map(|j: int, e: (String, MetaValue)| (e.0@, e.1@));
                    assert(new_kv =~= old_kv.remove(i as int));
                }
                self.entries = entries;
            },
            None => {
                proof {
                    assert(!old(self)@.contains_key(key@));
                    assert(old(self)@.remove(key@) =~= old(self)@);
                }
            },
        }
    }

    /// The key of the entry at position `i`.
    pub fn key_at(&self, i: usize) -> (r: &String)
        requires
            i < self.kv().len(),
        ensures
            r@ == self.kv()[i as int].0,
    {
        &self.entries[i].0
    }

    /// The value of the entry at position `i`.
    pub fn value_at(&self, i: usize) -> (r: &MetaValue)
        requires
            i < self.kv().len(),
        ensures
            r@ == self.kv()[i as int].1,
    {
        &self.entries[i].1
    }
}

impl Clone for MetaMap {
    fn clone(&self) -> (r: Self)
        ensures
            r.kv() == self.kv(),
            r@ == self@,
    {
        proof {
            use_type_invariant(self);
        }
        let n = self.entries.len();
        let mut entries: Vec<(String, MetaValue)> = Vec::new();
        let mut i: usize = 0;
        while i < n
            invariant
                i <= n,
                n == self.entries.len(),
                entries@.len() == i,
                forall|j: int|
                    0 <= j < i ==> (#[trigger] entries@[j]).0@ == self.kv()[j].0 && entries@[j].1@
                        == self.kv()[j].1,
            decreases n - i,
        {
            let k = self.entries[i].0.clone();
            let v = self.entries[i].1.clone();
            entries.push((k, v));
            i = i + 1;
        }
        let r = MetaMap { entries };
        proof {
            assert(r.kv() =~= self.kv());
        }
        r
    }
}

/// No path occurs twice.
pub open spec fn files_unique(files: Seq<Seq<char>>) -> bool {
    forall|i: int, j: int| 0 <= i < j < files.len() ==> files[i] != files[j]
}

/// The path `k` is one of the tracked files.
pub open spec fn file_listed(files: Seq<Seq<char>>, k: Seq<char>) -> bool {
    exists|i: int| 0 <= i < files.len() && files[i] == k
}

/// Appending a path that is not yet listed keeps the paths unique and keeps
/// every listed path listed.
pub proof fn lemma_files_push(f: Seq<Seq<char>>, path: Seq<char>)
    requires
        files_unique(f),
        !file_listed(f, path),
    ensures
        files_unique(f.push(path)),
        forall|k: Seq<char>| #[trigger] file_listed(f, k) ==> file_listed(f.push(path), k),
        file_listed(f.push(path), path),
{
    let g = f.push(path);
    assert forall|i: int, j: int| 0 <= i < j < g.len() implies g[i] != g[j] by {
        if j == g.len() - 1 {
            assert(g[i] == f[i]);
            if g[i] == path {
                assert(file_listed(f, path));
            }
        } else {
            assert(g[i] == f[i] && g[j] == f[j]);
        }
    }
    assert forall|k: Seq<char>| #[trigger] file_listed(f, k) implies file_listed(g, k) by {
        let i = choose|i: int| 0 <= i < f.len() && f[i] == k;
        assert(g[i] == k);
    }
    assert(g[g.len() - 1] == path);
}

/// Conversation state shared across a whole pipeline run.
#[derive(Debug)]
pub struct Context {
    /// Chronological message log; append-only except for explicit truncation.
    pub conversation_history: Vec<Message>,
    /// Tracked file paths, without duplicates.
    pub current_files: Vec<String>,
    /// Provider-agnostic key/value bag, e.g. inherited shell variables.
    pub environment: StrMap,
    /// Cross-step signalling: last response, step-result log, scoping markers.
    pub metadata: MetaMap,
    /// Cached text for a subset of the tracked files.
    pub file_contents: StrMap,
    /// Append-only log of derived filtering views.
    pub scopes: Vec<String>,
    /// Clock reading at creation, in milliseconds.
    pub created_at: u64,
    /// Clock reading at the last mutation, in milliseconds.
    pub last_updated: u64,
}

impl Context {
    /// Structural validity: tracked files are unique and every cached file
    /// content belongs to a tracked file.
    pub open spec fn wf(&self) -> bool {
        &&& files_unique(self.current_files.deep_view())
        &&& forall|k: Seq<char>|
            self.file_contents@.contains_key(k) ==> file_listed(self.current_files.deep_view(), k)
    }

    /// A fresh empty context stamped with the current clock.
    pub fn new() -> (r: Self)
        ensures
            r.wf(),
            r.conversation_history@.len() == 0,
            r.current_files@.len() == 0,
            r.environment@ == Map::<Seq<char>, Seq<char>>::empty(),
            r.environment.kv() == Seq::<(Seq<char>, Seq<char>)>::empty(),
            r.metadata@ == Map::<Seq<char>, MetaVal>::empty(),
            r.metadata.kv() == Seq::<(Seq<char>, MetaVal)>::empty(),
            r.file_contents@ == Map::<Seq<char>, Seq<char>>::empty(),
            r.scopes@.len() == 0,
            r.created_at == r.last_updated,
    {
        let now = now_millis();
        Context {
            conversation_history: Vec::new(),
            current_files: Vec::new(),
            environment: StrMap::new(),
            metadata: MetaMap::new(),
            file_contents: StrMap::new(),
            scopes: Vec::new(),
            created_at: now,
            last_updated: now,
        }
    }

    fn update_timestamp(&mut self)
        ensures
            *final(self) == (Context { last_updated: final(self).last_updated, ..*old(self) }),
    {
        self.last_updated = now_millis();
    }

    /// Append a message to the history and refresh the timestamp.
    pub fn add_message(&mut self, message: Message)
        ensures
            final(self).conversation_history@ == old(self).conversation_history@.push(message),
            final(self).current_files == old(self).current_files,
            final(self).environment == old(self).environment,
            final(self).metadata == old(self).metadata,
            final(self).file_contents == old(self).file_contents,
            final(self).scopes == old(self).scopes,
            final(self).created_at == old(self).created_at,
            old(self).wf() ==> final(self).wf(),
    {
        self.conversation_history.push(message);
        self.update_timestamp();
    }

    /// Track a file path; a path already tracked is not added again.
    pub fn add_file(&mut self, path: &str)
        ensures
            file_listed(old(self).current_files.deep_view(), path@) ==> final(self).current_files
                == old(self).current_files && final(self).last_updated == old(self).last_updated,
            !file_listed(old(self).current_files.deep_view(), path@) ==> final(self).current_files.deep_view() == old(self).current_files.deep_view().push(path@),
            final(self).conversation_history == old(self).conversation_history,
            final(self).environment == old(self).environment,
            final(self).metadata == old(self).metadata,
            final(self).file_contents == old(self).file_contents,
            final(self).scopes == old(self).scopes,
            final(self).created_at == old(self).created_at,
            old(self).wf() ==> final(self).wf(),
    {
        if !self.tracks_file(path) {
            self.current_files.push(String::from_str(path));
            proof {
                let oldf = old(self).current_files.deep_view();
                assert(self.current_files.deep_view() =~= oldf.push(path@));
                if old(self).wf() {
                    lemma_files_push(oldf, path@);
                    assert forall|k: Seq<char>| self.file_contents@.contains_key(k)
                        implies file_listed(self.current_files.deep_view(), k) by {
                        assert(file_listed(oldf, k));
                    }
                }
            }
            self.update_timestamp();
        }
    }

    /// Whether `path` is among the tracked files.
    fn tracks_file(&self, path: &str) -> (r: bool)
        ensures
            r == file_listed(self.current_files.deep_view(), path@),
    {
        let n = self.current_files.len();
        let mut i: usize = 0;
        while i < n
            invariant
                i <= n,
                n == self.current_files@.len(),
                forall|j: int| 0 <= j < i ==> self.current_files.deep_view()[j] != path@,
            decreases n - i,
        {
            if str_eq(self.current_files[i].as_str(), path) {
                proof {
                    assert(self.current_files.deep_view()[i as int] == path@);
                }
                return true;
            }
            i = i + 1;
        }
        false
    }

    /// Drop history beyond `limit` messages, keeping the oldest.
    pub fn truncate_to_limit(&mut self, limit: usize)
        ensures
            old(self).conversation_history@.len() > limit ==> final(self).conversation_history@
                == old(self).conversation_history@.take(limit as int),
            old(self).conversation_history@.len() <= limit ==> final(self).conversation_history
                == old(self).conversation_history,
            final(self).current_files == old(self).current_files,
            final(self).environment == old(self).environment,
            final(self).metadata == old(self).metadata,
            final(self).file_contents == old(self).file_contents,
            final(self).scopes == old(self).scopes,
            final(self).created_at == old(self).created_at,
            final(self).last_updated == old(self).last_updated,
            old(self).wf() ==> final(self).wf(),
    {
        if self.conversation_history.len() > limit {
            self.conversation_history.truncate(limit);
        }
    }

    /// Drop expired data. Expiry is not tracked yet, so nothing changes.
    pub fn cleanup_expired(&mut self, _max_age_secs: u64)
        ensures
            *final(self) == *old(self),
    {
    }

    /// A copy of this context to use for a scoped sub-execution.
    pub fn create_scoped(&self, _scope_name: &str) -> (r: Context)
        ensures
            r.conversation_history.deep_view() == self.conversation_history.deep_view(),
            r.current_files.deep_view() == self.current_files.deep_view(),
            r.environment@ == self.environment@,
            r.environment.kv() == self.environment.kv(),
            r.metadata@ == self.metadata@,
            r.metadata.kv() == self.metadata.kv(),
            r.file_contents@ == self.file_contents@,
            r.file_contents.kv() == self.file_contents.kv(),
            r.scopes.deep_view() == self.scopes.deep_view(),
            r.created_at == self.created_at,
            r.last_updated == self.last_updated,
            self.wf() ==> r.wf(),
    {
        self.clone()
    }

    /// Track a file and cache its content.
    pub fn add_file_with_content(&mut self, path: &str, content: &str)
        ensures
            file_listed(old(self).current_files.deep_view(), path@) ==> final(self).current_files
                == old(self).current_files,
            !file_listed(old(self).current_files.deep_view(), path@) ==> final(self).current_files.deep_view() == old(self).current_files.deep_view().push(path@),
            final(self).file_contents@ == old(self).file_contents@.insert(path@, content@),
            final(self).conversation_history == old(self).conversation_history,
            final(self).environment == old(self).environment,
            final(self).metadata == old(self).metadata,
            final(self).scopes == old(self).scopes,
            final(self).created_at == old(self).created_at,
            old(self).wf() ==> final(self).wf(),
    {
        self.add_file(path);
        self.file_contents.insert(String::from_str(path), String::from_str(content));
        proof {
            if old(self).wf() {
                let oldf = old(self).current_files.deep_view();
                let newf = self.current_files.deep_view();
                assert forall|k: Seq<char>| self.file_contents@.contains_key(k)
                    implies file_listed(newf, k) by {
                    if k == path@ {
                        if file_listed(oldf, path@) {
                            let i = choose|i: int| 0 <= i < oldf.len() && oldf[i] == path@;
                            assert(newf[i] == path@);
                        } else {
                            assert(newf[newf.len() - 1] == path@);
                        }
                    } else {
                        assert(old(self).file_contents@.contains_key(k));
                        assert(file_listed(oldf, k));
                        let i = choose|i: int| 0 <= i < oldf.len() && oldf[i] == k;
                        assert(newf[i] == k);
                    }
                }
            }
        }
    }

    /// The cached content for a tracked file, if loaded.
    pub fn get_file_content(&self, path: &str) -> (r: Option<&String>)
        ensures
            match r {
                Some(v) => self.file_contents@.contains_key(path@) && v@
                    == self.file_contents@[path@],
                None => !self.file_contents@.contains_key(path@),
            },
    {
        self.file_contents.get(path)
    }
}

impl Clone for Context {
    fn clone(&self) -> (r: Self)
        ensures
            r.conversation_history@ == self.conversation_history@,
            r.current_files@ == self.current_files@,
            r.scopes@ == self.scopes@,
            r.conversation_history.deep_view() == self.conversation_history.deep_view(),
            r.current_files.deep_view() == self.current_files.deep_view(),
            r.environment@ == self.environment@,
            r.environment.kv() == self.environment.kv(),
            r.metadata@ == self.metadata@,
            r.metadata.kv() == self.metadata.kv(),
            r.file_contents@ == self.file_contents@,
            r.file_contents.kv() == self.file_contents.kv(),
            r.scopes.deep_view() == self.scopes.deep_view(),
            r.created_at == self.created_at,
            r.last_updated == self.last_updated,
            self.wf() ==> r.wf(),
    {
        let r = Context {
            conversation_history: self.conversation_history.clone(),
            current_files: self.current_files.clone(),
            environment: self.environment.clone(),
            metadata: self.metadata.clone(),
            file_contents: self.file_contents.clone(),
            scopes: self.scopes.clone(),
            created_at: self.created_at,
            last_updated: self.last_updated,
        };
        proof {
            assert(r.conversation_history@ =~= self.conversation_history@);
            assert(r.current_files@ =~= self.current_files@);
            assert(r.scopes@ =~= self.scopes@);
            assert(r.conversation_history.deep_view() =~= self.conversation_history.deep_view());
            assert(r.current_files.deep_view() =~= self.current_files.deep_view());
            assert(r.scopes.deep_view() =~= self.scopes.deep_view());
        }
        r
    }
}

/// What kind of structural fault a context validation reports.
#[derive(Clone, Copy, PartialEq, Eq, Structural, Debug)]
pub enum ContextErrorKind {
    /// A tracked file path is empty.
    EmptyFilePath,
    /// A tracked file path contains a parent-directory marker.
    UnsafeFilePath,
    /// The reserved metadata key holds a null.
    NullMetadata,
    /// A string metadata value exceeds 10,000 characters.
    OversizedMetadata,
    /// The conversation history exceeds 1,000 messages.
    HistoryTooLong,
    /// An environment variable has an empty key.
    EmptyEnvironmentKey,
    /// An environment variable value exceeds 1,000 characters.
    OversizedEnvironmentValue,
    /// A cached file content exceeds 100,000 characters.
    OversizedFileContent,
}

/// The first structural fault a context validation reports: its kind, and the
/// path, key or count it concerns.
#[derive(Debug)]
pub struct ContextError {
    pub kind: ContextErrorKind,
    pub subject: String,
}

/// The text of a validation fault over its kind and subject.
pub open spec fn context_error_text(kind: ContextErrorKind, subject: Seq<char>) -> Seq<char> {
    match kind {
        ContextErrorKind::EmptyFilePath => "Empty file path found in current_files"@,
        ContextErrorKind::UnsafeFilePath => "Potentially unsafe file path: "@ + subject,
        ContextErrorKind::NullMetadata => "Invalid null value for key: "@ + subject,
        ContextErrorKind::OversizedMetadata => "Metadata value too large for key: "@ + subject,
        ContextErrorKind::HistoryTooLong => "Conversation history too long: "@ + subject
            + " messages"@,
        ContextErrorKind::EmptyEnvironmentKey => "Empty environment variable key found"@,
        ContextErrorKind::OversizedEnvironmentValue => "Environment variable '"@ + subject
            + "' value too long"@,
        ContextErrorKind::OversizedFileContent => "File content too large for: "@ + subject,
    }
}

impl ContextError {
    /// A short description of the fault, naming the offending path, key or
    /// count.
    pub fn message(&self) -> (r: String)
        ensures
            r@ == context_error_text(self.kind, self.subject@),
    {
        match self.kind {
            ContextErrorKind::EmptyFilePath => String::from_str(
                "Empty file path found in current_files",
            ),
            ContextErrorKind::UnsafeFilePath => {
                let mut s = String::from_str("Potentially unsafe file path: ");
                s.append(self.subject.as_str());
                s
            },
            ContextErrorKind::NullMetadata => {
                let mut s = String::from_str("Invalid null value for key: ");
                s.append(self.subject.as_str());
                s
            },
            ContextErrorKind::OversizedMetadata => {
                let mut s = String::from_str("Metadata value too large for key: ");
                s.append(self.subject.as_str());
                s
            },
            ContextErrorKind::HistoryTooLong => {
                let mut s = String::from_str("Conversation history too long: ");
                s.append(self.subject.as_str());
                s.append(" messages");
                proof {
                    assert(s@ =~= "Conversation history too long: "@ + self.subject@
                        + " messages"@);
                }
                s
            },
            ContextErrorKind::EmptyEnvironmentKey => String::from_str(
                "Empty environment variable key found",
            ),
            ContextErrorKind::OversizedEnvironmentValue => {
                let mut s = String::from_str("Environment variable '");
                s.append(self.subject.as_str());
                s.append("' value too long");
                proof {
                    assert(s@ =~= "Environment variable '"@ + self.subject@
                        + "' value too long"@);
                }
                s
            },
            ContextErrorKind::OversizedFileContent => {
                let mut s = String::from_str("File content too large for: ");
                s.append(self.subject.as_str());
                s
            },
        }
    }
}

/// The parent-directory marker that makes a path unsafe.
pub open spec fn dotdot() -> Seq<char> {
    seq!['.', '.']
}

/// The fault of one tracked file path, if any, with the path as subject.
pub open spec fn file_entry_error(path: Seq<char>) -> Option<(ContextErrorKind, Seq<char>)> {
    if path.len() == 0 {
        Some((ContextErrorKind::EmptyFilePath, path))
    } else if contains_sub(path, dotdot()) {
        Some((ContextErrorKind::UnsafeFilePath, path))
    } else {
        None
    }
}

/// The first faulty tracked file path, scanned in order.
pub open spec fn first_file_error(files: Seq<Seq<char>>) -> Option<(ContextErrorKind, Seq<char>)>
    decreases files.len(),
{
    if files.len() == 0 {
        None
    } else {
        match file_entry_error(files[0]) {
            Some(e) => Some(e),
            None => first_file_error(files.skip(1)),
        }
    }
}

/// The fault of one metadata entry, if any: a null under the reserved key, or
/// an oversized string value; the key is the subject.
pub open spec fn metadata_entry_error(k: Seq<char>, v: MetaVal) -> Option<
    (ContextErrorKind, Seq<char>),
> {
    match v {
        MetaVal::Null => if k == "invalid_key"@ {
            Some((ContextErrorKind::NullMetadata, k))
        } else {
            None
        },
        MetaVal::Text(s) => if s.len() > 10000 {
            Some((ContextErrorKind::OversizedMetadata, k))
        } else {
            None
        },
        MetaVal::Records(_) => None,
    }
}

/// The first faulty metadata entry, scanned in insertion order.
pub open spec fn first_metadata_error(kv: Seq<(Seq<char>, MetaVal)>) -> Option<
    (ContextErrorKind, Seq<char>),
>
    decreases kv.len(),
{
    if kv.len() == 0 {
        None
    } else {
        match metadata_entry_error(kv[0].0, kv[0].1) {
            Some(e) => Some(e),
            None => first_metadata_error(kv.skip(1)),
        }
    }
}

/// The fault of one environment entry, if any, with the key as subject.
pub open spec fn env_entry_error(k: Seq<char>, v: Seq<char>) -> Option<
    (ContextErrorKind, Seq<char>),
> {
    if k.len() == 0 {
        Some((ContextErrorKind::EmptyEnvironmentKey, k))
    } else if v.len() > 1000 {
        Some((ContextErrorKind::OversizedEnvironmentValue, k))
    } else {
        None
    }
}

/// The first faulty environment entry, scanned in insertion order.
pub open spec fn first_env_error(kv: Seq<(Seq<char>, Seq<char>)>) -> Option<
    (ContextErrorKind, Seq<char>),
>
    decreases kv.len(),
{
    if kv.len() == 0 {
        None
    } else {
        match env_entry_error(kv[0].0, kv[0].1) {
            Some(e) => Some(e),
            None => first_env_error(kv.skip(1)),
        }
    }
}

/// The first oversized cached file content, scanned in insertion order, with
/// its path as subject.
pub open spec fn first_content_error(kv: Seq<(Seq<char>, Seq<char>)>) -> Option<
    (ContextErrorKind, Seq<char>),
>
    decreases kv.len(),
{
    if kv.len() == 0 {
        None
    } else if kv[0].1.len() > 100000 {
        Some((ContextErrorKind::OversizedFileContent, kv[0].0))
    } else {
        first_content_error(kv.skip(1))
    }
}

/// The first validation fault of a context, checked in the fixed order:
/// file paths, metadata, history length, environment, cached file contents.
pub open spec fn validation_error(c: &Context) -> Option<(ContextErrorKind, Seq<char>)> {
    if first_file_error(c.current_files.deep_view()) is Some {
        first_file_error(c.current_files.deep_view())
    } else if first_metadata_error(c.metadata.kv()) is Some {
        first_metadata_error(c.metadata.kv())
    } else if c.conversation_history.deep_view().len() > 1000 {
        Some(
            (
                ContextErrorKind::HistoryTooLong,
                dec_str(c.conversation_history.deep_view().len() as int),
            ),
        )
    } else if first_env_error(c.environment.kv()) is Some {
        first_env_error(c.environment.kv())
    } else {
        first_content_error(c.file_contents.kv())
    }
}

/// Messages of `b` merged into `a` in order, skipping those already present.
pub open spec fn merge_msgs(a: Seq<MsgView>, b: Seq<MsgView>) -> Seq<MsgView>
    decreases b.len(),
{
    if b.len() == 0 {
        a
    } else {
        merge_msgs(
            if a.contains(b[0]) {
                a
            } else {
                a.push(b[0])
            },
            b.skip(1),
        )
    }
}

/// The paths with every occurrence of `p` removed, order kept.
pub open spec fn remove_path(files: Seq<Seq<char>>, p: Seq<char>) -> Seq<Seq<char>>
    decreases files.len(),
{
    if files.len() == 0 {
        files
    } else if files[0] == p {
        remove_path(files.skip(1), p)
    } else {
        seq![files[0]] + remove_path(files.skip(1), p)
    }
}

pub proof fn lemma_file_listed_unfold(f: Seq<Seq<char>>, k: Seq<char>)
    requires
        f.len() > 0,
    ensures
        file_listed(f, k) == (f[0] == k || file_listed(f.skip(1), k)),
{
    if file_listed(f, k) {
        let i = choose|i: int| 0 <= i < f.len() && f[i] == k;
        if i > 0 {
            assert(f.skip(1)[i - 1] == k);
        }
    }
    if file_listed(f.skip(1), k) {
        let i = choose|i: int| 0 <= i < f.skip(1).len() && f.skip(1)[i] == k;
        assert(f[i + 1] == k);
    }
}

pub proof fn lemma_remove_path_props(f: Seq<Seq<char>>, p: Seq<char>)
    requires
        files_unique(f),
    ensures
        files_unique(remove_path(f, p)),
        forall|k: Seq<char>| #[trigger] file_listed(remove_path(f, p), k) <==> file_listed(f, k)
            && k != p,
    decreases f.len(),
{
    if f.len() == 0 {
        assert forall|k: Seq<char>| !file_listed(remove_path(f, p), k) by {}
    } else {
        let rest = f.skip(1);
        assert(files_unique(rest)) by {
            assert(forall|i: int, j: int|
                0 <= i < j < rest.len() ==> rest[i] == f[i + 1] && rest[j] == f[j + 1]);
        }
        lemma_remove_path_props(rest, p);
        assert forall|k: Seq<char>| #[trigger] file_listed(f, k) == (f[0] == k || file_listed(
            rest,
            k,
        )) by {
            lemma_file_listed_unfold(f, k);
        }
        if f[0] == p {
            assert(remove_path(f, p) == remove_path(rest, p));
            assert forall|k: Seq<char>| #[trigger] file_listed(remove_path(f, p), k) <==> (
            file_listed(f, k) && k != p) by {
                if file_listed(f, k) && k != p {
                    assert(file_listed(rest, k));
                }
            }
        } else {
            let r = seq![f[0]] + remove_path(rest, p);
            assert(remove_path(f, p) == r);
            assert(r[0] == f[0]);
            assert(forall|i: int|
                0 <= i < remove_path(rest, p).len() ==> r[i + 1] == #[trigger] remove_path(
                    rest,
                    p,
                )[i]);
            assert forall|k: Seq<char>| #[trigger] file_listed(r, k) <==> (file_listed(f, k) && k
                != p) by {
                lemma_file_listed_unfold(r, k);
                assert(r.skip(1) =~= remove_path(rest, p));
                if f[0] == k {
                    assert(file_listed(f, k));
                    assert(k != p);
                }
            }
            assert forall|i: int, j: int| 0 <= i < j < r.len() implies r[i] != r[j] by {
                if i == 0 {
                    assert(r[j] == remove_path(rest, p)[j - 1]);
                    assert(file_listed(remove_path(rest, p), r[j]));
                    assert(file_listed(rest, r[j]));
                    let w = choose|w: int| 0 <= w < rest.len() && rest[w] == r[j];
                    assert(f[w + 1] == r[j]);
                } else {
                    assert(r[i] == remove_path(rest, p)[i - 1]);
                    assert(r[j] == remove_path(rest, p)[j - 1]);
                }
            }
        }
    }
}

/// The environment after inheriting entries from `theirs`: existing keys win.
pub open spec fn env_inherit(
    mine: Map<Seq<char>, Seq<char>>,
    theirs: Seq<(Seq<char>, Seq<char>)>,
) -> Map<Seq<char>, Seq<char>>
    decreases theirs.len(),
{
    if theirs.len() == 0 {
        mine
    } else {
        env_inherit(
            if mine.contains_key(theirs[0].0) {
                mine
            } else {
                mine.insert(theirs[0].0, theirs[0].1)
            },
            theirs.skip(1),
        )
    }
}

/// The metadata map after applying a diff's changes in order.
pub open spec fn meta_apply(
    m: Map<Seq<char>, MetaVal>,
    changes: Seq<(Seq<char>, MetaVal)>,
) -> Map<Seq<char>, MetaVal>
    decreases changes.len(),
{
    if changes.len() == 0 {
        m
    } else {
        meta_apply(m.insert(changes[0].0, changes[0].1), changes.skip(1))
    }
}

/// The metadata map with the given keys removed in order.
pub open spec fn remove_keys(
    m: Map<Seq<char>, MetaVal>,
    keys: Seq<Seq<char>>,
) -> Map<Seq<char>, MetaVal>
    decreases keys.len(),
{
    if keys.len() == 0 {
        m
    } else {
        remove_keys(m.remove(keys[0]), keys.skip(1))
    }
}

/// The metadata of a context filtered for `provider`: the excluded keys are
/// removed, a focus marker is added for the code-review provider, and the
/// provider stamp is always set.
pub open spec fn filtered_metadata(
    m: Map<Seq<char>, MetaVal>,
    provider: Seq<char>,
    excluded: Seq<Seq<char>>,
) -> Map<Seq<char>, MetaVal> {
    let m1 = remove_keys(m, excluded);
    let m2 = if provider == "codex"@ {
        m1.insert("focus_mode"@, MetaVal::Text("code"@))
    } else {
        m1
    };
    m2.insert("filtered_for_provider"@, MetaVal::Text(provider))
}

/// The step-result log that `enhance_with_response` extends: the existing log,
/// or a fresh one, with the new record appended; a non-log value under the key
/// is left as it stands.
pub open spec fn enhanced_step_results(
    m: Map<Seq<char>, MetaVal>,
    content: Seq<char>,
    meta: Map<Seq<char>, Seq<char>>,
    ts: u64,
) -> MetaVal {
    let prior = if m.contains_key("step_results"@) {
        m["step_results"@]
    } else {
        MetaVal::Records(Seq::empty())
    };
    match prior {
        MetaVal::Records(rs) => MetaVal::Records(
            rs.push(RecordView { content, metadata: meta, timestamp: ts }),
        ),
        other => other,
    }
}

/// The metadata map with each response metadata entry copied in under a
/// `response_`-prefixed key.
pub open spec fn with_response_meta(
    m: Map<Seq<char>, MetaVal>,
    kv: Seq<(Seq<char>, Seq<char>)>,
) -> Map<Seq<char>, MetaVal>
    decreases kv.len(),
{
    if kv.len() == 0 {
        m
    } else {
        with_response_meta(m.insert("response_"@ + kv[0].0, MetaVal::Text(kv[0].1)), kv.skip(1))
    }
}

impl Context {
    /// Check the context against its structural limits, reporting the first
    /// violation in the order: file paths, metadata, history length,
    /// environment, cached file contents.
    #[verifier::loop_isolation(false)]
    pub fn validate(&self) -> (r: Result<(), ContextError>)
        ensures
            r is Ok <==> validation_error(self) is None,
            r matches Err(e) ==> validation_error(self) == Some((e.kind, e.subject@)),
    {
        proof {
            reveal_strlit("..");
            assert(".."@ =~= dotdot());
        }
        let ghost files = self.current_files.deep_view();
        let nf = self.current_files.len();
        let mut i: usize = 0;
        proof {
            assert(files.skip(0) =~= files);
        }
        while i < nf
            invariant
                i <= nf,
                nf == files.len(),
                files == self.current_files.deep_view(),
                first_file_error(files) == first_file_error(files.skip(i as int)),
            decreases nf - i,
        {
            let path = &self.current_files[i];
            proof {
                assert(files.skip(i as int)[0] == files[i as int]);
                assert(files[i as int] == path@);
            }
            if path.as_str().is_empty() {
                return Err(
                    ContextError { kind: ContextErrorKind::EmptyFilePath, subject: path.clone() },
                );
            }
            if contains_str(path.as_str(), "..") {
                return Err(
                    ContextError { kind: ContextErrorKind::UnsafeFilePath, subject: path.clone() },
                );
            }
            proof {
                assert(files.skip(i as int).skip(1) =~= files.skip(i as int + 1));
            }
            i = i + 1;
        }
        proof {
            assert(files.skip(nf as int) =~= Seq::<Seq<char>>::empty());
        }
        let ghost mkv = self.metadata.kv();
        let nm = self.metadata.len();
        let mut j: usize = 0;
        proof {
            assert(mkv.skip(0) =~= mkv);
        }
        while j < nm
            invariant
                j <= nm,
                nm == mkv.len(),
                mkv == self.metadata.kv(),
                first_metadata_error(mkv) == first_metadata_error(mkv.skip(j as int)),
            decreases nm - j,
        {
            proof {
                assert(mkv.skip(j as int)[0] == mkv[j as int]);
            }
            let key = self.metadata.key_at(j);
            match self.metadata.value_at(j) {
                MetaValue::Null => {
                    if str_eq(key.as_str(), "invalid_key") {
                        return Err(
                            ContextError {
                                kind: ContextErrorKind::NullMetadata,
                                subject: key.clone(),
                            },
                        );
                    }
                },
                MetaValue::Text(s) => {
                    if s.as_str().unicode_len() > 10000 {
                        return Err(
                            ContextError {
                                kind: ContextErrorKind::OversizedMetadata,
                                subject: key.clone(),
                            },
                        );
                    }
                },
                MetaValue::Records(_) => {},
            }
            proof {
                assert(mkv.skip(j as int).skip(1) =~= mkv.skip(j as int + 1));
            }
            j = j + 1;
        }
        proof {
            assert(mkv.skip(nm as int) =~= Seq::<(Seq<char>, MetaVal)>::empty());
        }
        if self.conversation_history.len() > 1000 {
            let count = usize_to_string(self.conversation_history.len());
            return Err(
                ContextError { kind: ContextErrorKind::HistoryTooLong, subject: count },
            );
        }
        let ghost ekv = self.environment.kv();
        let ne = self.environment.len();
        let mut k: usize = 0;
        proof {
            assert(ekv.skip(0) =~= ekv);
        }
        while k < ne
            invariant
                k <= ne,
                ne == ekv.len(),
                ekv == self.environment.kv(),
                first_env_error(ekv) == first_env_error(ekv.skip(k as int)),
            decreases ne - k,
        {
            proof {
                assert(ekv.skip(k as int)[0] == ekv[k as int]);
            }
            if self.environment.key_at(k).as_str().is_empty() {
                return Err(
                    ContextError {
                        kind: ContextErrorKind::EmptyEnvironmentKey,
                        subject: self.environment.key_at(k).clone(),
                    },
                );
            }
            if self.environment.value_at(k).as_str().unicode_len() > 1000 {
                return Err(
                    ContextError {
                        kind: ContextErrorKind::OversizedEnvironmentValue,
                        subject: self.environment.key_at(k).clone(),
                    },
                );
            }
            proof {
                assert(ekv.skip(k as int).skip(1) =~= ekv.skip(k as int + 1));
            }
            k = k + 1;
        }
        proof {
            assert(ekv.skip(ne as int) =~= Seq::<(Seq<char>, Seq<char>)>::empty());
        }
        let ghost ckv = self.file_contents.kv();
        let nc = self.file_contents.len();
        let mut w: usize = 0;
        proof {
            assert(ckv.skip(0) =~= ckv);
        }
        while w < nc
            invariant
                w <= nc,
                nc == ckv.len(),
                ckv == self.file_contents.kv(),
                first_content_error(ckv) == first_content_error(ckv.skip(w as int)),
            decreases nc - w,
        {
            proof {
                assert(ckv.skip(w as int)[0] == ckv[w as int]);
            }
            if self.file_contents.value_at(w).as_str().unicode_len() > 100000 {
                return Err(
                    ContextError {
                        kind: ContextErrorKind::OversizedFileContent,
                        subject: self.file_contents.key_at(w).clone(),
                    },
                );
            }
            proof {
                assert(ckv.skip(w as int).skip(1) =~= ckv.skip(w as int + 1));
            }
            w = w + 1;
        }
        proof {
            assert(ckv.skip(nc as int) =~= Seq::<(Seq<char>, Seq<char>)>::empty());
        }
        Ok(())
    }
}

/// A term of the token estimate, capped at `usize::MAX`.
pub open spec fn capped(t: int) -> int {
    if t > usize::MAX {
        usize::MAX as int
    } else {
        t
    }
}

/// Token estimate accumulated over the message history: 1.3 tokens per word
/// (as 13/10, rounded down) plus a 5-token role overhead per message.
pub open spec fn est_history(h: Seq<MsgView>, i: int, acc: int) -> int
    decreases h.len() - i,
{
    if i < 0 || i >= h.len() {
        acc
    } else {
        est_history(
            h,
            i + 1,
            sat_add_spec(sat_add_spec(acc, capped(word_count(h[i].content) * 13 / 10)), 5),
        )
    }
}

/// Token estimate accumulated over cached file contents: word cost plus a
/// 10-token file overhead per entry.
pub open spec fn est_contents(kv: Seq<(Seq<char>, Seq<char>)>, i: int, acc: int) -> int
    decreases kv.len() - i,
{
    if i < 0 || i >= kv.len() {
        acc
    } else {
        est_contents(
            kv,
            i + 1,
            sat_add_spec(sat_add_spec(acc, capped(word_count(kv[i].1) * 13 / 10)), 10),
        )
    }
}

/// Token estimate accumulated over metadata: a quarter of the key length,
/// plus the word cost of string values or a flat 5 for structured ones.
pub open spec fn est_metadata(kv: Seq<(Seq<char>, MetaVal)>, i: int, acc: int) -> int
    decreases kv.len() - i,
{
    if i < 0 || i >= kv.len() {
        acc
    } else {
        let acc1 = sat_add_spec(acc, capped(kv[i].0.len() as int / 4));
        let acc2 = match kv[i].1 {
            MetaVal::Text(s) => sat_add_spec(acc1, capped(word_count(s) * 13 / 10)),
            _ => sat_add_spec(acc1, 5),
        };
        est_metadata(kv, i + 1, acc2)
    }
}

/// Token estimate accumulated over environment entries: a quarter of the
/// combined key and value length per entry.
pub open spec fn est_env(kv: Seq<(Seq<char>, Seq<char>)>, i: int, acc: int) -> int
    decreases kv.len() - i,
{
    if i < 0 || i >= kv.len() {
        acc
    } else {
        est_env(kv, i + 1, sat_add_spec(acc, capped((kv[i].0.len() + kv[i].1.len()) as int / 4)))
    }
}

/// The heuristic token estimate of a whole context: history, file contents,
/// metadata and environment costs plus a flat 50-token base overhead. An
/// estimate, not a provider-verified count.
pub open spec fn estimated_tokens(c: &Context) -> int {
    sat_add_spec(
        est_env(
            c.environment.kv(),
            0,
            est_metadata(
                c.metadata.kv(),
                0,
                est_contents(
                    c.file_contents.kv(),
                    0,
                    est_history(c.conversation_history.deep_view(), 0, 0),
                ),
            ),
        ),
        50,
    )
}

/// The capped word cost of a text: `word_count * 13 / 10`.
fn scaled_words(s: &str) -> (r: usize)
    ensures
        r == capped(word_count(s@) * 13 / 10),
{
    let w = count_words(s);
    let t: u128 = (w as u128) * 13 / 10;
    if t > (usize::MAX as u128) {
        usize::MAX
    } else {
        t as usize
    }
}

/// The capped cost of one environment entry.
fn env_entry_cost(k: &str, v: &str) -> (r: usize)
    ensures
        r == capped((k@.len() + v@.len()) as int / 4),
{
    let a: u128 = (k.unicode_len() as u128) + (v.unicode_len() as u128);
    let t = a / 4;
    if t > (usize::MAX as u128) {
        usize::MAX
    } else {
        t as usize
    }
}

/// Whether the history contains a message with the same role and text.
fn history_contains(h: &Vec<Message>, m: &Message) -> (r: bool)
    ensures
        r == h.deep_view().contains(m@),
{
    let n = h.len();
    let mut i: usize = 0;
    while i < n
        invariant
            i <= n,
            n == h@.len(),
            forall|j: int| 0 <= j < i ==> h.deep_view()[j] != m@,
        decreases n - i,
    {
        let hm = &h[i];
        if hm.eq(m) {
            proof {
                assert(h.deep_view()[i as int] == m@);
            }
            return true;
        }
        i = i + 1;
    }
    proof {
        if h.deep_view().contains(m@) {
            let j = choose|j: int| 0 <= j < h.deep_view().len() && h.deep_view()[j] == m@;
            assert(h.deep_view()[j] != m@);
        }
    }
    false
}

/// The metadata map after folding in one response at clock reading `ts`:
/// the last response is recorded, the step-result log is extended, and each
/// response metadata entry is copied in under a prefixed key.
pub open spec fn enhanced_metadata(
    old_m: Map<Seq<char>, MetaVal>,
    content: Seq<char>,
    rmeta: Map<Seq<char>, Seq<char>>,
    rkv: Seq<(Seq<char>, Seq<char>)>,
    ts: u64,
) -> Map<Seq<char>, MetaVal> {
    let m1 = old_m.insert("last_response"@, MetaVal::Text(content));
    with_response_meta(
        m1.insert("step_results"@, enhanced_step_results(m1, content, rmeta, ts)),
        rkv,
    )
}

impl Context {
    /// Estimate the token footprint of this context. The result is the spec
    /// formula [`estimated_tokens`], a heuristic that must not be treated as
    /// billing-accurate.
    #[verifier::loop_isolation(false)]
    pub fn estimate_tokens(&self) -> (r: usize)
        ensures
            r == estimated_tokens(self),
    {
        let mut count: usize = 0;
        let ghost h = self.conversation_history.deep_view();
        let nh = self.conversation_history.len();
        let mut i: usize = 0;
        while i < nh
            invariant
                i <= nh,
                est_history(h, i as int, count as int) == est_history(h, 0, 0),
            decreases nh - i,
        {
            proof {
                assert(h[i as int] == self.conversation_history@[i as int]@);
            }
            count = sat_add(count, scaled_words(self.conversation_history[i].content.as_str()));
            count = sat_add(count, 5);
            i = i + 1;
        }
        let ghost ckv = self.file_contents.kv();
        let nc = self.file_contents.len();
        let mut j: usize = 0;
        while j < nc
            invariant
                j <= nc,
                est_contents(ckv, j as int, count as int) == est_contents(
                    ckv,
                    0,
                    est_history(h, 0, 0),
                ),
            decreases nc - j,
        {
            count = sat_add(count, scaled_words(self.file_contents.value_at(j).as_str()));
            count = sat_add(count, 10);
            j = j + 1;
        }
        let ghost mkv = self.metadata.kv();
        let nm = self.metadata.len();
        let mut k: usize = 0;
        while k < nm
            invariant
                k <= nm,
                est_metadata(mkv, k as int, count as int) == est_metadata(
                    mkv,
                    0,
                    est_contents(ckv, 0, est_history(h, 0, 0)),
                ),
            decreases nm - k,
        {
            let key = self.metadata.key_at(k);
            count = sat_add(count, key.as_str().unicode_len() / 4);
            match self.metadata.value_at(k) {
                MetaValue::Text(s) => {
                    count = sat_add(count, scaled_words(s.as_str()));
                },
                _ => {
                    count = sat_add(count, 5);
                },
            }
            k = k + 1;
        }
        let ghost ekv = self.environment.kv();
        let ne = self.environment.len();
        let mut w: usize = 0;
        while w < ne
            invariant
                w <= ne,
                est_env(ekv, w as int, count as int) == est_env(
                    ekv,
                    0,
                    est_metadata(mkv, 0, est_contents(ckv, 0, est_history(h, 0, 0))),
                ),
            decreases ne - w,
        {
            count = sat_add(
                count,
                env_entry_cost(
                    self.environment.key_at(w).as_str(),
                    self.environment.value_at(w).as_str(),
                ),
            );
            w = w + 1;
        }
        sat_add(count, 50)
    }

    /// Fold a step's response into the metadata: record it as the last
    /// response, append it to the step-result log, and copy its metadata in
    /// under `response_`-prefixed keys so later steps can see it.
    #[verifier::loop_isolation(false)]
    pub fn enhance_with_response(&mut self, response: &Response)
        ensures
            exists|ts: u64|
                final(self).metadata@ == #[trigger] enhanced_metadata(
                    old(self).metadata@,
                    response.content@,
                    response.metadata@,
                    response.metadata.kv(),
                    ts,
                ),
            final(self).conversation_history == old(self).conversation_history,
            final(self).current_files == old(self).current_files,
            final(self).environment == old(self).environment,
            final(self).file_contents == old(self).file_contents,
            final(self).scopes == old(self).scopes,
            final(self).created_at == old(self).created_at,
            old(self).wf() ==> final(self).wf(),
    {
        self.metadata.insert(
            String::from_str("last_response"),
            MetaValue::Text(response.content.clone()),
        );
        let ghost m1 = self.metadata@;
        let ts = now_millis() / 1000;
        let record = StepRecord {
            content: response.content.clone(),
            metadata: response.metadata.clone(),
            timestamp: ts,
        };
        let prior: Option<MetaValue> = match self.metadata.get("step_results") {
            Some(v) => Some(v.clone()),
            None => None,
        };
        let ghost record_view = record@;
        match prior {
            None => {
                let mut rs: Vec<StepRecord> = Vec::new();
                rs.push(record);
                proof {
                    assert(rs.deep_view() =~= Seq::<RecordView>::empty().push(record_view));
                }
                self.metadata.insert(String::from_str("step_results"), MetaValue::Records(rs));
            },
            Some(MetaValue::Records(v)) => {
                proof {
                    assert(m1["step_results"@] == MetaVal::Records(v.deep_view()));
                }
                let mut rs = v;
                rs.push(record);
                proof {
                    let prior_rs = choose|p: Seq<RecordView>|
                        m1["step_results"@] == MetaVal::Records(p);
                    assert(prior_rs == rs.deep_view().drop_last());
                    assert(rs.deep_view() =~= prior_rs.push(record_view));
                }
                self.metadata.insert(String::from_str("step_results"), MetaValue::Records(rs));
            },
            Some(other) => {
                proof {
                    assert(enhanced_step_results(m1, response.content@, response.metadata@, ts)
                        == m1["step_results"@]);
                    assert(self.metadata@.insert("step_results"@, m1["step_results"@])
                        =~= self.metadata@);
                }
            },
        }
        proof {
            assert(self.metadata@ == m1.insert(
                "step_results"@,
                enhanced_step_results(m1, response.content@, response.metadata@, ts),
            ));
        }
        let ghost m2 = self.metadata@;
        let ghost rkv = response.metadata.kv();
        let n = response.metadata.len();
        let mut i: usize = 0;
        proof {
            reveal_strlit("response_");
            assert(rkv.skip(0) =~= rkv);
        }
        while i < n
            invariant
                i <= n,
                n == rkv.len(),
                with_response_meta(self.metadata@, rkv.skip(i as int)) == with_response_meta(
                    m2,
                    rkv,
                ),
                self.conversation_history == old(self).conversation_history,
                self.current_files == old(self).current_files,
                self.environment == old(self).environment,
                self.file_contents == old(self).file_contents,
                self.scopes == old(self).scopes,
                self.created_at == old(self).created_at,
            decreases n - i,
        {
            proof {
                assert(rkv.skip(i as int)[0] == rkv[i as int]);
            }
            let mut key = String::from_str("response_");
            key.append(response.metadata.key_at(i).as_str());
            self.metadata.insert(key, MetaValue::Text(response.metadata.value_at(i).clone()));
            proof {
                assert(rkv.skip(i as int).skip(1) =~= rkv.skip(i as int + 1));
            }
            i = i + 1;
        }
        proof {
            assert(rkv.skip(n as int) =~= Seq::<(Seq<char>, Seq<char>)>::empty());
        }
        self.update_timestamp();
        proof {
            assert(self.metadata@ == enhanced_metadata(
                old(self).metadata@,
                response.content@,
                response.metadata@,
                rkv,
                ts,
            ));
        }
    }

    /// A derived copy of this context shaped for one provider: the listed
    /// metadata keys are removed, the history is trimmed to the newest ten
    /// messages for the summarizing provider, a focus marker is added for the
    /// code-review provider, and the copy is stamped and scope-labelled.
    #[verifier::loop_isolation(false)]
    pub fn filter_for_provider(&self, provider: &str, excluded_keys: &Vec<String>) -> (r: Context)
        ensures
            r.conversation_history.deep_view() == (if provider@ == "gemini"@
                && self.conversation_history@.len() > 10 {
                self.conversation_history.deep_view().skip(
                    self.conversation_history@.len() - 10,
                )
            } else {
                self.conversation_history.deep_view()
            }),
            r.metadata@ == filtered_metadata(self.metadata@, provider@, excluded_keys.deep_view()),
            r.current_files@ == self.current_files@,
            r.current_files.deep_view() == self.current_files.deep_view(),
            r.environment@ == self.environment@,
            r.environment.kv() == self.environment.kv(),
            r.file_contents@ == self.file_contents@,
            r.file_contents.kv() == self.file_contents.kv(),
            r.scopes.deep_view() == self.scopes.deep_view().push("provider:"@ + provider@),
            r.created_at == self.created_at,
            self.wf() ==> r.wf(),
    {
        proof {
            reveal_strlit("gemini");
            reveal_strlit("codex");
            assert("gemini"@.len() == 6);
            assert("codex"@.len() == 5);
        }
        let mut filtered = self.clone();
        let ghost excl = excluded_keys.deep_view();
        let ghost m0 = filtered.metadata@;
        let ne = excluded_keys.len();
        let mut i: usize = 0;
        proof {
            assert(excl.skip(0) =~= excl);
        }
        while i < ne
            invariant
                i <= ne,
                ne == excl.len(),
                excl == excluded_keys.deep_view(),
                remove_keys(filtered.metadata@, excl.skip(i as int)) == remove_keys(m0, excl),
                filtered.conversation_history@ == self.conversation_history@,
                filtered.current_files@ == self.current_files@,
                filtered.current_files.deep_view() == self.current_files.deep_view(),
                filtered.environment@ == self.environment@,
                filtered.environment.kv() == self.environment.kv(),
                filtered.file_contents@ == self.file_contents@,
                filtered.file_contents.kv() == self.file_contents.kv(),
                filtered.scopes@ == self.scopes@,
                filtered.created_at == self.created_at,
            decreases ne - i,
        {
            proof {
                assert(excl.skip(i as int)[0] == excl[i as int]);
                assert(excl[i as int] == excluded_keys@[i as int]@);
            }
            filtered.metadata.remove(excluded_keys[i].as_str());
            proof {
                assert(excl.skip(i as int).skip(1) =~= excl.skip(i as int + 1));
            }
            i = i + 1;
        }
        proof {
            assert(excl.skip(ne as int) =~= Seq::<Seq<char>>::empty());
        }
        if str_eq(provider, "gemini") {
            let len = filtered.conversation_history.len();
            if len > 10 {
                let mut tail: Vec<Message> = Vec::new();
                let mut j: usize = len - 10;
                proof {
                    assert(tail.deep_view() =~= filtered.conversation_history.deep_view().subrange(
                        len - 10,
                        len - 10,
                    ));
                }
                while j < len
                    invariant
                        len - 10 <= j <= len,
                        len == filtered.conversation_history@.len(),
                        tail.deep_view() =~= filtered.conversation_history.deep_view().subrange(
                            len - 10,
                            j as int,
                        ),
                    decreases len - j,
                {
                    tail.push(filtered.conversation_history[j].clone());
                    proof {
                        assert(tail.deep_view() =~= filtered.conversation_history.deep_view()
                            .subrange(len - 10, j + 1));
                    }
                    j = j + 1;
                }
                proof {
                    assert(tail.deep_view() =~= filtered.conversation_history.deep_view().skip(
                        len - 10,
                    ));
                }
                filtered.conversation_history = tail;
            }
        } else if str_eq(provider, "codex") {
            filtered.metadata.insert(
                String::from_str("focus_mode"),
                MetaValue::Text(String::from_str("code")),
            );
        }
        filtered.metadata.insert(
            String::from_str("filtered_for_provider"),
            MetaValue::Text(String::from_str(provider)),
        );
        let mut label = String::from_str("provider:");
        label.append(provider);
        filtered.scopes.push(label);
        proof {
            assert(filtered.scopes.deep_view() =~= self.scopes.deep_view().push(
                "provider:"@ + provider@,
            ));
        }
        filtered
    }

    /// Merge a scoped copy back: append, in order, each of its messages that
    /// this context does not already hold.
    #[verifier::loop_isolation(false)]
    pub fn merge_scope(&mut self, scoped_context: Context)
        ensures
            final(self).conversation_history.deep_view() == merge_msgs(
                old(self).conversation_history.deep_view(),
                scoped_context.conversation_history.deep_view(),
            ),
            final(self).current_files == old(self).current_files,
            final(self).environment == old(self).environment,
            final(self).metadata == old(self).metadata,
            final(self).file_contents == old(self).file_contents,
            final(self).scopes == old(self).scopes,
            final(self).created_at == old(self).created_at,
            final(self).last_updated == old(self).last_updated,
            old(self).wf() ==> final(self).wf(),
    {
        let ghost b = scoped_context.conversation_history.deep_view();
        let n = scoped_context.conversation_history.len();
        let mut i: usize = 0;
        proof {
            assert(b.skip(0) =~= b);
        }
        while i < n
            invariant
                i <= n,
                n == b.len(),
                b == scoped_context.conversation_history.deep_view(),
                merge_msgs(self.conversation_history.deep_view(), b.skip(i as int)) == merge_msgs(
                    old(self).conversation_history.deep_view(),
                    b,
                ),
                self.current_files == old(self).current_files,
                self.environment == old(self).environment,
                self.metadata == old(self).metadata,
                self.file_contents == old(self).file_contents,
                self.scopes == old(self).scopes,
                self.created_at == old(self).created_at,
                self.last_updated == old(self).last_updated,
            decreases n - i,
        {
            proof {
                assert(b.skip(i as int)[0] == b[i as int]);
            }
            let m = &scoped_context.conversation_history[i];
            let ghost before = self.conversation_history.deep_view();
            if !history_contains(&self.conversation_history, m) {
                self.conversation_history.push(m.clone());
                proof {
                    assert(self.conversation_history.deep_view() =~= before.push(m@));
                }
            }
            proof {
                assert(b.skip(i as int).skip(1) =~= b.skip(i as int + 1));
            }
            i = i + 1;
        }
        proof {
            assert(b.skip(n as int) =~= Seq::<MsgView>::empty());
        }
    }

    /// Stop tracking a file and drop its cached content.
    #[verifier::loop_isolation(false)]
    pub fn remove_file(&mut self, path: &str)
        ensures
            final(self).current_files.deep_view() == remove_path(
                old(self).current_files.deep_view(),
                path@,
            ),
            final(self).file_contents@ == old(self).file_contents@.remove(path@),
            final(self).conversation_history == old(self).conversation_history,
            final(self).environment == old(self).environment,
            final(self).metadata == old(self).metadata,
            final(self).scopes == old(self).scopes,
            final(self).created_at == old(self).created_at,
            final(self).last_updated == old(self).last_updated,
            old(self).wf() ==> final(self).wf(),
    {
        let ghost full = self.current_files.deep_view();
        let n = self.current_files.len();
        let mut kept: Vec<String> = Vec::new();
        let mut i: usize = 0;
        proof {
            assert(full.skip(0) =~= full);
            assert(kept.deep_view() =~= Seq::<Seq<char>>::empty());
            assert(Seq::<Seq<char>>::empty() + remove_path(full, path@) =~= remove_path(
                full,
                path@,
            ));
        }
        while i < n
            invariant
                i <= n,
                n == full.len(),
                full == self.current_files.deep_view(),
                remove_path(full, path@) =~= kept.deep_view() + remove_path(
                    full.skip(i as int),
                    path@,
                ),
            decreases n - i,
        {
            proof {
                assert(full.skip(i as int)[0] == full[i as int]);
                assert(full[i as int] == self.current_files@[i as int]@);
            }
            let ghost kept_before = kept.deep_view();
            if !str_eq(self.current_files[i].as_str(), path) {
                kept.push(self.current_files[i].clone());
                proof {
                    assert(kept.deep_view() =~= kept_before.push(full[i as int]));
                    assert(kept_before.push(full[i as int]) + remove_path(
                        full.skip(i as int).skip(1),
                        path@,
                    ) =~= kept_before + (seq![full[i as int]] + remove_path(
                        full.skip(i as int).skip(1),
                        path@,
                    )));
                }
            }
            proof {
                assert(full.skip(i as int).skip(1) =~= full.skip(i as int + 1));
            }
            i = i + 1;
        }
        proof {
            assert(full.skip(n as int) =~= Seq::<Seq<char>>::empty());
            assert(kept.deep_view() + remove_path(Seq::<Seq<char>>::empty(), path@)
                =~= kept.deep_view());
        }
        self.current_files = kept;
        self.file_contents.remove(path);
        proof {
            if old(self).wf() {
                lemma_remove_path_props(full, path@);
                assert forall|k: Seq<char>| self.file_contents@.contains_key(k)
                    implies file_listed(self.current_files.deep_view(), k) by {
                    assert(old(self).file_contents@.contains_key(k) && k != path@);
                    assert(file_listed(full, k));
                }
            }
        }
    }

    /// Take over the other context's environment entries whose keys this
    /// context does not define; existing entries win.
    #[verifier::loop_isolation(false)]
    pub fn inherit_environment(&mut self, other: &Context)
        ensures
            final(self).environment@ == env_inherit(
                old(self).environment@,
                other.environment.kv(),
            ),
            final(self).conversation_history == old(self).conversation_history,
            final(self).current_files == old(self).current_files,
            final(self).metadata == old(self).metadata,
            final(self).file_contents == old(self).file_contents,
            final(self).scopes == old(self).scopes,
            final(self).created_at == old(self).created_at,
            final(self).last_updated == old(self).last_updated,
            old(self).wf() ==> final(self).wf(),
    {
        let ghost theirs = other.environment.kv();
        let n = other.environment.len();
        let mut i: usize = 0;
        proof {
            assert(theirs.skip(0) =~= theirs);
        }
        while i < n
            invariant
                i <= n,
                n == theirs.len(),
                theirs == other.environment.kv(),
                env_inherit(self.environment@, theirs.skip(i as int)) == env_inherit(
                    old(self).environment@,
                    theirs,
                ),
                self.conversation_history == old(self).conversation_history,
                self.current_files == old(self).current_files,
                self.metadata == old(self).metadata,
                self.file_contents == old(self).file_contents,
                self.scopes == old(self).scopes,
                self.created_at == old(self).created_at,
                self.last_updated == old(self).last_updated,
            decreases n - i,
        {
            proof {
                assert(theirs.skip(i as int)[0] == theirs[i as int]);
            }
            let key = other.environment.key_at(i);
            if !self.environment.contains_key(key.as_str()) {
                self.environment.insert(key.clone(), other.environment.value_at(i).clone());
            }
            proof {
                assert(theirs.skip(i as int).skip(1) =~= theirs.skip(i as int + 1));
            }
            i = i + 1;
        }
        proof {
            assert(theirs.skip(n as int) =~= Seq::<(Seq<char>, Seq<char>)>::empty());
        }
    }

    /// What `other` holds beyond this context: the messages appended past this
    /// context's history. Message removal is not tracked, and metadata changes
    /// are not collected.
    #[verifier::loop_isolation(false)]
    pub fn diff(&self, other: &Context) -> (r: ContextDiff)
        ensures
            r.added_messages.deep_view() == (if other.conversation_history@.len()
                > self.conversation_history@.len() {
                other.conversation_history.deep_view().skip(
                    self.conversation_history@.len() as int,
                )
            } else {
                Seq::<MsgView>::empty()
            }),
            r.removed_messages@.len() == 0,
            r.metadata_changes@ == Map::<Seq<char>, MetaVal>::empty(),
            r.metadata_changes.kv().len() == 0,
    {
        let mut added: Vec<Message> = Vec::new();
        let slen = self.conversation_history.len();
        let olen = other.conversation_history.len();
        if olen > slen {
            let mut j: usize = slen;
            while j < olen
                invariant
                    slen <= j <= olen,
                    olen == other.conversation_history@.len(),
                    added.deep_view() =~= other.conversation_history.deep_view().subrange(
                        slen as int,
                        j as int,
                    ),
                decreases olen - j,
            {
                added.push(other.conversation_history[j].clone());
                proof {
                    assert(added.deep_view() =~= other.conversation_history.deep_view().subrange(
                        slen as int,
                        j + 1,
                    ));
                }
                j = j + 1;
            }
            proof {
                assert(added.deep_view() =~= other.conversation_history.deep_view().skip(
                    slen as int,
                ));
            }
        }
        ContextDiff {
            added_messages: added,
            removed_messages: Vec::new(),
            metadata_changes: MetaMap::new(),
        }
    }

    /// Append a diff's added messages and merge its metadata changes.
    #[verifier::loop_isolation(false)]
    pub fn apply_diff(&mut self, diff: ContextDiff)
        ensures
            final(self).conversation_history@ == old(self).conversation_history@
                + diff.added_messages@,
            final(self).metadata@ == meta_apply(old(self).metadata@, diff.metadata_changes.kv()),
            final(self).current_files == old(self).current_files,
            final(self).environment == old(self).environment,
            final(self).file_contents == old(self).file_contents,
            final(self).scopes == old(self).scopes,
            final(self).created_at == old(self).created_at,
            old(self).wf() ==> final(self).wf(),
    {
        let n = diff.added_messages.len();
        let mut i: usize = 0;
        proof {
            assert(old(self).conversation_history@ + diff.added_messages@.take(0)
                =~= old(self).conversation_history@);
        }
        while i < n
            invariant
                i <= n,
                n == diff.added_messages@.len(),
                self.conversation_history@ == old(self).conversation_history@
                    + diff.added_messages@.take(i as int),
                self.metadata == old(self).metadata,
                self.current_files == old(self).current_files,
                self.environment == old(self).environment,
                self.file_contents == old(self).file_contents,
                self.scopes == old(self).scopes,
                self.created_at == old(self).created_at,
            decreases n - i,
        {
            self.add_message(diff.added_messages[i].clone());
            proof {
                assert(old(self).conversation_history@ + diff.added_messages@.take(i as int + 1)
                    =~= (old(self).conversation_history@ + diff.added_messages@.take(
                    i as int,
                )).push(diff.added_messages@[i as int]));
            }
            i = i + 1;
        }
        proof {
            assert(diff.added_messages@.take(n as int) =~= diff.added_messages@);
        }
        let ghost changes = diff.metadata_changes.kv();
        let m = diff.metadata_changes.len();
        let mut j: usize = 0;
        proof {
            assert(changes.skip(0) =~= changes);
        }
        while j < m
            invariant
                j <= m,
                m == changes.len(),
                changes == diff.metadata_changes.kv(),
                meta_apply(self.metadata@, changes.skip(j as int)) == meta_apply(
                    old(self).metadata@,
                    changes,
                ),
                self.conversation_history@ == old(self).conversation_history@
                    + diff.added_messages@,
                self.current_files == old(self).current_files,
                self.environment == old(self).environment,
                self.file_contents == old(self).file_contents,
                self.scopes == old(self).scopes,
                self.created_at == old(self).created_at,
            decreases m - j,
        {
            proof {
                assert(changes.skip(j as int)[0] == changes[j as int]);
            }
            let k = diff.metadata_changes.key_at(j).clone();
            let v = diff.metadata_changes.value_at(j).clone();
            self.metadata.insert(k, v);
            proof {
                assert(changes.skip(j as int).skip(1) =~= changes.skip(j as int + 1));
            }
            j = j + 1;
        }
        proof {
            assert(changes.skip(m as int) =~= Seq::<(Seq<char>, MetaVal)>::empty());
        }
    }
}

/// The record of what changed between two contexts.
#[derive(Debug)]
pub struct ContextDiff {
    pub added_messages: Vec<Message>,
    pub removed_messages: Vec<Message>,
    pub metadata_changes: MetaMap,
}

impl ContextDiff {
    /// Whether the diff records no change at all.
    pub fn is_empty(&self) -> (r: bool)
        ensures
            r == (self.added_messages@.len() == 0 && self.removed_messages@.len() == 0
                && self.metadata_changes.kv().len() == 0),
    {
        self.added_messages.is_empty() && self.removed_messages.is_empty()
            && self.metadata_changes.len() == 0
    }
}

} // verus!
