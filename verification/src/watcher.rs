//! The registry of workspace watchers: one watcher for each watched workspace, shared by all who
//! asked for it, and a token for each request.
//!
//! The registry is generic in `W`, what keeps a watch alive. Dropping a `W` ends the watch, so the
//! registry hands it out when the last token of its workspace is given back.

use std::collections::hash_map::DefaultHasher;
use std::collections::HashMap;
use std::hash::{Hash, Hasher};

use vstd::prelude::*;
use vstd::std_specs::hash::DefaultHasherAdditionalSpecFns;

use crate::numbers::{hex16, is_small_hex_digit, law_hex16_reads_back, parse_hex};
use crate::numbers::{hex_number, law_hex_is_read_exactly};
use crate::numbers::{parsed_hex, to_hex16};
use crate::text::{concat2, concat3, first_at, first_position, lemma_first_at};
use crate::text::{same_text, slice, to_chars};

verus! {

// ---------------------------------------------------------------------------------------------
// Event keys
// ---------------------------------------------------------------------------------------------
/// What hashing a string writes to a hasher, write by write.
pub uninterp spec fn text_writes(text: Seq<char>) -> Seq<Seq<u8>>;

/// Feeds a string to a hasher with `<str as Hash>::hash`. The writes depend on the string alone and
/// come behind those that the hasher has seen before.
#[verifier::external_body]
fn hash_text(text: &str, hasher: &mut DefaultHasher)
    ensures
        final(hasher)@ == old(hasher)@ + text_writes(text@),
{
    text.hash(hasher);
}

/// The event key of a workspace path: the sixteen-digit form of its hash.
pub open spec fn event_key_of(workspace_path: Seq<char>) -> Seq<char> {
    hex16(DefaultHasher::spec_finish(text_writes(workspace_path)))
}

/// The event-name suffix for a workspace path: the same for the same path, and safe to embed in an
/// event name.
pub fn event_key_for_workspace(workspace_path: &str) -> (key: String)
    ensures
        key@ == event_key_of(workspace_path@),
        key@.len() == 16,
        forall|i: int| 0 <= i < 16 ==> is_small_hex_digit(#[trigger] key@[i]),
{
    let mut hasher = DefaultHasher::new();
    hash_text(workspace_path, &mut hasher);
    assert(hasher@ =~= text_writes(workspace_path@));
    let key = to_hex16(hasher.finish());
    proof {
        law_hex16_reads_back(DefaultHasher::spec_finish(text_writes(workspace_path@)));
    }
    key
}

// ---------------------------------------------------------------------------------------------
// Tokens
// ---------------------------------------------------------------------------------------------
/// The text of a token: the nonce of the process and the number of the request.
pub open spec fn token_text(nonce: u64, counter: u64) -> Seq<char> {
    hex16(nonce) + "-"@ + hex16(counter)
}

/// The text of a token.
pub fn format_token(nonce: u64, counter: u64) -> (token: String)
    ensures
        token@ == token_text(nonce, counter),
{
    concat3(to_hex16(nonce).as_str(), "-", to_hex16(counter).as_str())
}

/// The number in a token of this process: the hexadecimal number behind the first dash, where the
/// one before it is the nonce.
pub open spec fn token_counter(token: Seq<char>, nonce: u64) -> Option<u64> {
    match first_at(token, '-') {
        Some(i) => if parsed_hex(token.subrange(0, i)) == Some(nonce) {
            parsed_hex(token.subrange(i + 1, token.len() as int))
        } else {
            None
        },
        None => None,
    }
}

/// Reads the number in a token; a token of another process has none.
pub fn parse_token(token: &str, nonce: u64) -> (counter: Option<u64>)
    ensures
        counter == token_counter(token@, nonce),
{
    let chars = to_chars(token);
    let len: usize = chars.len();
    match first_position(&chars, '-') {
        Some(i) => {
            match parse_hex(&slice(&chars, 0, i)) {
                Some(found) => {
                    if found == nonce {
                        parse_hex(&slice(&chars, i + 1, len))
                    } else {
                        None
                    }
                },
                None => None,
            }
        },
        None => None,
    }
}

proof fn lemma_token_parts(nonce: u64, counter: u64)
    ensures
        ({
            let token = token_text(nonce, counter);
            &&& first_at(token, '-') == Some(16int)
            &&& token.subrange(0, 16) == hex16(nonce)
            &&& token.subrange(17, token.len() as int) == hex16(counter)
        }),
{
    reveal_strlit("-");
    law_hex16_reads_back(nonce);
    law_hex16_reads_back(counter);
    let token = token_text(nonce, counter);
    assert forall|j: int| 0 <= j < 16 implies token[j] != '-' by {
        assert(token[j] == hex16(nonce)[j]);
        assert(is_small_hex_digit(hex16(nonce)[j]));
    }
    lemma_first_at(token, '-', 16);
    assert(token.subrange(0, 16) =~= hex16(nonce));
    assert(token.subrange(17, token.len() as int) =~= hex16(counter));
}

/// A token gives its number back to the process that issued it.
pub proof fn law_token_round_trip(nonce: u64, counter: u64)
    ensures
        token_counter(token_text(nonce, counter), nonce) == Some(counter),
{
    lemma_token_parts(nonce, counter);
    law_hex16_reads_back(nonce);
    law_hex16_reads_back(counter);
}

/// A token of one process means nothing to a process with another nonce.
pub proof fn law_foreign_token_is_rejected(foreign: u64, nonce: u64, counter: u64)
    requires
        foreign != nonce,
    ensures
        token_counter(token_text(foreign, counter), nonce) is None,
{
    lemma_token_parts(foreign, counter);
    law_hex16_reads_back(foreign);
}

/// Different requests of one process have different tokens.
pub proof fn law_tokens_are_distinct(nonce: u64, a: u64, b: u64)
    requires
        token_text(nonce, a) == token_text(nonce, b),
    ensures
        a == b,
{
    law_token_round_trip(nonce, a);
    law_token_round_trip(nonce, b);
}

// ---------------------------------------------------------------------------------------------
// The registry
// ---------------------------------------------------------------------------------------------
/// What a requester keeps: the token to give back, and the event to listen for.
#[derive(Debug)]
pub struct WatchHandle {
    pub token: String,
    pub event_key: String,
}

/// A [`WatchHandle`] with its texts as character sequences.
#[verifier::ext_equal]
pub struct HandleView {
    pub token: Seq<char>,
    pub event_key: Seq<char>,
}

impl View for WatchHandle {
    type V = HandleView;

    open spec fn view(&self) -> HandleView {
        HandleView { token: self.token@, event_key: self.event_key@ }
    }
}

/// A watcher and how many requests share it.
pub struct WatcherEntry<W> {
    pub event_key: String,
    pub refs: usize,
    pub watcher: W,
}

/// The watchers that are active, and the requests that are outstanding.
pub struct WorkspaceWatchers<W> {
    /// One entry for each watched workspace; no event key occurs twice.
    pub inner: Vec<WatcherEntry<W>>,
    /// The event key that each outstanding request asked for.
    pub token_index: HashMap<u64, String>,
    /// The number of the next request.
    pub next_token: u64,
}

/// The registry as maps: for each event key the count and the watcher, for each outstanding request
/// its event key.
#[verifier::ext_equal]
pub struct WatchersView<W> {
    pub entries: Map<Seq<char>, (nat, W)>,
    pub tokens: Map<u64, Seq<char>>,
    pub next_token: u64,
}

/// The entry at position `i` has this event key.
pub open spec fn key_at<W>(v: Seq<WatcherEntry<W>>, i: int, key: Seq<char>) -> bool {
    0 <= i < v.len() && v[i].event_key@ == key
}

/// No event key occurs twice.
pub open spec fn keys_distinct<W>(v: Seq<WatcherEntry<W>>) -> bool {
    forall|i: int, j: int, key: Seq<char>|
        key_at(v, i, key) && key_at(v, j, key) ==> i == j
}

/// The entries as a map from event keys.
pub open spec fn entry_map<W>(v: Seq<WatcherEntry<W>>) -> Map<Seq<char>, (nat, W)> {
    Map::new(
        |key: Seq<char>| exists|i: int| key_at(v, i, key),
        |key: Seq<char>|
            {
                let i = choose|i: int| key_at(v, i, key);
                (v[i].refs as nat, v[i].watcher)
            },
    )
}

impl<W> View for WorkspaceWatchers<W> {
    type V = WatchersView<W>;

    open spec fn view(&self) -> WatchersView<W> {
        WatchersView {
            entries: entry_map(self.inner@),
            tokens: self.token_index@.map_values(|key: String| key@),
            next_token: self.next_token,
        }
    }
}

impl<W> WorkspaceWatchers<W> {
    /// The list of entries is a map.
    pub open spec fn is_map(&self) -> bool {
        keys_distinct(self.inner@)
    }

    /// One more request can be counted.
    pub open spec fn has_room(&self) -> bool {
        &&& self.next_token < u64::MAX
        &&& forall|i: int| 0 <= i < self.inner@.len() ==> (#[trigger] self.inner@[i]).refs < usize::MAX
    }

    /// Whether one more request can be counted.
    pub fn room(&self) -> (r: bool)
        ensures
            r == self.has_room(),
    {
        if self.next_token == u64::MAX {
            return false;
        }
        let mut i: usize = 0;
        while i < self.inner.len()
            invariant
                i <= self.inner@.len(),
                forall|k: int| 0 <= k < i ==> (#[trigger] self.inner@[k]).refs < usize::MAX,
            decreases self.inner@.len() - i,
        {
            if self.inner[i].refs == usize::MAX {
                return false;
            }
            i = i + 1;
        }
        true
    }

    /// Finds the entry of an event key.
    fn position(&self, key: &str) -> (r: Option<usize>)
        ensures
            match r {
                Some(i) => key_at(self.inner@, i as int, key@) && self@.entries.contains_key(key@),
                None => !self@.entries.contains_key(key@),
            },
    {
        let mut i: usize = 0;
        while i < self.inner.len()
            invariant
                i <= self.inner@.len(),
                forall|k: int| 0 <= k < i ==> !#[trigger] key_at(self.inner@, k, key@),
            decreases self.inner@.len() - i,
        {
            if same_text(self.inner[i].event_key.as_str(), key) {
                assert(key_at(self.inner@, i as int, key@));
                return Some(i);
            }
            i = i + 1;
        }
        None
    }
}

impl<W> Default for WorkspaceWatchers<W> {
    fn default() -> (r: WorkspaceWatchers<W>)
        ensures
            r.is_map(),
            r@ == (WatchersView::<W> {
                entries: Map::empty(),
                tokens: Map::empty(),
                next_token: 0,
            }),
    {
        let r = WorkspaceWatchers { inner: Vec::new(), token_index: HashMap::new(), next_token: 0 };
        assert(r@.entries =~= Map::empty());
        assert(r@.tokens =~= Map::empty());
        r
    }
}

proof fn lemma_entry<W>(v: Seq<WatcherEntry<W>>, i: int)
    requires
        keys_distinct(v),
        0 <= i < v.len(),
    ensures
        entry_map(v).contains_key(v[i].event_key@),
        entry_map(v)[v[i].event_key@] == (v[i].refs as nat, v[i].watcher),
{
    let key = v[i].event_key@;
    assert(key_at(v, i, key));
    let j = choose|j: int| key_at(v, j, key);
    assert(key_at(v, j, key));
}

proof fn lemma_push_entry<W>(v: Seq<WatcherEntry<W>>, e: WatcherEntry<W>)
    requires
        keys_distinct(v),
        !entry_map(v).contains_key(e.event_key@),
    ensures
        keys_distinct(v.push(e)),
        entry_map(v.push(e)) == entry_map(v).insert(e.event_key@, (e.refs as nat, e.watcher)),
{
    let w = v.push(e);
    let key = e.event_key@;
    assert forall|i: int, j: int, k: Seq<char>| key_at(w, i, k) && key_at(w, j, k) implies i
        == j by {
        if i < v.len() {
            assert(key_at(v, i, k));
        }
        if j < v.len() {
            assert(key_at(v, j, k));
        }
    }
    let left = entry_map(w);
    let right = entry_map(v).insert(key, (e.refs as nat, e.watcher));
    assert forall|k: Seq<char>| left.contains_key(k) == right.contains_key(k) by {
        if left.contains_key(k) {
            let i = choose|i: int| key_at(w, i, k);
            if i < v.len() {
                assert(key_at(v, i, k));
            }
        }
        if entry_map(v).contains_key(k) {
            let i = choose|i: int| key_at(v, i, k);
            assert(key_at(w, i, k));
        }
        if k == key {
            assert(key_at(w, v.len() as int, k));
        }
    }
    assert forall|k: Seq<char>| left.contains_key(k) implies left[k] == right[k] by {
        let i = choose|i: int| key_at(w, i, k);
        lemma_entry(w, i);
        if i < v.len() {
            assert(key_at(v, i, k));
            lemma_entry(v, i);
        }
    }
    assert(left =~= right);
}

proof fn lemma_remove_entry<W>(v: Seq<WatcherEntry<W>>, at: int)
    requires
        keys_distinct(v),
        0 <= at < v.len(),
    ensures
        keys_distinct(v.remove(at)),
        entry_map(v.remove(at)) == entry_map(v).remove(v[at].event_key@),
{
    let w = v.remove(at);
    let key = v[at].event_key@;
    assert forall|i: int, k: Seq<char>| #[trigger] key_at(w, i, k) implies key_at(
        v,
        if i < at {
            i
        } else {
            i + 1
        },
        k,
    ) by {}
    assert forall|i: int, j: int, k: Seq<char>| key_at(w, i, k) && key_at(w, j, k) implies i
        == j by {
        assert(key_at(
            v,
            if i < at {
                i
            } else {
                i + 1
            },
            k,
        ));
        assert(key_at(
            v,
            if j < at {
                j
            } else {
                j + 1
            },
            k,
        ));
    }
    let left = entry_map(w);
    let right = entry_map(v).remove(key);
    assert(key_at(v, at, key));
    assert forall|k: Seq<char>| left.contains_key(k) == right.contains_key(k) by {
        if left.contains_key(k) {
            let i = choose|i: int| key_at(w, i, k);
            let o = if i < at {
                i
            } else {
                i + 1
            };
            assert(key_at(v, o, k));
        }
        if entry_map(v).contains_key(k) && k != key {
            let i = choose|i: int| key_at(v, i, k);
            let o = if i < at {
                i
            } else {
                i - 1
            };
            assert(key_at(w, o, k));
        }
    }
    assert forall|k: Seq<char>| left.contains_key(k) implies left[k] == right[k] by {
        let i = choose|i: int| key_at(w, i, k);
        lemma_entry(w, i);
        let o = if i < at {
            i
        } else {
            i + 1
        };
        assert(key_at(v, o, k));
        lemma_entry(v, o);
    }
    assert(left =~= right);
}

// ---------------------------------------------------------------------------------------------
// Starting and stopping
// ---------------------------------------------------------------------------------------------
impl<W> WatchersView<W> {
    /// A number has been given out.
    pub open spec fn issued(self) -> WatchersView<W> {
        WatchersView { next_token: (self.next_token + 1) as u64, ..self }
    }

    /// A request has joined the watcher of this event key.
    pub open spec fn joined(self, key: Seq<char>, number: u64) -> WatchersView<W> {
        WatchersView {
            entries: self.entries.insert(key, (self.entries[key].0 + 1, self.entries[key].1)),
            tokens: self.tokens.insert(number, key),
            ..self
        }
    }

    /// A request has brought a new watcher for this event key.
    pub open spec fn installed(self, key: Seq<char>, number: u64, watcher: W) -> WatchersView<W> {
        WatchersView {
            entries: self.entries.insert(key, (1, watcher)),
            tokens: self.tokens.insert(number, key),
            ..self
        }
    }

    /// A request has ended: its token is gone, and its watcher has one request fewer or is gone with
    /// the last one. Nothing changes for a number that is not outstanding.
    pub open spec fn stopped(self, number: u64) -> WatchersView<W> {
        if !self.tokens.contains_key(number) {
            self
        } else {
            let key = self.tokens[number];
            WatchersView {
                entries: if !self.entries.contains_key(key) {
                    self.entries
                } else if self.entries[key].0 > 1 {
                    self.entries.insert(
                        key,
                        ((self.entries[key].0 - 1) as nat, self.entries[key].1),
                    )
                } else {
                    self.entries.remove(key)
                },
                tokens: self.tokens.remove(number),
                ..self
            }
        }
    }

    /// The watcher that ends with this request: that of its event key, where no other request shares
    /// it.
    pub open spec fn released(self, number: u64) -> Option<W> {
        if self.tokens.contains_key(number) && self.entries.contains_key(self.tokens[number])
            && self.entries[self.tokens[number]].0 <= 1 {
            Some(self.entries[self.tokens[number]].1)
        } else {
            None
        }
    }

    /// The outstanding requests for an event key.
    pub open spec fn requests(self, key: Seq<char>) -> Set<u64> {
        self.tokens.dom().filter(|number: u64| self.tokens[number] == key)
    }

    /// Every watcher is shared by exactly the outstanding requests for its event key, at least one;
    /// every outstanding request has a watcher; and no outstanding request has a number that is
    /// still to be given out.
    pub open spec fn is_consistent(self) -> bool {
        &&& self.tokens.dom().finite()
        &&& forall|key: Seq<char>| #[trigger]
            self.entries.contains_key(key) ==> self.entries[key].0 == self.requests(key).len()
                && self.entries[key].0 > 0
        &&& forall|number: u64| #[trigger]
            self.tokens.contains_key(number) ==> self.entries.contains_key(self.tokens[number])
                && number < self.next_token
    }
}

/// The name of the event that tells of changes in a workspace.
pub open spec fn event_name_of(event_key: Seq<char>) -> Seq<char> {
    "workspace:files-changed:"@ + event_key
}

/// The name of the thread that waits for changes in a workspace.
pub open spec fn thread_name_of(event_key: Seq<char>) -> Seq<char> {
    "ws-watcher:"@ + event_key.subrange(0, 8)
}

/// A request that needs a new watcher.
#[derive(Debug)]
pub struct PendingWatch {
    /// The number of the request.
    pub number: u64,
    /// What the requester will keep.
    pub handle: WatchHandle,
    /// The event to emit on every change.
    pub event_name: String,
    /// The name for the thread that waits for changes.
    pub thread_name: String,
}

/// How a request for a watch goes on.
#[derive(Debug)]
pub enum WatchStart {
    /// The workspace was not accepted, with the message that says why.
    Refused(String),
    /// A watcher is there already and is shared.
    Shared(WatchHandle),
    /// A watcher has to be created.
    Create(PendingWatch),
}

/// What can go wrong when a watcher is created, with the message of the cause.
#[derive(Debug)]
pub enum WatchFailure {
    Debouncer(String),
    Watch(String),
    Thread(String),
}

/// The message for a watcher that could not be created.
pub open spec fn failure_text(failure: WatchFailure) -> Seq<char> {
    match failure {
        WatchFailure::Debouncer(e) => "create debouncer failed: "@ + e@,
        WatchFailure::Watch(e) => "watch workspace failed: "@ + e@,
        WatchFailure::Thread(e) => "spawn watcher thread failed: "@ + e@,
    }
}

/// Begins a watch of a workspace, given the outcome of checking its path. A number is given out; an
/// active watcher of the workspace is shared, else one has to be created.
pub fn cmd_workspace_watch_start<W>(
    state: &mut WorkspaceWatchers<W>,
    nonce: u64,
    workspace_root: Result<String, String>,
) -> (r: WatchStart)
    requires
        old(state).is_map(),
        old(state).has_room(),
    ensures
        final(state).is_map(),
        old(state)@.is_consistent() ==> final(state)@.is_consistent(),
        match workspace_root {
            Err(e) => *final(state) == *old(state) && r == WatchStart::Refused(e),
            Ok(root) => {
                let number = old(state)@.next_token;
                let key = event_key_of(root@);
                let handle = HandleView { token: token_text(nonce, number), event_key: key };
                if old(state)@.entries.contains_key(key) {
                    &&& final(state)@ == old(state)@.issued().joined(key, number)
                    &&& r matches WatchStart::Shared(h) && h@ == handle
                } else {
                    &&& final(state)@ == old(state)@.issued()
                    &&& r matches WatchStart::Create(p) && {
                        &&& p.number == number
                        &&& p.handle@ == handle
                        &&& p.event_name@ == event_name_of(key)
                        &&& p.thread_name@ == thread_name_of(key)
                    }
                }
            },
        },
{
    let root = match workspace_root {
        Err(e) => {
            return WatchStart::Refused(e);
        },
        Ok(root) => root,
    };
    let event_key = event_key_for_workspace(root.as_str());
    let number: u64 = state.next_token;
    state.next_token = number + 1;
    assert(state@ == old(state)@.issued());
    proof {
        if old(state)@.is_consistent() {
            law_issue_keeps_consistency(old(state)@);
            if old(state)@.entries.contains_key(event_key@) {
                law_join_keeps_consistency(old(state)@, event_key@);
            }
        }
    }
    let token = format_token(nonce, number);
    match state.position(event_key.as_str()) {
        Some(i) => {
            let ghost before = state.inner@;
            proof {
                lemma_entry(before, i as int);
                lemma_remove_entry(before, i as int);
            }
            let mut entry = state.inner.remove(i);
            entry.refs = entry.refs + 1;
            proof {
                lemma_push_entry(state.inner@, entry);
            }
            state.inner.push(entry);
            state.token_index.insert(number, event_key.clone());
            proof {
                let now = old(state)@.issued().joined(event_key@, number);
                assert(state@.entries =~= now.entries);
                assert(state@.tokens =~= now.tokens);
            }
            WatchStart::Shared(WatchHandle { token, event_key })
        },
        None => {
            let event_name = concat2("workspace:files-changed:", event_key.as_str());
            let short = event_key.as_str().substring_char(0, 8);
            let thread_name = concat2("ws-watcher:", short);
            WatchStart::Create(
                PendingWatch {
                    number,
                    handle: WatchHandle { token, event_key },
                    event_name,
                    thread_name,
                },
            )
        },
    }
}

/// Ends the creation of a watcher: a watcher that was created is registered under the pending
/// request; where it failed, nothing is registered.
pub fn cmd_workspace_watch_created<W>(
    state: &mut WorkspaceWatchers<W>,
    pending: PendingWatch,
    created: Result<W, WatchFailure>,
) -> (r: Result<WatchHandle, String>)
    requires
        old(state).is_map(),
    ensures
        final(state).is_map(),
        old(state)@.is_consistent() && pending.number < old(state)@.next_token && !old(
            state,
        )@.tokens.contains_key(pending.number) && !old(state)@.entries.contains_key(
            pending.handle.event_key@,
        ) ==> final(state)@.is_consistent(),
        match created {
            Err(failure) => *final(state) == *old(state) && (r matches Err(e) && e@
                == failure_text(failure)),
            Ok(watcher) => final(state)@ == old(state)@.installed(
                pending.handle.event_key@,
                pending.number,
                watcher,
            ) && r == Ok::<WatchHandle, String>(pending.handle),
        },
{
    let watcher = match created {
        Err(failure) => {
            return Err(
                match failure {
                    WatchFailure::Debouncer(e) => concat2("create debouncer failed: ", e.as_str()),
                    WatchFailure::Watch(e) => concat2("watch workspace failed: ", e.as_str()),
                    WatchFailure::Thread(e) => concat2("spawn watcher thread failed: ", e.as_str()),
                },
            );
        },
        Ok(watcher) => watcher,
    };
    let key = pending.handle.event_key.clone();
    match state.position(key.as_str()) {
        Some(i) => {
            let ghost before = state.inner@;
            proof {
                lemma_entry(before, i as int);
                lemma_remove_entry(before, i as int);
            }
            state.inner.remove(i);
        },
        None => {},
    }
    let entry = WatcherEntry { event_key: key.clone(), refs: 1, watcher };
    proof {
        lemma_push_entry(state.inner@, entry);
    }
    state.inner.push(entry);
    state.token_index.insert(pending.number, key);
    proof {
        let now = old(state)@.installed(pending.handle.event_key@, pending.number, watcher);
        if old(state)@.is_consistent() && pending.number < old(state)@.next_token && !old(
            state,
        )@.tokens.contains_key(pending.number) && !old(state)@.entries.contains_key(
            pending.handle.event_key@,
        ) {
            law_install_keeps_consistency(
                old(state)@,
                pending.handle.event_key@,
                pending.number,
                watcher,
            );
        }
        assert(state@.entries =~= now.entries);
        assert(state@.tokens =~= now.tokens);
    }
    Ok(pending.handle)
}

/// Ends a watch, given its token. Returns the watcher where this was the last request for it; a
/// token that is malformed, foreign, unknown or used before changes nothing.
pub fn cmd_workspace_watch_stop<W>(
    state: &mut WorkspaceWatchers<W>,
    nonce: u64,
    token: &str,
) -> (released: Option<W>)
    requires
        old(state).is_map(),
    ensures
        final(state).is_map(),
        old(state)@.is_consistent() ==> final(state)@.is_consistent(),
        match token_counter(token@, nonce) {
            Some(number) => final(state)@ == old(state)@.stopped(number) && released == old(
                state,
            )@.released(number),
            None => *final(state) == *old(state) && released is None,
        },
{
    let number: u64 = match parse_token(token, nonce) {
        Some(number) => number,
        None => {
            return None;
        },
    };
    let key = match state.token_index.remove(&number) {
        Some(key) => key,
        None => {
            assert(state@.tokens =~= old(state)@.tokens);
            return None;
        },
    };
    assert(state@.tokens =~= old(state)@.tokens.remove(number));
    proof {
        if old(state)@.is_consistent() {
            law_stop_keeps_consistency(old(state)@, number);
        }
    }
    match state.position(key.as_str()) {
        Some(i) => {
            let ghost before = state.inner@;
            proof {
                lemma_entry(before, i as int);
                lemma_remove_entry(before, i as int);
            }
            let mut entry = state.inner.remove(i);
            if entry.refs > 1 {
                entry.refs = entry.refs - 1;
                proof {
                    lemma_push_entry(state.inner@, entry);
                }
                state.inner.push(entry);
                assert(state@.entries =~= old(state)@.stopped(number).entries);
                None
            } else {
                assert(state@.entries =~= old(state)@.stopped(number).entries);
                Some(entry.watcher)
            }
        },
        None => None,
    }
}

// ---------------------------------------------------------------------------------------------
// Changes
// ---------------------------------------------------------------------------------------------
/// For how many seconds changes are gathered before they are told of.
pub const DEBOUNCE_SECONDS: u64 = 5;

/// The event to emit for a batch from a watcher, with its payload: one for a batch of changes, whatever
/// they are, with the path of the workspace; none for a batch of errors.
pub fn batch_event(changed: bool, event_name: &str, root: &str) -> (r: Option<(String, String)>)
    ensures
        match r {
            Some((name, payload)) => changed && name@ == event_name@ && payload@ == root@,
            None => !changed,
        },
{
    if changed {
        Some((event_name.to_owned(), root.to_owned()))
    } else {
        None
    }
}

// ---------------------------------------------------------------------------------------------
// Laws of the registry
// ---------------------------------------------------------------------------------------------
/// The empty registry is consistent.
pub proof fn law_empty_is_consistent<W>(v: WatchersView<W>)
    requires
        v.entries == Map::<Seq<char>, (nat, W)>::empty(),
        v.tokens == Map::<u64, Seq<char>>::empty(),
    ensures
        v.is_consistent(),
{
}

proof fn lemma_requests_after_insert<W>(
    v: WatchersView<W>,
    after: WatchersView<W>,
    key: Seq<char>,
    number: u64,
)
    requires
        v.tokens.dom().finite(),
        !v.tokens.contains_key(number),
        after.tokens == v.tokens.insert(number, key),
    ensures
        after.requests(key).len() == v.requests(key).len() + 1,
        forall|other: Seq<char>|
            other != key ==> #[trigger] after.requests(other) == v.requests(other),
{
    assert(after.requests(key) =~= v.requests(key).insert(number));
    assert forall|other: Seq<char>| other != key implies #[trigger] after.requests(other)
        == v.requests(other) by {
        assert(after.requests(other) =~= v.requests(other));
    }
}

/// A request that joins an active watcher keeps the registry consistent.
pub proof fn law_join_keeps_consistency<W>(v: WatchersView<W>, key: Seq<char>)
    requires
        v.is_consistent(),
        v.next_token < u64::MAX,
        v.entries.contains_key(key),
    ensures
        v.issued().joined(key, v.next_token).is_consistent(),
{
    let after = v.issued().joined(key, v.next_token);
    assert(!v.tokens.contains_key(v.next_token));
    lemma_requests_after_insert(v, after, key, v.next_token);
    assert forall|k: Seq<char>| #[trigger] after.entries.contains_key(k) implies after.entries[k].0
        == after.requests(k).len() && after.entries[k].0 > 0 by {
        assert(v.entries.contains_key(k));
    }
    assert forall|n: u64| #[trigger] after.tokens.contains_key(n) implies after.entries.contains_key(
        after.tokens[n],
    ) && n < after.next_token by {
        if n != v.next_token {
            assert(v.tokens.contains_key(n));
        }
    }
}

/// Giving out a number keeps the registry consistent.
pub proof fn law_issue_keeps_consistency<W>(v: WatchersView<W>)
    requires
        v.is_consistent(),
        v.next_token < u64::MAX,
    ensures
        v.issued().is_consistent(),
        !v.issued().tokens.contains_key(v.next_token),
{
    let after = v.issued();
    assert forall|k: Seq<char>| #[trigger] after.entries.contains_key(k) implies after.entries[k].0
        == after.requests(k).len() && after.entries[k].0 > 0 by {
        assert(v.entries.contains_key(k));
        assert(after.requests(k) =~= v.requests(k));
    }
    assert forall|n: u64| #[trigger] after.tokens.contains_key(n) implies after.entries.contains_key(
        after.tokens[n],
    ) && n < after.next_token by {
        assert(v.tokens.contains_key(n));
    }
    assert(!v.tokens.contains_key(v.next_token));
}

/// A request with a number of its own that brings a watcher for a workspace without one keeps the
/// registry consistent.
pub proof fn law_install_keeps_consistency<W>(
    v: WatchersView<W>,
    key: Seq<char>,
    number: u64,
    watcher: W,
)
    requires
        v.is_consistent(),
        number < v.next_token,
        !v.tokens.contains_key(number),
        !v.entries.contains_key(key),
    ensures
        v.installed(key, number, watcher).is_consistent(),
{
    let after = v.installed(key, number, watcher);
    lemma_requests_after_insert(v, after, key, number);
    assert(v.requests(key) =~= Set::empty()) by {
        assert forall|n: u64| !v.requests(key).contains(n) by {
            if v.requests(key).contains(n) {
                assert(v.tokens.contains_key(n));
            }
        }
    }
    assert forall|k: Seq<char>| #[trigger] after.entries.contains_key(k) implies after.entries[k].0
        == after.requests(k).len() && after.entries[k].0 > 0 by {
        if k != key {
            assert(v.entries.contains_key(k));
        }
    }
    assert forall|n: u64| #[trigger] after.tokens.contains_key(n) implies after.entries.contains_key(
        after.tokens[n],
    ) && n < after.next_token by {
        if n != number {
            assert(v.tokens.contains_key(n));
        }
    }
}

/// Ending a request keeps the registry consistent, whatever number is given.
pub proof fn law_stop_keeps_consistency<W>(v: WatchersView<W>, number: u64)
    requires
        v.is_consistent(),
    ensures
        v.stopped(number).is_consistent(),
{
    if v.tokens.contains_key(number) {
        let after = v.stopped(number);
        let key = v.tokens[number];
        assert(after.requests(key) =~= v.requests(key).remove(number));
        assert(v.requests(key).contains(number));
        assert forall|k: Seq<char>| #[trigger] after.entries.contains_key(k) implies after.entries[k].0
            == after.requests(k).len() && after.entries[k].0 > 0 by {
            assert(v.entries.contains_key(k));
            if k != key {
                assert(after.requests(k) =~= v.requests(k));
            }
        }
        assert forall|n: u64| #[trigger]
            after.tokens.contains_key(n) implies after.entries.contains_key(after.tokens[n]) && n
            < after.next_token by {
            assert(v.tokens.contains_key(n));
            if v.tokens[n] == key {
                assert(v.requests(key).contains(n));
                assert(after.requests(key).contains(n));
                assert(after.requests(key).len() > 0);
            }
        }
    }
}

/// Ending a request that joined an active watcher undoes the join and releases nothing.
pub proof fn law_stop_undoes_join<W>(v: WatchersView<W>, key: Seq<char>)
    requires
        v.is_consistent(),
        v.next_token < u64::MAX,
        v.entries.contains_key(key),
    ensures
        v.issued().joined(key, v.next_token).stopped(v.next_token) == v.issued(),
        v.issued().joined(key, v.next_token).released(v.next_token) is None,
{
    assert(!v.tokens.contains_key(v.next_token));
    let back = v.issued().joined(key, v.next_token).stopped(v.next_token);
    assert(back.entries =~= v.entries);
    assert(back.tokens =~= v.tokens);
}

/// Ending the request that brought a watcher undoes it and releases that watcher.
pub proof fn law_stop_undoes_install<W>(v: WatchersView<W>, key: Seq<char>, watcher: W)
    requires
        v.is_consistent(),
        v.next_token < u64::MAX,
        !v.entries.contains_key(key),
    ensures
        v.issued().installed(key, v.next_token, watcher).stopped(v.next_token) == v.issued(),
        v.issued().installed(key, v.next_token, watcher).released(v.next_token) == Some(watcher),
{
    assert(!v.tokens.contains_key(v.next_token));
    let back = v.issued().installed(key, v.next_token, watcher).stopped(v.next_token);
    assert(back.entries =~= v.entries);
    assert(back.tokens =~= v.tokens);
}

/// Ending a request twice is ending it once.
pub proof fn law_second_stop_does_nothing<W>(v: WatchersView<W>, number: u64)
    ensures
        v.stopped(number).stopped(number) == v.stopped(number),
        v.stopped(number).released(number) is None,
{
}

/// A watcher stays as long as another request for its workspace is outstanding, and the watchers of
/// other workspaces stay as they are.
pub proof fn law_stop_spares_the_others<W>(v: WatchersView<W>, number: u64, other: u64)
    requires
        v.is_consistent(),
        number != other,
        v.tokens.contains_key(other),
    ensures
        v.stopped(number).tokens.contains_key(other),
        v.stopped(number).tokens[other] == v.tokens[other],
        v.stopped(number).entries.contains_key(v.tokens[other]),
        v.stopped(number).entries[v.tokens[other]].1 == v.entries[v.tokens[other]].1,
        v.tokens.contains_key(number) && v.tokens[number] == v.tokens[other] ==> v.released(
            number,
        ) is None,
{
    let key = v.tokens[other];
    if v.tokens.contains_key(number) && v.tokens[number] == key {
        let both = v.requests(key);
        assert(both.contains(number));
        assert(both.remove(number).contains(other));
        assert(both.remove(number).len() > 0);
    }
}

/// Ending the only outstanding request for a workspace releases its watcher.
pub proof fn law_last_stop_releases<W>(v: WatchersView<W>, number: u64)
    requires
        v.is_consistent(),
        v.tokens.contains_key(number),
        v.requests(v.tokens[number]) == set![number],
    ensures
        v.released(number) == Some(v.entries[v.tokens[number]].1),
        !v.stopped(number).entries.contains_key(v.tokens[number]),
{
    assert(set![number].len() == 1);
}

// ---------------------------------------------------------------------------------------------
// Laws of texts
// ---------------------------------------------------------------------------------------------
/// An event key is the hash of the workspace path, exactly as it is written, in sixteen small
/// hexadecimal digits.
pub proof fn law_event_key_is_the_hash(path: Seq<char>)
    ensures
        event_key_of(path).len() == 16,
        forall|i: int| 0 <= i < 16 ==> is_small_hex_digit(#[trigger] event_key_of(path)[i]),
        parsed_hex(event_key_of(path)) == Some(DefaultHasher::spec_finish(text_writes(path))),
{
    law_hex16_reads_back(DefaultHasher::spec_finish(text_writes(path)));
}

/// A token is read by its first dash: what stands before it must denote the nonce, and what follows
/// denotes the number. A text without a dash is no token.
pub proof fn law_token_is_read_by_its_dash(before: Seq<char>, behind: Seq<char>, nonce: u64)
    requires
        !before.contains('-'),
    ensures
        token_counter(before + seq!['-'] + behind, nonce) == (if parsed_hex(before) == Some(nonce) {
            parsed_hex(behind)
        } else {
            None
        }),
        token_counter(before, nonce) is None,
{
    let token = before + seq!['-'] + behind;
    let i = before.len() as int;
    assert(token[i] == '-');
    assert forall|j: int| 0 <= j < i implies token[j] != '-' by {
        assert(token[j] == before[j]);
        assert(before.contains(before[j]));
    }
    lemma_first_at(token, '-', i);
    assert(token.subrange(0, i) =~= before);
    assert(token.subrange(i + 1, token.len() as int) =~= behind);
    if let Some(k) = first_at(before, '-') {
        assert(before[k] == '-');
    }
}

/// A token that is accepted holds the number it denotes in hexadecimal digits behind its first dash,
/// so that a changed or a longer token is another number or none.
pub proof fn law_accepted_token_denotes_its_number(
    before: Seq<char>,
    digits: Seq<char>,
    nonce: u64,
    number: u64,
)
    requires
        !before.contains('-'),
        digits.len() > 0 ==> digits[0] != '+',
        token_counter(before + seq!['-'] + digits, nonce) == Some(number),
    ensures
        parsed_hex(before) == Some(nonce),
        digits.len() > 0,
        hex_number(digits) == number,
{
    law_token_is_read_by_its_dash(before, digits, nonce);
    law_hex_is_read_exactly(digits);
}

/// The form of a token: sixteen small hexadecimal digits, a dash, sixteen small hexadecimal digits.
pub proof fn law_token_form(nonce: u64, counter: u64)
    ensures
        token_text(nonce, counter).len() == 33,
        token_text(nonce, counter)[16] == '-',
        forall|i: int|
            0 <= i < 33 && i != 16 ==> is_small_hex_digit(#[trigger] token_text(nonce, counter)[i]),
        parsed_hex(token_text(nonce, counter).subrange(0, 16)) == Some(nonce),
        parsed_hex(token_text(nonce, counter).subrange(17, 33)) == Some(counter),
{
    reveal_strlit("-");
    lemma_token_parts(nonce, counter);
    law_hex16_reads_back(nonce);
    law_hex16_reads_back(counter);
    let token = token_text(nonce, counter);
    assert forall|i: int| 0 <= i < 33 && i != 16 implies is_small_hex_digit(#[trigger] token[i]) by {
        if i < 16 {
            assert(token[i] == hex16(nonce)[i]);
        } else {
            assert(token[i] == hex16(counter)[i - 17]);
        }
    }
}

/// The event of a workspace is named by a fixed beginning and its key, and the thread that waits for
/// its changes by another and the first eight digits of the key.
pub proof fn law_names_are_made_of_the_key(key: Seq<char>)
    requires
        key.len() == 16,
    ensures
        event_name_of(key) == "workspace:files-changed:"@ + key,
        "ws-watcher:"@.is_prefix_of(thread_name_of(key)),
        thread_name_of(key).len() == 19,
        forall|i: int| 0 <= i < 8 ==> #[trigger] thread_name_of(key)[11 + i] == key[i],
{
    reveal_strlit("ws-watcher:");
    assert(thread_name_of(key).subrange(0, 11) =~= "ws-watcher:"@);
}

/// The message for a watcher that could not be created says at which step, and ends with the cause.
pub proof fn law_failure_names_the_step_and_the_cause(failure: WatchFailure)
    ensures
        failure matches WatchFailure::Debouncer(e) ==> failure_text(failure)
            == "create debouncer failed: "@ + e@,
        failure matches WatchFailure::Watch(e) ==> failure_text(failure)
            == "watch workspace failed: "@ + e@,
        failure matches WatchFailure::Thread(e) ==> failure_text(failure)
            == "spawn watcher thread failed: "@ + e@,
{
}

// ---------------------------------------------------------------------------------------------
// Laws of single steps
// ---------------------------------------------------------------------------------------------
/// Numbers are given out one after the other, and giving one out changes nothing else.
pub proof fn law_numbers_follow_each_other<W>(v: WatchersView<W>)
    requires
        v.next_token < u64::MAX,
    ensures
        v.issued().next_token == v.next_token + 1,
        v.issued().entries == v.entries,
        v.issued().tokens == v.tokens,
{
}

/// A request that joins counts one more for its event key, keeps the watcher, is outstanding for that
/// key, and changes nothing for other keys and requests.
pub proof fn law_join_counts_one_more<W>(
    v: WatchersView<W>,
    key: Seq<char>,
    number: u64,
    other: Seq<char>,
    request: u64,
)
    requires
        v.entries.contains_key(key),
        other != key,
        request != number,
    ensures
        ({
            let after = v.joined(key, number);
            &&& after.next_token == v.next_token
            &&& after.entries.contains_key(key)
            &&& after.entries[key].0 == v.entries[key].0 + 1
            &&& after.entries[key].1 == v.entries[key].1
            &&& after.tokens.contains_key(number) && after.tokens[number] == key
            &&& after.entries.contains_key(other) == v.entries.contains_key(other)
            &&& v.entries.contains_key(other) ==> after.entries[other] == v.entries[other]
            &&& after.tokens.contains_key(request) == v.tokens.contains_key(request)
            &&& v.tokens.contains_key(request) ==> after.tokens[request] == v.tokens[request]
        }),
{
}

/// A new watcher counts for the one request that brought it, in the place of any that its event key
/// had, and changes nothing for other keys and requests.
pub proof fn law_new_watcher_counts_once<W>(
    v: WatchersView<W>,
    key: Seq<char>,
    number: u64,
    watcher: W,
    other: Seq<char>,
    request: u64,
)
    requires
        other != key,
        request != number,
    ensures
        ({
            let after = v.installed(key, number, watcher);
            &&& after.next_token == v.next_token
            &&& after.entries.contains_key(key)
            &&& after.entries[key].0 == 1
            &&& after.entries[key].1 == watcher
            &&& after.tokens.contains_key(number) && after.tokens[number] == key
            &&& after.entries.contains_key(other) == v.entries.contains_key(other)
            &&& v.entries.contains_key(other) ==> after.entries[other] == v.entries[other]
            &&& after.tokens.contains_key(request) == v.tokens.contains_key(request)
            &&& v.tokens.contains_key(request) ==> after.tokens[request] == v.tokens[request]
        }),
{
}

/// Ending a request takes that request away and counts one fewer for its event key; the last one takes
/// the watcher along. Other keys and requests stay as they are, and a number that is not outstanding
/// changes nothing.
pub proof fn law_stop_counts_one_fewer<W>(
    v: WatchersView<W>,
    number: u64,
    other: Seq<char>,
    request: u64,
)
    requires
        v.tokens.contains_key(number) ==> other != v.tokens[number],
        request != number,
    ensures
        ({
            let after = v.stopped(number);
            let key = v.tokens[number];
            let shared = v.tokens.contains_key(number) && v.entries.contains_key(key);
            &&& after.next_token == v.next_token
            &&& !v.tokens.contains_key(number) ==> after == v && v.released(number) is None
            &&& !after.tokens.contains_key(number)
            &&& shared && v.entries[key].0 > 1 ==> {
                &&& after.entries.contains_key(key)
                &&& after.entries[key].0 == v.entries[key].0 - 1
                &&& after.entries[key].1 == v.entries[key].1
                &&& v.released(number) is None
            }
            &&& shared && v.entries[key].0 <= 1 ==> !after.entries.contains_key(key) && v.released(
                number,
            ) == Some(v.entries[key].1)
            &&& after.entries.contains_key(other) == v.entries.contains_key(other)
            &&& v.entries.contains_key(other) ==> after.entries[other] == v.entries[other]
            &&& after.tokens.contains_key(request) == v.tokens.contains_key(request)
            &&& v.tokens.contains_key(request) ==> after.tokens[request] == v.tokens[request]
        }),
{
}

/// There is room for a request as long as its number and its count can be written: until the largest
/// number of 64 bits has come up, or the count of a watcher has reached its largest value.
pub proof fn law_room_for_requests<W>(state: WorkspaceWatchers<W>)
    requires
        state.next_token < 0xffff_ffff_ffff_ffff,
        forall|i: int|
            0 <= i < state.inner@.len() ==> (#[trigger] state.inner@[i]).refs < usize::MAX,
    ensures
        state.has_room(),
{
}

} // verus!
