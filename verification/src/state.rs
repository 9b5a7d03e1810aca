//! The tool-call correlation store: a map from client tool-use ids to the
//! upstream function metadata, with time-to-live cleanup.
//!
//! The store here is the sequential core, mutated through `&mut self` so
//! that every operation can state exactly how the map changes. A sharded
//! concurrent map mutated through `&self` cannot carry such a contract
//! here, and a process-global handle cannot stand in this crate; sharing
//! the store across request handlers is therefore the embedding program's
//! concern, and the per-key laws proved here are what any linearizable
//! sharing must preserve.

use crate::json::JsonValue;
use crate::text::str_eq;
use vstd::prelude::*;

verus! {

broadcast use vstd::seq::group_seq_axioms, vstd::std_specs::vec::group_vec_axioms;

/// Relies on `std::time::SystemTime::now`: the current wall-clock time in
/// milliseconds since the epoch. Nothing is promised of the value.
#[verifier::external_body]
fn now_millis() -> u64 {
    std::time::SystemTime::now().duration_since(std::time::UNIX_EPOCH).map(
        |d| d.as_millis() as u64,
    ).unwrap_or(0)
}

/// What the store remembers about one tool call.
pub struct ToolCallMetadata {
    pub function_name: String,
    pub thought_signature: Option<String>,
    pub args: JsonValue,
    pub timestamp_ms: u64,
    pub request_index: u64,
    pub conversation_id: String,
    pub original_id: String,
}

/// The entries among the first `i` that are still young at `now_ms`, in
/// their original order.
pub open spec fn spec_keep_young(
    entries: Seq<(String, ToolCallMetadata)>,
    i: int,
    now_ms: u64,
    retention: u64,
) -> Seq<(String, ToolCallMetadata)>
    decreases i,
{
    if i <= 0 || entries.len() < i {
        Seq::empty()
    } else if entry_young(entries[i - 1], now_ms, retention) {
        spec_keep_young(entries, i - 1, now_ms, retention).push(entries[i - 1])
    } else {
        spec_keep_young(entries, i - 1, now_ms, retention)
    }
}

/// Whether `post` is `pre` with the entries older than `retention` at
/// `now_ms` removed.
pub open spec fn cleaned_at(
    pre: Seq<(String, ToolCallMetadata)>,
    post: Seq<(String, ToolCallMetadata)>,
    now_ms: u64,
    retention: u64,
) -> bool {
    post == spec_keep_young(pre, pre.len() as int, now_ms, retention)
}

/// Time-to-live cleanup: among the entries a cleanup keeps, none is older
/// than the retention — and each kept entry stands in the original list.
pub proof fn lemma_ttl_cleanup(
    entries: Seq<(String, ToolCallMetadata)>,
    i: int,
    now_ms: u64,
    retention: u64,
)
    requires
        0 <= i <= entries.len(),
    ensures
        forall|k: int|
            0 <= k < spec_keep_young(entries, i, now_ms, retention).len() ==> entry_young(
                #[trigger] spec_keep_young(entries, i, now_ms, retention)[k],
                now_ms,
                retention,
            ) && entries.contains(spec_keep_young(entries, i, now_ms, retention)[k]),
    decreases i,
{
    if i > 0 {
        lemma_ttl_cleanup(entries, i - 1, now_ms, retention);
        if !entry_young(entries[i - 1], now_ms, retention) {
            let sub = spec_keep_young(entries, i - 1, now_ms, retention);
            let cur = spec_keep_young(entries, i, now_ms, retention);
            assert(cur == sub);
            assert forall|k: int|
                0 <= k < cur.len() implies entry_young(#[trigger] cur[k], now_ms, retention)
                && entries.contains(cur[k]) by {
                assert(cur[k] == sub[k]);
            }
        }
        if entry_young(entries[i - 1], now_ms, retention) {
            let sub = spec_keep_young(entries, i - 1, now_ms, retention);
            let cur = spec_keep_young(entries, i, now_ms, retention);
            assert(entries.contains(entries[i - 1]));
            assert forall|k: int|
                0 <= k < cur.len() implies entry_young(#[trigger] cur[k], now_ms, retention)
                && entries.contains(cur[k]) by {
                if k < sub.len() {
                    assert(cur[k] == sub[k]);
                } else {
                    assert(cur[k] == entries[i - 1]);
                }
            }
        }
    }
}

/// Whether an entry's age at `now_ms` is within the retention.
pub open spec fn entry_young(e: (String, ToolCallMetadata), now_ms: u64, retention: u64) -> bool {
    !(now_ms >= e.1.timestamp_ms && now_ms - e.1.timestamp_ms > retention)
}

/// The correlation store: tool-use id to metadata, ids unique.
pub struct ConversationState {
    entries: Vec<(String, ToolCallMetadata)>,
    retention_ms: u64,
    request_counter: u64,
}

/// The metadata under `id`, if any: the first match, which uniqueness makes
/// the only one.
pub open spec fn spec_find(
    entries: Seq<(String, ToolCallMetadata)>,
    id: Seq<char>,
) -> Option<ToolCallMetadata>
    decreases entries.len(),
{
    if entries.len() == 0 {
        None
    } else if entries[0].0@ == id {
        Some(entries[0].1)
    } else {
        spec_find(entries.skip(1), id)
    }
}

pub open spec fn keys_unique(entries: Seq<(String, ToolCallMetadata)>) -> bool {
    forall|i: int, j: int|
        0 <= i < j < entries.len() ==> (#[trigger] entries[i]).0@ != (#[trigger] entries[j]).0@
}

proof fn lemma_find_skip(entries: Seq<(String, ToolCallMetadata)>, id: Seq<char>, i: int)
    requires
        0 <= i <= entries.len(),
        forall|k: int| 0 <= k < i ==> (#[trigger] entries[k]).0@ != id,
    ensures
        spec_find(entries, id) == spec_find(entries.skip(i), id),
    decreases i,
{
    reveal_with_fuel(spec_find, 3);
    if i > 0 {
        assert(entries.skip(i - 1)[0] == entries[i - 1]);
        assert(entries.skip(i - 1).skip(1) =~= entries.skip(i));
        lemma_find_skip(entries, id, i - 1);
    } else {
        assert(entries.skip(0) =~= entries);
    }
}

impl ConversationState {
    /// The stored entries.
    pub closed spec fn spec_entries(&self) -> Seq<(String, ToolCallMetadata)> {
        self.entries@
    }

    /// How long entries are kept, in milliseconds.
    pub closed spec fn spec_retention_ms(&self) -> u64 {
        self.retention_ms
    }

    /// The request counter's current value.
    pub closed spec fn spec_counter(&self) -> u64 {
        self.request_counter
    }

    /// Ids are unique.
    pub open spec fn wf(&self) -> bool {
        keys_unique(self.spec_entries())
    }

    /// The metadata stored under `id`.
    pub open spec fn spec_lookup(&self, id: Seq<char>) -> Option<ToolCallMetadata> {
        spec_find(self.spec_entries(), id)
    }

    /// An empty store with the default retention of one hour.
    pub fn new() -> (r: ConversationState)
        ensures
            r.spec_entries() == Seq::<(String, ToolCallMetadata)>::empty(),
            r.spec_retention_ms() == 3600000u64,
            r.spec_counter() == 0,
            r.wf(),
    {
        ConversationState { entries: Vec::new(), retention_ms: 3600000, request_counter: 0 }
    }

    /// An empty store with the given retention, in milliseconds.
    pub fn with_retention(retention_ms: u64) -> (r: ConversationState)
        ensures
            r.spec_entries() == Seq::<(String, ToolCallMetadata)>::empty(),
            r.spec_retention_ms() == retention_ms,
            r.spec_counter() == 0,
            r.wf(),
    {
        ConversationState { entries: Vec::new(), retention_ms, request_counter: 0 }
    }

    /// Returns the next request index and advances the counter.
    pub fn next_request_index(&mut self) -> (r: u64)
        ensures
            r == old(self).spec_counter(),
            final(self).spec_counter() == if old(self).spec_counter() < u64::MAX {
                (old(self).spec_counter() + 1) as u64
            } else {
                old(self).spec_counter()
            },
            final(self).spec_entries() == old(self).spec_entries(),
            final(self).spec_retention_ms() == old(self).spec_retention_ms(),
    {
        let r = self.request_counter;
        if self.request_counter < u64::MAX {
            self.request_counter = self.request_counter + 1;
        }
        r
    }

    /// The number of requests counted so far.
    pub fn current_request_count(&self) -> (r: u64)
        ensures
            r == self.spec_counter(),
    {
        self.request_counter
    }

    /// Finds the position of `id` among the entries.
    fn position_of(&self, id: &str) -> (r: Option<usize>)
        ensures
            match r {
                Some(i) => i < self.spec_entries().len() && self.spec_entries()[i as int].0@
                    == id@ && (forall|k: int|
                    0 <= k < i ==> (#[trigger] self.spec_entries()[k]).0@ != id@) && (
                self.spec_lookup(id@) matches Some(m) && m == self.spec_entries()[i as int].1),
                None => self.spec_lookup(id@) is None && forall|k: int|
                    0 <= k < self.spec_entries().len() ==> (#[trigger] self.spec_entries()[
                        k
                    ]).0@ != id@,
            },
    {
        let mut i: usize = 0;
        while i < self.entries.len()
            invariant
                0 <= i <= self.entries@.len(),
                forall|k: int| 0 <= k < i ==> (#[trigger] self.entries@[k]).0@ != id@,
            decreases self.entries@.len() - i,
        {
            if str_eq(self.entries[i].0.as_str(), id) {
                proof {
                    reveal_with_fuel(spec_find, 2);
                    lemma_find_skip(self.entries@, id@, i as int);
                    assert(self.entries@.skip(i as int)[0] == self.entries@[i as int]);
                }
                return Some(i);
            }
            i = i + 1;
        }
        proof {
            lemma_find_skip(self.entries@, id@, self.entries@.len() as int);
            assert(self.entries@.skip(self.entries@.len() as int) =~= Seq::empty());
        }
        None
    }

    /// Inserts or replaces the mapping for `tool_use_id`, stamping the
    /// current time, the next request index, the conversation id (or
    /// `default`) and the original id.
    pub fn register_tool_use_with_context(
        &mut self,
        tool_use_id: String,
        function_name: String,
        thought_signature: Option<String>,
        args: JsonValue,
        conversation_id: Option<String>,
    )
        requires
            old(self).wf(),
        ensures
            final(self).wf(),
            final(self).spec_retention_ms() == old(self).spec_retention_ms(),
            final(self).spec_counter() == if old(self).spec_counter() < u64::MAX {
                (old(self).spec_counter() + 1) as u64
            } else {
                old(self).spec_counter()
            },
            (final(self).spec_lookup(tool_use_id@) matches Some(m) && m.function_name
                == function_name && m.thought_signature == thought_signature && m.args == args
                && m.request_index == old(self).spec_counter() && m.original_id == tool_use_id
                && m.conversation_id@ == (match conversation_id {
                Some(c) => c@,
                None => ("default")@,
            })),
            forall|other: Seq<char>|
                other != tool_use_id@ ==> #[trigger] final(self).spec_lookup(other) == old(
                    self,
                ).spec_lookup(other),
            old(self).spec_lookup(tool_use_id@) is None ==> final(self).spec_entries().len()
                == old(self).spec_entries().len() + 1,
            old(self).spec_lookup(tool_use_id@) is Some ==> final(self).spec_entries().len()
                == old(self).spec_entries().len(),
    {
        let now = now_millis();
        let request_index = self.next_request_index();
        let conv_id = match conversation_id {
            Some(c) => c,
            None => String::from_str("default"),
        };
        let original_id = tool_use_id.clone();
        let meta = ToolCallMetadata {
            function_name,
            thought_signature,
            args,
            timestamp_ms: now,
            request_index,
            conversation_id: conv_id,
            original_id,
        };
        let ghost pre = self.entries@;
        let pos = self.position_of(tool_use_id.as_str());
        match pos {
            Some(i) => {
                let ghost removed = self.entries@[i as int];
                self.entries.remove(i);
                proof {
                    assert forall|k: int, j: int|
                        0 <= k < j < self.entries@.len() implies (#[trigger] self.entries@[
                            k
                        ]).0@ != (#[trigger] self.entries@[j]).0@ by {
                        if k < i {
                            assert(self.entries@[k] == pre[k]);
                        } else {
                            assert(self.entries@[k] == pre[k + 1]);
                        }
                        if j < i {
                            assert(self.entries@[j] == pre[j]);
                        } else {
                            assert(self.entries@[j] == pre[j + 1]);
                        }
                    }
                    assert forall|k: int|
                        0 <= k < self.entries@.len() implies (#[trigger] self.entries@[k]).0@
                        != tool_use_id@ by {
                        if k < i {
                            assert(self.entries@[k] == pre[k]);
                        } else {
                            assert(self.entries@[k] == pre[k + 1]);
                        }
                    }
                }
                let ghost mid = self.entries@;
                self.entries.push((tool_use_id, meta));
                proof {
                    assert forall|a: int, b: int|
                        0 <= a < b < self.entries@.len() implies (#[trigger] self.entries@[
                            a
                        ]).0@ != (#[trigger] self.entries@[b]).0@ by {
                        if b < self.entries@.len() - 1 {
                            assert(self.entries@[a] == mid[a]);
                            assert(self.entries@[b] == mid[b]);
                        } else {
                            assert(self.entries@[a] == mid[a]);
                        }
                    }
                    lemma_find_push(mid, tool_use_id@, self.entries@.last());
                    assert forall|other: Seq<char>|
                        other != tool_use_id@ implies #[trigger] spec_find(
                        self.entries@,
                        other,
                    ) == spec_find(pre, other) by {
                        lemma_find_push_other(mid, other, self.entries@.last());
                        lemma_find_remove(pre, other, i as int);
                    }
                }
            },
            None => {
                self.entries.push((tool_use_id, meta));
                proof {
                    assert forall|a: int, b: int|
                        0 <= a < b < self.entries@.len() implies (#[trigger] self.entries@[
                            a
                        ]).0@ != (#[trigger] self.entries@[b]).0@ by {
                        if b < self.entries@.len() - 1 {
                            assert(self.entries@[a] == pre[a]);
                            assert(self.entries@[b] == pre[b]);
                        } else {
                            assert(self.entries@[a] == pre[a]);
                        }
                    }
                    lemma_find_push(pre, tool_use_id@, self.entries@.last());
                    assert forall|other: Seq<char>|
                        other != tool_use_id@ implies #[trigger] spec_find(
                        self.entries@,
                        other,
                    ) == spec_find(pre, other) by {
                        lemma_find_push_other(pre, other, self.entries@.last());
                    }
                }
            },
        }
    }

    /// Registers a tool use with no conversation id.
    pub fn register_tool_use(
        &mut self,
        tool_use_id: String,
        function_name: String,
        thought_signature: Option<String>,
        args: JsonValue,
    )
        requires
            old(self).wf(),
        ensures
            final(self).wf(),
            final(self).spec_retention_ms() == old(self).spec_retention_ms(),
            final(self).spec_counter() == if old(self).spec_counter() < u64::MAX {
                (old(self).spec_counter() + 1) as u64
            } else {
                old(self).spec_counter()
            },
            (final(self).spec_lookup(tool_use_id@) matches Some(m) && m.function_name
                == function_name && m.thought_signature == thought_signature && m.args == args
                && m.request_index == old(self).spec_counter() && m.original_id == tool_use_id
                && m.conversation_id@ == ("default")@),
            forall|other: Seq<char>|
                other != tool_use_id@ ==> #[trigger] final(self).spec_lookup(other) == old(
                    self,
                ).spec_lookup(other),
            old(self).spec_lookup(tool_use_id@) is None ==> final(self).spec_entries().len()
                == old(self).spec_entries().len() + 1,
            old(self).spec_lookup(tool_use_id@) is Some ==> final(self).spec_entries().len()
                == old(self).spec_entries().len(),
    {
        self.register_tool_use_with_context(
            tool_use_id,
            function_name,
            thought_signature,
            args,
            None,
        );
    }

    /// The function name registered under `tool_use_id`.
    pub fn get_function_name(&self, tool_use_id: &str) -> (r: Option<String>)
        ensures
            match r {
                Some(name) => self.spec_lookup(tool_use_id@) matches Some(m)
                    && m.function_name@ == name@,
                None => self.spec_lookup(tool_use_id@) is None,
            },
    {
        match self.position_of(tool_use_id) {
            Some(i) => Some(self.entries[i].1.function_name.clone()),
            None => None,
        }
    }

    /// A copy of the metadata registered under `tool_use_id`.
    pub fn get_metadata(&self, tool_use_id: &str) -> (r: Option<ToolCallMetadata>)
        ensures
            match r {
                Some(m) => (self.spec_lookup(tool_use_id@) matches Some(m0)
                    && m.function_name@ == m0.function_name@ && m.thought_signature
                    == m0.thought_signature && m.args@ == m0.args@ && m.timestamp_ms
                    == m0.timestamp_ms && m.request_index == m0.request_index
                    && m.conversation_id@ == m0.conversation_id@ && m.original_id@
                    == m0.original_id@),
                None => self.spec_lookup(tool_use_id@) is None,
            },
    {
        match self.position_of(tool_use_id) {
            Some(i) => {
                let m = &self.entries[i].1;
                Some(ToolCallMetadata {
                    function_name: m.function_name.clone(),
                    thought_signature: match &m.thought_signature {
                        Some(s) => Some(s.clone()),
                        None => None,
                    },
                    args: m.args.duplicate(),
                    timestamp_ms: m.timestamp_ms,
                    request_index: m.request_index,
                    conversation_id: m.conversation_id.clone(),
                    original_id: m.original_id.clone(),
                })
            },
            None => None,
        }
    }

    /// How many tool calls are tracked.
    pub fn len(&self) -> (r: usize)
        ensures
            r == self.spec_entries().len(),
    {
        self.entries.len()
    }

    /// Whether nothing is tracked.
    pub fn is_empty(&self) -> (r: bool)
        ensures
            r == (self.spec_entries().len() == 0),
    {
        self.entries.len() == 0
    }

    /// Drops every mapping and resets the request counter.
    pub fn clear(&mut self)
        ensures
            final(self).spec_entries() == Seq::<(String, ToolCallMetadata)>::empty(),
            final(self).spec_counter() == 0,
            final(self).spec_retention_ms() == old(self).spec_retention_ms(),
            final(self).wf(),
    {
        self.entries = Vec::new();
        self.request_counter = 0;
    }

    /// Removes every entry whose age at `now_ms` exceeds the retention;
    /// returns how many were removed. Afterwards the young entries remain,
    /// untouched and in order, and nothing else does.
    pub fn cleanup_older_than(&mut self, now_ms: u64) -> (removed: usize)
        requires
            old(self).wf(),
        ensures
            final(self).wf(),
            final(self).spec_retention_ms() == old(self).spec_retention_ms(),
            final(self).spec_counter() == old(self).spec_counter(),
            cleaned_at(
                old(self).spec_entries(),
                final(self).spec_entries(),
                now_ms,
                old(self).spec_retention_ms(),
            ),
            removed == old(self).spec_entries().len() - final(self).spec_entries().len(),
            forall|k: int|
                0 <= k < final(self).spec_entries().len() ==> entry_young(
                    #[trigger] final(self).spec_entries()[k],
                    now_ms,
                    old(self).spec_retention_ms(),
                ),
    {
        let ghost pre = self.entries@;
        let retention = self.retention_ms;
        let pre_len = self.entries.len();
        let mut i: usize = 0;
        let ghost mut j: int = 0;
        proof {
            assert(pre.take(0) =~= spec_keep_young(pre, 0, now_ms, retention));
            assert(pre.skip(0) =~= pre);
        }
        while i < self.entries.len()
            invariant
                self.wf(),
                retention == self.retention_ms,
                self.spec_retention_ms() == old(self).spec_retention_ms(),
                self.spec_counter() == old(self).spec_counter(),
                0 <= i <= self.entries@.len(),
                0 <= j <= pre.len(),
                self.entries@.len() <= pre.len(),
                self.entries@.len() - i == pre.len() - j,
                self.entries@.take(i as int) == spec_keep_young(pre, j, now_ms, retention),
                self.entries@.skip(i as int) == pre.skip(j),
            decreases pre.len() - j,
        {
            let ghost mid = self.entries@;
            proof {
                assert(mid.skip(i as int)[0] == mid[i as int]);
                assert(pre.skip(j)[0] == pre[j]);
                assert(mid[i as int] == pre[j]);
            }
            let e = &self.entries[i];
            let young = !(now_ms >= e.1.timestamp_ms && now_ms - e.1.timestamp_ms > retention);
            if young {
                i = i + 1;
                proof {
                    j = j + 1;
                    assert(mid.take(i as int) =~= mid.take(i - 1).push(mid[i - 1]));
                    assert(mid.skip(i as int) =~= mid.skip(i - 1).skip(1));
                    assert(pre.skip(j) =~= pre.skip(j - 1).skip(1));
                }
            } else {
                self.entries.remove(i);
                proof {
                    j = j + 1;
                    assert(self.entries@.take(i as int) =~= mid.take(i as int));
                    assert(self.entries@.skip(i as int) =~= mid.skip(i as int).skip(1));
                    assert(pre.skip(j) =~= pre.skip(j - 1).skip(1));
                    assert forall|a: int, b: int|
                        0 <= a < b < self.entries@.len() implies (#[trigger] self.entries@[
                            a
                        ]).0@ != (#[trigger] self.entries@[b]).0@ by {
                        if a < i {
                            assert(self.entries@[a] == mid[a]);
                        } else {
                            assert(self.entries@[a] == mid[a + 1]);
                        }
                        if b < i {
                            assert(self.entries@[b] == mid[b]);
                        } else {
                            assert(self.entries@[b] == mid[b + 1]);
                        }
                    }
                }
            }
        }
        proof {
            assert(j == pre.len());
            assert(self.entries@.take(i as int) =~= self.entries@);
            lemma_ttl_cleanup(pre, pre.len() as int, now_ms, retention);
        }
        pre_len - self.entries.len()
    }

    /// Removes every entry older than the retention at the clock's current
    /// time; returns how many were removed together with the clock reading
    /// it used, so that the new state is pinned to that very reading. For a
    /// cleanup against a time of your choosing, see
    /// [`Self::cleanup_older_than`].
    pub fn cleanup_old_entries(&mut self) -> (r: (usize, u64))
        requires
            old(self).wf(),
        ensures
            final(self).wf(),
            final(self).spec_retention_ms() == old(self).spec_retention_ms(),
            final(self).spec_counter() == old(self).spec_counter(),
            cleaned_at(
                old(self).spec_entries(),
                final(self).spec_entries(),
                r.1,
                old(self).spec_retention_ms(),
            ),
            r.0 == old(self).spec_entries().len() - final(self).spec_entries().len(),
            forall|k: int|
                0 <= k < final(self).spec_entries().len() ==> entry_young(
                    #[trigger] final(self).spec_entries()[k],
                    r.1,
                    old(self).spec_retention_ms(),
                ),
    {
        let now = now_millis();
        let removed = self.cleanup_older_than(now);
        (removed, now)
    }

    /// Whether the entry under `tool_use_id` still carries that very id as
    /// its original id.
    pub fn verify_round_trip(&self, tool_use_id: &str) -> (r: bool)
        ensures
            r == (self.spec_lookup(tool_use_id@) matches Some(m) && m.original_id@
                == tool_use_id@),
    {
        match self.position_of(tool_use_id) {
            Some(i) => str_eq(self.entries[i].1.original_id.as_str(), tool_use_id),
            None => false,
        }
    }
}

proof fn lemma_find_push(
    entries: Seq<(String, ToolCallMetadata)>,
    id: Seq<char>,
    last: (String, ToolCallMetadata),
)
    requires
        last.0@ == id,
        forall|k: int| 0 <= k < entries.len() ==> (#[trigger] entries[k]).0@ != id,
    ensures
        spec_find(entries.push(last), id) == Some(last.1),
    decreases entries.len(),
{
    reveal_with_fuel(spec_find, 3);
    if entries.len() == 0 {
        assert(entries.push(last)[0] == last);
    } else {
        assert(entries.push(last)[0] == entries[0]);
        assert(entries.push(last).skip(1) =~= entries.skip(1).push(last));
        assert forall|k: int|
            0 <= k < entries.skip(1).len() implies (#[trigger] entries.skip(1)[k]).0@ != id by {
            assert(entries.skip(1)[k] == entries[k + 1]);
        }
        lemma_find_push(entries.skip(1), id, last);
    }
}

proof fn lemma_find_push_other(
    entries: Seq<(String, ToolCallMetadata)>,
    other: Seq<char>,
    last: (String, ToolCallMetadata),
)
    requires
        last.0@ != other,
    ensures
        spec_find(entries.push(last), other) == spec_find(entries, other),
    decreases entries.len(),
{
    reveal_with_fuel(spec_find, 3);
    if entries.len() == 0 {
        assert(entries.push(last)[0] == last);
        assert(entries.push(last).skip(1) =~= Seq::empty());
    } else {
        assert(entries.push(last)[0] == entries[0]);
        assert(entries.push(last).skip(1) =~= entries.skip(1).push(last));
        lemma_find_push_other(entries.skip(1), other, last);
    }
}

proof fn lemma_find_remove(entries: Seq<(String, ToolCallMetadata)>, other: Seq<char>, i: int)
    requires
        0 <= i < entries.len(),
        entries[i].0@ != other,
    ensures
        spec_find(entries.remove(i), other) == spec_find(entries, other),
    decreases entries.len(),
{
    reveal_with_fuel(spec_find, 3);
    if i == 0 {
        assert(entries.remove(0) =~= entries.skip(1));
    } else {
        assert(entries.remove(i)[0] == entries[0]);
        assert(entries.remove(i).skip(1) =~= entries.skip(1).remove(i - 1));
        assert(entries.skip(1)[i - 1] == entries[i]);
        lemma_find_remove(entries.skip(1), other, i - 1);
    }
}

/// Field-wise sameness of a stored pair and a copy of it.
pub open spec fn pair_like(a: (String, ToolCallMetadata), b: (String, ToolCallMetadata)) -> bool {
    &&& a.0@ == b.0@
    &&& a.1.function_name@ == b.1.function_name@
    &&& (match (a.1.thought_signature, b.1.thought_signature) {
        (Some(x), Some(y)) => x@ == y@,
        (None, None) => true,
        _ => false,
    })
    &&& a.1.args@ == b.1.args@
    &&& a.1.timestamp_ms == b.1.timestamp_ms
    &&& a.1.request_index == b.1.request_index
    &&& a.1.conversation_id@ == b.1.conversation_id@
    &&& a.1.original_id@ == b.1.original_id@
}

/// The entries among the first `i` whose conversation id is `conv`, in
/// their original order.
pub open spec fn spec_conv_entries(
    entries: Seq<(String, ToolCallMetadata)>,
    conv: Seq<char>,
    i: int,
) -> Seq<(String, ToolCallMetadata)>
    decreases i,
{
    if i <= 0 || entries.len() < i {
        Seq::empty()
    } else if entries[i - 1].1.conversation_id@ == conv {
        spec_conv_entries(entries, conv, i - 1).push(entries[i - 1])
    } else {
        spec_conv_entries(entries, conv, i - 1)
    }
}

/// Whether `f` names, for each output position, a distinct stored entry
/// that the output copies. With `f` as long as the store, the output is a
/// permutation of the entries up to field-wise copying.
pub open spec fn maps_entries(
    f: Seq<int>,
    out: Seq<(String, ToolCallMetadata)>,
    entries: Seq<(String, ToolCallMetadata)>,
) -> bool {
    &&& f.len() == out.len()
    &&& (forall|k: int| 0 <= k < f.len() ==> 0 <= #[trigger] f[k] < entries.len())
    &&& (forall|k1: int, k2: int|
        0 <= k1 < k2 < f.len() ==> (#[trigger] f[k1]) != (#[trigger] f[k2]))
    &&& (forall|k: int| 0 <= k < f.len() ==> pair_like(out[k], entries[#[trigger] f[k]]))
}

fn clone_pair(e: &(String, ToolCallMetadata)) -> (r: (String, ToolCallMetadata))
    ensures
        pair_like(r, *e),
{
    (e.0.clone(), ToolCallMetadata {
        function_name: e.1.function_name.clone(),
        thought_signature: match &e.1.thought_signature {
            Some(sg) => Some(sg.clone()),
            None => None,
        },
        args: e.1.args.duplicate(),
        timestamp_ms: e.1.timestamp_ms,
        request_index: e.1.request_index,
        conversation_id: e.1.conversation_id.clone(),
        original_id: e.1.original_id.clone(),
    })
}

impl ConversationState {
    /// Copies of the entries of one conversation, in registration-list
    /// order.
    pub fn get_by_conversation(&self, conversation_id: &str) -> (r: Vec<
        (String, ToolCallMetadata),
    >)
        ensures
            ({
                let want = spec_conv_entries(
                    self.spec_entries(),
                    conversation_id@,
                    self.spec_entries().len() as int,
                );
                r@.len() == want.len() && forall|k: int|
                    0 <= k < want.len() ==> pair_like(#[trigger] r@[k], want[k])
            }),
    {
        let mut out: Vec<(String, ToolCallMetadata)> = Vec::new();
        let mut i: usize = 0;
        while i < self.entries.len()
            invariant
                0 <= i <= self.entries@.len(),
                ({
                    let want = spec_conv_entries(self.spec_entries(), conversation_id@,
                        i as int);
                    out@.len() == want.len() && forall|k: int|
                        0 <= k < want.len() ==> pair_like(#[trigger] out@[k], want[k])
                }),
            decreases self.entries@.len() - i,
        {
            let e = &self.entries[i];
            if str_eq(e.1.conversation_id.as_str(), conversation_id) {
                out.push(clone_pair(e));
            }
            i = i + 1;
        }
        out
    }

    /// Copies of all entries, ordered by ascending request index.
    pub fn get_sorted_by_request_index(&self) -> (r: Vec<(String, ToolCallMetadata)>)
        ensures
            r@.len() == self.spec_entries().len(),
            forall|k1: int, k2: int|
                0 <= k1 < k2 < r@.len() ==> (#[trigger] r@[k1]).1.request_index <= (
                #[trigger] r@[k2]).1.request_index,
            exists|f: Seq<int>| #[trigger] maps_entries(f, r@, self.spec_entries()),
    {
        let mut rest: Vec<(String, ToolCallMetadata)> = Vec::new();
        let ghost mut rest_map: Seq<int> = Seq::empty();
        let mut i: usize = 0;
        while i < self.entries.len()
            invariant
                0 <= i <= self.entries@.len(),
                rest@.len() == i,
                rest_map.len() == i,
                forall|k: int| 0 <= k < i ==> #[trigger] rest_map[k] == k,
                forall|k: int|
                    0 <= k < i ==> pair_like(#[trigger] rest@[k], self.spec_entries()[k]),
            decreases self.entries@.len() - i,
        {
            rest.push(clone_pair(&self.entries[i]));
            proof {
                rest_map = rest_map.push(i as int);
            }
            i = i + 1;
        }
        let n = rest.len();
        let mut out: Vec<(String, ToolCallMetadata)> = Vec::new();
        let ghost mut out_map: Seq<int> = Seq::empty();
        while rest.len() > 0
            invariant
                out@.len() + rest@.len() == n,
                n == self.spec_entries().len(),
                out_map.len() == out@.len(),
                rest_map.len() == rest@.len(),
                forall|k: int|
                    0 <= k < out_map.len() ==> 0 <= #[trigger] out_map[k] < n,
                forall|k: int|
                    0 <= k < rest_map.len() ==> 0 <= #[trigger] rest_map[k] < n,
                forall|k1: int, k2: int|
                    0 <= k1 < k2 < out_map.len() ==> (#[trigger] out_map[k1]) != (
                    #[trigger] out_map[k2]),
                forall|k1: int, k2: int|
                    0 <= k1 < k2 < rest_map.len() ==> (#[trigger] rest_map[k1]) != (
                    #[trigger] rest_map[k2]),
                forall|k1: int, k2: int|
                    0 <= k1 < out_map.len() && 0 <= k2 < rest_map.len() ==> (
                    #[trigger] out_map[k1]) != (#[trigger] rest_map[k2]),
                forall|k: int|
                    0 <= k < out@.len() ==> pair_like(
                        #[trigger] out@[k],
                        self.spec_entries()[out_map[k]],
                    ),
                forall|k: int|
                    0 <= k < rest@.len() ==> pair_like(
                        #[trigger] rest@[k],
                        self.spec_entries()[rest_map[k]],
                    ),
                forall|k1: int, k2: int|
                    0 <= k1 < k2 < out@.len() ==> (#[trigger] out@[k1]).1.request_index <= (
                    #[trigger] out@[k2]).1.request_index,
                forall|k1: int, k2: int|
                    0 <= k1 < out@.len() && 0 <= k2 < rest@.len() ==> (
                    #[trigger] out@[k1]).1.request_index <= (
                    #[trigger] rest@[k2]).1.request_index,
            decreases rest@.len(),
        {
            let mut m: usize = 0;
            let mut j: usize = 1;
            while j < rest.len()
                invariant
                    rest@.len() > 0,
                    0 <= m < rest@.len(),
                    1 <= j <= rest@.len(),
                    forall|k: int|
                        0 <= k < j ==> rest@[m as int].1.request_index <= (
                        #[trigger] rest@[k]).1.request_index,
                decreases rest@.len() - j,
            {
                if rest[j].1.request_index < rest[m].1.request_index {
                    m = j;
                }
                j = j + 1;
            }
            let ghost pre_rest = rest@;
            let ghost pre_map = rest_map;
            let e = rest.remove(m);
            out.push(e);
            proof {
                out_map = out_map.push(pre_map[m as int]);
                rest_map = pre_map.remove(m as int);
                assert forall|k: int|
                    0 <= k < rest@.len() implies pair_like(
                    #[trigger] rest@[k],
                    self.spec_entries()[rest_map[k]],
                ) by {
                    if k < m {
                        assert(rest@[k] == pre_rest[k] && rest_map[k] == pre_map[k]);
                    } else {
                        assert(rest@[k] == pre_rest[k + 1] && rest_map[k] == pre_map[k + 1]);
                    }
                }
                assert forall|k1: int, k2: int|
                    0 <= k1 < k2 < rest_map.len() implies (#[trigger] rest_map[k1]) != (
                    #[trigger] rest_map[k2]) by {
                    if k1 < m {
                        assert(rest_map[k1] == pre_map[k1]);
                    } else {
                        assert(rest_map[k1] == pre_map[k1 + 1]);
                    }
                    if k2 < m {
                        assert(rest_map[k2] == pre_map[k2]);
                    } else {
                        assert(rest_map[k2] == pre_map[k2 + 1]);
                    }
                }
                assert forall|k1: int, k2: int|
                    0 <= k1 < out_map.len() && 0 <= k2 < rest_map.len() implies (
                    #[trigger] out_map[k1]) != (#[trigger] rest_map[k2]) by {
                    if k2 < m {
                        assert(rest_map[k2] == pre_map[k2]);
                    } else {
                        assert(rest_map[k2] == pre_map[k2 + 1]);
                    }
                    if k1 < out_map.len() - 1 {
                        assert(out_map[k1] == out_map.subrange(0, out_map.len() - 1)[k1]);
                    } else {
                        assert(out_map[k1] == pre_map[m as int]);
                    }
                }
                assert forall|k: int|
                    0 <= k < rest_map.len() implies 0 <= #[trigger] rest_map[k] < n by {
                    if k < m {
                        assert(rest_map[k] == pre_map[k]);
                    } else {
                        assert(rest_map[k] == pre_map[k + 1]);
                    }
                }
                assert forall|k1: int, k2: int|
                    0 <= k1 < out@.len() && 0 <= k2 < rest@.len() implies (
                    #[trigger] out@[k1]).1.request_index <= (
                    #[trigger] rest@[k2]).1.request_index by {
                    if k2 < m {
                        assert(rest@[k2] == pre_rest[k2]);
                    } else {
                        assert(rest@[k2] == pre_rest[k2 + 1]);
                    }
                }
            }
        }
        proof {
            assert(maps_entries(out_map, out@, self.spec_entries()));
        }
        out
    }
}


/// Round-trip correlation: once a registration for `id` stands in the
/// store, a later registration under a different id leaves it untouched —
/// the lookup for `id` still yields the name registered for it, and its
/// original id is still `id`, so the round-trip check holds. The second
/// premise is exactly what a registration for `other_id` ensures of every
/// other key.
pub proof fn lemma_round_trip_correlation(
    s1: ConversationState,
    s2: ConversationState,
    id: Seq<char>,
    other_id: Seq<char>,
    name: Seq<char>,
)
    requires
        s1.spec_lookup(id) matches Some(m) && m.original_id@ == id && m.function_name@ == name,
        forall|o: Seq<char>| o != other_id ==> #[trigger] s2.spec_lookup(o) == s1.spec_lookup(o),
        other_id != id,
    ensures
        s2.spec_lookup(id) == s1.spec_lookup(id),
        (s2.spec_lookup(id) matches Some(m) && m.original_id@ == id && m.function_name@
            == name),
{
    assert(s2.spec_lookup(id) == s1.spec_lookup(id));
}

} // verus!
